//! Which commands the older statement runner accepts as its own.
use crate::commands::command::Command;
use crate::text::str_eq;
use vstd::prelude::*;

verus! {

/// Whether the command is `exit` or `echo`.
pub fn is_command_allowed(command: &Command) -> (allowed: bool)
    ensures
        allowed == (command@.0 == "exit"@ || command@.0 == "echo"@),
{
    str_eq(command.command.as_str(), "exit") || str_eq(command.command.as_str(), "echo")
}

} // verus!
