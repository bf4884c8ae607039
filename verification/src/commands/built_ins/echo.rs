//! `echo`: prints its arguments.
use crate::syntax::command_invocation::CommandInvocation;
use crate::text::{join, join_strings};
use vstd::prelude::*;

verus! {

/// What `echo` prints: its arguments separated by single spaces, then a newline.
pub open spec fn echo_output(arguments: Seq<Seq<char>>) -> Seq<char> {
    join(arguments, " "@) + "\n"@
}

/// Writes the arguments, separated by spaces, and a newline.
pub fn echo(command: &CommandInvocation, writer: &mut String)
    ensures
        final(writer)@ == old(writer)@ + echo_output(command@.arguments),
{
    let output = join_strings(&command.arguments, " ");
    writer.append(output.as_str());
    writer.append("\n");
}

} // verus!
