//! `exit`: decides the status that the shell exits with.
use crate::numbers::{i32_text_value, parse_i32};
use crate::syntax::command_invocation::CommandInvocation;
use vstd::prelude::*;

verus! {

/// How the shell is to exit: with this status, after writing the message, if any.
#[derive(Debug)]
pub struct ExitRequest {
    pub code: i32,
    pub message: Option<String>,
}

/// The status that `exit` exits with, and the message it writes first: 0 with no
/// argument, the argument when it is a number, and 255 with a complaint otherwise.
pub open spec fn exit_result(arguments: Seq<Seq<char>>) -> (i32, Option<Seq<char>>) {
    if arguments.len() == 0 {
        (0, None)
    } else {
        match i32_text_value(arguments[0]) {
            Some(code) => (code, None),
            None => (255, Some("exit: "@ + arguments[0] + ": numeric argument required"@)),
        }
    }
}

/// Decides how `exit` ends the shell.
pub fn exit(command: &CommandInvocation) -> (request: ExitRequest)
    ensures
        request.code == exit_result(command@.arguments).0,
        match request.message {
            Some(m) => exit_result(command@.arguments).1 == Some(m@),
            None => exit_result(command@.arguments).1 is None,
        },
{
    if command.arguments.len() == 0 {
        return ExitRequest { code: 0, message: None };
    }
    match parse_i32(command.arguments[0].as_str()) {
        Some(code) => ExitRequest { code, message: None },
        None => {
            let mut message = String::from_str("exit: ");
            message.append(command.arguments[0].as_str());
            message.append(": numeric argument required");
            ExitRequest { code: 255, message: Some(message) }
        },
    }
}

} // verus!
