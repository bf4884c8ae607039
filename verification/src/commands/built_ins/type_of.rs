//! `type`: tells whether a name is a built-in or which executable it runs.
use crate::commands::built_ins::registry::{builtin_names, is_builtin};
use crate::syntax::command_invocation::CommandInvocation;
use vstd::prelude::*;

verus! {

/// What a search of `PATH` for an executable found.
#[derive(Debug)]
pub enum PathLookup {
    /// `PATH` is not set.
    PathUnset,
    /// No executable of that name is on `PATH`.
    NotFound,
    /// The executable at this path.
    Found(String),
}

/// What `type` writes to its output and error stream, and the name it needs looked up on
/// `PATH`, if any.
pub open spec fn type_of_result(arguments: Seq<Seq<char>>) -> (
    Seq<char>,
    Seq<char>,
    Option<Seq<char>>,
) {
    if arguments.len() != 1 {
        (seq![], "type: must provide one argument\n"@, None)
    } else if builtin_names().contains(arguments[0]) {
        (arguments[0] + " is a shell builtin\n"@, seq![], None)
    } else {
        (seq![], seq![], Some(arguments[0]))
    }
}

/// Handles `type NAME` for built-ins; for any other name, returns it to be looked up on
/// `PATH`.
pub fn type_of(command: &CommandInvocation, writer_out: &mut String, writer_err: &mut String) -> (lookup: Option<String>)
    ensures
        final(writer_out)@ == old(writer_out)@ + type_of_result(command@.arguments).0,
        final(writer_err)@ == old(writer_err)@ + type_of_result(command@.arguments).1,
        match lookup {
            Some(name) => type_of_result(command@.arguments).2 == Some(name@),
            None => type_of_result(command@.arguments).2 is None,
        },
{
    if command.arguments.len() != 1 {
        writer_err.append("type: must provide one argument\n");
        return None;
    }
    let command_argument = &command.arguments[0];
    if is_builtin(command_argument.as_str()) {
        writer_out.append(command_argument.as_str());
        writer_out.append(" is a shell builtin\n");
        return None;
    }
    Some(command_argument.clone())
}

/// What `type` writes once the name was looked up on `PATH`.
pub open spec fn lookup_report(name: Seq<char>, lookup: PathLookup) -> (Seq<char>, Seq<char>) {
    match lookup {
        PathLookup::PathUnset => (seq![], "type: PATH variable not set\n"@),
        PathLookup::NotFound => (seq![], name + ": not found\n"@),
        PathLookup::Found(path) => (name + " is "@ + path@ + "\n"@, seq![]),
    }
}

/// Reports where the executable `name` was found on `PATH`, or that it was not.
pub fn report_lookup(name: &str, lookup: &PathLookup, writer_out: &mut String, writer_err: &mut String)
    ensures
        final(writer_out)@ == old(writer_out)@ + lookup_report(name@, *lookup).0,
        final(writer_err)@ == old(writer_err)@ + lookup_report(name@, *lookup).1,
{
    match lookup {
        PathLookup::PathUnset => {
            writer_err.append("type: PATH variable not set\n");
        },
        PathLookup::NotFound => {
            writer_err.append(name);
            writer_err.append(": not found\n");
        },
        PathLookup::Found(path) => {
            writer_out.append(name);
            writer_out.append(" is ");
            writer_out.append(path.as_str());
            writer_out.append("\n");
        },
    }
}

} // verus!
