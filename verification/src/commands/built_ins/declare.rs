//! `declare`: answers questions about declared variables.
use crate::syntax::command_invocation::CommandInvocation;
use crate::text::str_eq;
use vstd::prelude::*;

verus! {

/// What `declare` writes to its output and to its error stream.
pub open spec fn declare_output(arguments: Seq<Seq<char>>) -> (Seq<char>, Seq<char>) {
    if arguments.len() == 0 {
        (seq![], "declare: no arguments specified\n"@)
    } else if arguments[0] == "-p"@ {
        if arguments.len() < 2 {
            (seq![], "declare: -p: variable argument is required\n"@)
        } else {
            ("declare: "@ + arguments[1] + ": not found\n"@, seq![])
        }
    } else {
        (seq![], "declare: unknown argument: "@ + arguments[0] + "\n"@)
    }
}

/// Handles `declare -p NAME`, reporting that the variable is not found.
pub fn declare(command: &CommandInvocation, writer_out: &mut String, writer_err: &mut String)
    ensures
        final(writer_out)@ == old(writer_out)@ + declare_output(command@.arguments).0,
        final(writer_err)@ == old(writer_err)@ + declare_output(command@.arguments).1,
{
    let arguments = &command.arguments;
    if arguments.len() > 0 {
        if str_eq(arguments[0].as_str(), "-p") {
            if arguments.len() < 2 {
                writer_err.append("declare: -p: variable argument is required\n");
                return ;
            }
            writer_out.append("declare: ");
            writer_out.append(arguments[1].as_str());
            writer_out.append(": not found\n");
        } else {
            writer_err.append("declare: unknown argument: ");
            writer_err.append(arguments[0].as_str());
            writer_err.append("\n");
        }
    } else {
        writer_err.append("declare: no arguments specified\n");
    }
}

} // verus!
