//! The built-in commands: their names, and running one by name.
use crate::commands::built_ins::cd::{CdTarget, cd, cd_goes_home};
use crate::commands::built_ins::complete::{complete, complete_result};
use crate::commands::built_ins::declare::{declare, declare_output};
use crate::commands::built_ins::echo::{echo, echo_output};
use crate::commands::built_ins::exit::{ExitRequest, exit, exit_result};
use crate::commands::built_ins::history::{HistoryFileRequest, history, history_result, request_view};
use crate::commands::built_ins::type_of::{type_of, type_of_result};
use crate::state::shell_state::ShellState;
use crate::syntax::command_invocation::CommandInvocation;
use crate::text::str_eq;
use vstd::prelude::*;

verus! {

/// A built-in command.
#[derive(Clone, Copy, Debug, PartialEq, Eq, Structural)]
pub enum Builtin {
    Cd,
    Complete,
    Declare,
    Echo,
    Exit,
    History,
    Jobs,
    Pwd,
    Type,
}

/// The names of the built-in commands, in order.
pub open spec fn builtin_names() -> Seq<Seq<char>> {
    seq![
        "cd"@,
        "complete"@,
        "declare"@,
        "echo"@,
        "exit"@,
        "history"@,
        "jobs"@,
        "pwd"@,
        "type"@,
    ]
}

/// The built-in command of a name.
pub open spec fn builtin_named(name: Seq<char>) -> Option<Builtin> {
    if name == "cd"@ {
        Some(Builtin::Cd)
    } else if name == "complete"@ {
        Some(Builtin::Complete)
    } else if name == "declare"@ {
        Some(Builtin::Declare)
    } else if name == "echo"@ {
        Some(Builtin::Echo)
    } else if name == "exit"@ {
        Some(Builtin::Exit)
    } else if name == "history"@ {
        Some(Builtin::History)
    } else if name == "jobs"@ {
        Some(Builtin::Jobs)
    } else if name == "pwd"@ {
        Some(Builtin::Pwd)
    } else if name == "type"@ {
        Some(Builtin::Type)
    } else {
        None
    }
}

/// Law: a name names a built-in exactly when it is among the names that `names` lists.
pub proof fn law_builtin_named_iff_listed(name: Seq<char>)
    ensures
        builtin_named(name) is Some <==> builtin_names().contains(name),
{
    let names = builtin_names();
    if builtin_named(name) is Some {
        if name == "cd"@ {
            assert(names[0] == name);
        } else if name == "complete"@ {
            assert(names[1] == name);
        } else if name == "declare"@ {
            assert(names[2] == name);
        } else if name == "echo"@ {
            assert(names[3] == name);
        } else if name == "exit"@ {
            assert(names[4] == name);
        } else if name == "history"@ {
            assert(names[5] == name);
        } else if name == "jobs"@ {
            assert(names[6] == name);
        } else if name == "pwd"@ {
            assert(names[7] == name);
        } else {
            assert(names[8] == name);
        }
    }
    if names.contains(name) {
        let i = choose|i: int| 0 <= i < names.len() && names[i] == name;
        assert(0 <= i < 9);
    }
}

/// The names of the built-in commands.
pub fn names() -> (names: Vec<&'static str>)
    ensures
        names@.map_values(|s: &str| s@) == builtin_names(),
{
    let names = vec!["cd", "complete", "declare", "echo", "exit", "history", "jobs", "pwd", "type"];
    proof {
        assert(names@.map_values(|s: &str| s@) =~= builtin_names());
    }
    names
}

/// Whether `command_name` names a built-in command.
pub fn is_builtin(command_name: &str) -> (builtin: bool)
    ensures
        builtin == builtin_names().contains(command_name@),
{
    proof {
        law_builtin_named_iff_listed(command_name@);
    }
    find(command_name).is_some()
}

/// The built-in command named `command_name`, if any.
pub fn find(command_name: &str) -> (builtin: Option<Builtin>)
    ensures
        builtin == builtin_named(command_name@),
{
    if str_eq(command_name, "cd") {
        Some(Builtin::Cd)
    } else if str_eq(command_name, "complete") {
        Some(Builtin::Complete)
    } else if str_eq(command_name, "declare") {
        Some(Builtin::Declare)
    } else if str_eq(command_name, "echo") {
        Some(Builtin::Echo)
    } else if str_eq(command_name, "exit") {
        Some(Builtin::Exit)
    } else if str_eq(command_name, "history") {
        Some(Builtin::History)
    } else if str_eq(command_name, "jobs") {
        Some(Builtin::Jobs)
    } else if str_eq(command_name, "pwd") {
        Some(Builtin::Pwd)
    } else if str_eq(command_name, "type") {
        Some(Builtin::Type)
    } else {
        None
    }
}

/// Work that a built-in needs from the system, which the caller carries out.
#[derive(Debug)]
pub enum HostRequest {
    /// `cd`: change the working directory.
    ChangeDirectory(CdTarget),
    /// `pwd`: print the working directory.
    PrintWorkingDirectory,
    /// `exit`: write the history file named by `HISTFILE`, if set, then exit.
    Exit(ExitRequest),
    /// `jobs`: list the background jobs.
    ListJobs,
    /// `type`: look the name up on `PATH`.
    LookUpExecutable(String),
    /// `history`: read, write or append to a history file.
    HistoryFile(HistoryFileRequest),
}

/// What running a command as a built-in came to.
#[derive(Debug)]
pub enum Dispatch {
    /// The command is not a built-in.
    NotBuiltin,
    /// The built-in ran; its output is written.
    Done,
    /// The built-in ran as far as it could; the system work remains.
    Host(HostRequest),
}

impl Dispatch {
    /// Whether the command was a built-in.
    pub fn was_executed(&self) -> (executed: bool)
        ensures
            executed == !(self is NotBuiltin),
    {
        match self {
            Dispatch::NotBuiltin => false,
            _ => true,
        }
    }
}

/// Runs `command` if it names a built-in, writing what it prints to `stdout` and
/// `stderr`; what needs the system is returned as a request.
pub fn execute(
    command: &CommandInvocation,
    state: &mut ShellState,
    stdout: &mut String,
    stderr: &mut String,
) -> (dispatch: Dispatch)
    ensures
        final(state).history@ == old(state).history@,
        final(state).declarations@ == old(state).declarations@,
        builtin_named(command@.name) != Some(Builtin::Complete) ==> final(state).completions@ == old(
            state,
        ).completions@,
        match builtin_named(command@.name) {
            None => {
                &&& dispatch is NotBuiltin
                &&& final(stdout)@ == old(stdout)@
                &&& final(stderr)@ == old(stderr)@
            },
            Some(Builtin::Cd) => {
                &&& final(stdout)@ == old(stdout)@
                &&& final(stderr)@ == old(stderr)@
                &&& dispatch matches Dispatch::Host(HostRequest::ChangeDirectory(target))
                &&& match target {
                    CdTarget::Home => cd_goes_home(command@.arguments),
                    CdTarget::Path(p) => !cd_goes_home(command@.arguments) && p@
                        == command@.arguments[0],
                }
            },
            Some(Builtin::Complete) => {
                let r = complete_result(command@.arguments, old(state).completions@);
                &&& dispatch is Done
                &&& final(stdout)@ == old(stdout)@ + r.0
                &&& final(stderr)@ == old(stderr)@ + r.1
                &&& final(state).completions@ == r.2
            },
            Some(Builtin::Declare) => {
                &&& dispatch is Done
                &&& final(stdout)@ == old(stdout)@ + declare_output(command@.arguments).0
                &&& final(stderr)@ == old(stderr)@ + declare_output(command@.arguments).1
            },
            Some(Builtin::Echo) => {
                &&& dispatch is Done
                &&& final(stdout)@ == old(stdout)@ + echo_output(command@.arguments)
                &&& final(stderr)@ == old(stderr)@
            },
            Some(Builtin::Exit) => {
                &&& final(stdout)@ == old(stdout)@
                &&& final(stderr)@ == old(stderr)@
                &&& dispatch matches Dispatch::Host(HostRequest::Exit(request))
                &&& request.code == exit_result(command@.arguments).0
                &&& match request.message {
                    Some(m) => exit_result(command@.arguments).1 == Some(m@),
                    None => exit_result(command@.arguments).1 is None,
                }
            },
            Some(Builtin::History) => {
                let r = history_result(command@.arguments, old(state).history@);
                &&& final(stdout)@ == old(stdout)@ + r.0
                &&& final(stderr)@ == old(stderr)@ + r.1
                &&& match r.2 {
                    Some(req) => dispatch matches Dispatch::Host(HostRequest::HistoryFile(q))
                        && q@ == req,
                    None => dispatch is Done,
                }
            },
            Some(Builtin::Jobs) => {
                &&& dispatch matches Dispatch::Host(HostRequest::ListJobs)
                &&& final(stdout)@ == old(stdout)@
                &&& final(stderr)@ == old(stderr)@
            },
            Some(Builtin::Pwd) => {
                &&& dispatch matches Dispatch::Host(HostRequest::PrintWorkingDirectory)
                &&& final(stdout)@ == old(stdout)@
                &&& final(stderr)@ == old(stderr)@
            },
            Some(Builtin::Type) => {
                let r = type_of_result(command@.arguments);
                &&& final(stdout)@ == old(stdout)@ + r.0
                &&& final(stderr)@ == old(stderr)@ + r.1
                &&& match r.2 {
                    Some(name) => dispatch matches Dispatch::Host(
                        HostRequest::LookUpExecutable(n),
                    ) && n@ == name,
                    None => dispatch is Done,
                }
            },
        },
{
    match find(command.name.as_str()) {
        None => Dispatch::NotBuiltin,
        Some(Builtin::Cd) => Dispatch::Host(HostRequest::ChangeDirectory(cd(command))),
        Some(Builtin::Complete) => {
            complete(command, &mut state.completions, stdout, stderr);
            Dispatch::Done
        },
        Some(Builtin::Declare) => {
            declare(command, stdout, stderr);
            Dispatch::Done
        },
        Some(Builtin::Echo) => {
            echo(command, stdout);
            Dispatch::Done
        },
        Some(Builtin::Exit) => Dispatch::Host(HostRequest::Exit(exit(command))),
        Some(Builtin::History) => {
            let request = history(command, &state.history, stdout, stderr);
            match request {
                Some(request) => Dispatch::Host(HostRequest::HistoryFile(request)),
                None => Dispatch::Done,
            }
        },
        Some(Builtin::Jobs) => Dispatch::Host(HostRequest::ListJobs),
        Some(Builtin::Pwd) => Dispatch::Host(HostRequest::PrintWorkingDirectory),
        Some(Builtin::Type) => {
            let lookup = type_of(command, stdout, stderr);
            match lookup {
                Some(name) => Dispatch::Host(HostRequest::LookUpExecutable(name)),
                None => Dispatch::Done,
            }
        },
    }
}

} // verus!
