//! Decides how the commands of a pipeline are run and wired together.
//!
//! The plan says, for each command, whether it is a built-in or an external program, where
//! its input comes from, and where its output and errors go. The caller starts the
//! processes and runs the built-ins as the plan says.
use crate::commands::built_ins::registry::{builtin_named, find};
use crate::commands::built_ins::type_of::PathLookup;
use crate::commands::command_args_expansion::{command_args_expansion, expand_statements};
use crate::commands::expansion::{expand_pipeline, expand_pipeline_view};
use crate::commands::statement::Pipeline as StatementPipeline;
use crate::state::declare_store::DeclareStore;
use crate::syntax::command_invocation::{CommandInvocation, InvocationView, invocations_view};
use crate::syntax::pipeline::{Pipeline, PipelineView};
use crate::syntax::redirection::copy_redirection;
use crate::text::{copy_strings, join, join_strings, strings_view};
use vstd::prelude::*;

verus! {

/// Whether a command runs inside the shell or as a separate process.
#[derive(Clone, Copy, Debug, PartialEq, Eq, Structural)]
pub enum StageKind {
    Builtin,
    External,
}

/// Where a command reads its input from.
#[derive(Clone, Copy, Debug, PartialEq, Eq, Structural)]
pub enum StdinSource {
    /// The shell's own input.
    Terminal,
    /// The output that the built-in before it wrote.
    BuiltinOutput,
    /// The output of the process before it.
    PreviousProcess,
}

/// Where a command writes its output.
#[derive(Clone, Copy, Debug, PartialEq, Eq, Structural)]
pub enum StdoutTarget {
    /// The shell's own output.
    Terminal,
    /// The file of the command's stdout redirection.
    File,
    /// A buffer handed to the next command (built-ins not at the end).
    Capture,
    /// A pipe to the next command (processes not at the end).
    Pipe,
}

/// Where a command writes its errors.
#[derive(Clone, Copy, Debug, PartialEq, Eq, Structural)]
pub enum StderrTarget {
    /// The shell's own error stream.
    Terminal,
    /// The file of the command's stderr redirection.
    File,
}

/// One command of a pipeline, with how it is run and wired.
#[derive(Debug)]
pub struct Stage {
    pub command: CommandInvocation,
    pub kind: StageKind,
    pub stdin: StdinSource,
    pub stdout: StdoutTarget,
    pub stderr: StderrTarget,
}

/// How a pipeline is run.
#[derive(Debug)]
pub struct ExecutionPlan {
    pub stages: Vec<Stage>,
    pub is_background: bool,
    /// The command line that a background job is listed with.
    pub job_command: String,
}

/// How a command runs.
pub open spec fn kind_of(command: InvocationView) -> StageKind {
    if builtin_named(command.name) is Some {
        StageKind::Builtin
    } else {
        StageKind::External
    }
}

/// The wiring of command `i` of a pipeline: its kind, input, output and errors.
pub open spec fn stage_wiring(commands: Seq<InvocationView>, i: int) -> (
    StageKind,
    StdinSource,
    StdoutTarget,
    StderrTarget,
) {
    let command = commands[i];
    let kind = kind_of(command);
    let stdin = if i == 0 {
        StdinSource::Terminal
    } else if kind_of(commands[i - 1]) == StageKind::Builtin {
        StdinSource::BuiltinOutput
    } else {
        StdinSource::PreviousProcess
    };
    let stdout = if i == commands.len() - 1 {
        if command.stdout_redirection is Some {
            StdoutTarget::File
        } else {
            StdoutTarget::Terminal
        }
    } else if kind == StageKind::Builtin {
        StdoutTarget::Capture
    } else {
        StdoutTarget::Pipe
    };
    let stderr = if command.stderr_redirection is Some {
        StderrTarget::File
    } else {
        StderrTarget::Terminal
    };
    (kind, stdin, stdout, stderr)
}

/// A command line as shown for a job: the name and the arguments, separated by spaces.
pub open spec fn command_line_text(command: InvocationView) -> Seq<char> {
    join(seq![command.name] + command.arguments, " "@)
}

/// A pipeline as shown for a job: its commands separated by ` | `.
pub open spec fn pipeline_text(commands: Seq<InvocationView>) -> Seq<char> {
    join(commands.map_values(|c: InvocationView| command_line_text(c)), " | "@)
}

/// Whether `plan` runs the commands of `pipeline` as this module decides.
pub open spec fn plans(plan: ExecutionPlan, pipeline: PipelineView) -> bool {
    let commands = pipeline.commands;
    &&& plan.stages@.len() == commands.len()
    &&& plan.is_background == pipeline.is_background
    &&& plan.job_command@ == pipeline_text(commands)
    &&& forall|i: int|
        0 <= i < commands.len() ==> {
            let stage = #[trigger] plan.stages@[i];
            let wiring = stage_wiring(commands, i);
            &&& stage.command@ == commands[i]
            &&& stage.kind == wiring.0
            &&& stage.stdin == wiring.1
            &&& stage.stdout == wiring.2
            &&& stage.stderr == wiring.3
        }
}

impl CommandInvocation {
    /// A copy of this command.
    pub fn copy(&self) -> (c: CommandInvocation)
        ensures
            c@ == self@,
    {
        CommandInvocation {
            name: self.name.clone(),
            arguments: copy_strings(&self.arguments),
            stdout_redirection: copy_redirection(&self.stdout_redirection),
            stderr_redirection: copy_redirection(&self.stderr_redirection),
        }
    }
}

/// The command line of one command: its name and arguments separated by spaces.
pub fn command_line(command: &CommandInvocation) -> (line: String)
    ensures
        line@ == command_line_text(command@),
{
    let mut words: Vec<String> = Vec::new();
    words.push(command.name.clone());
    let mut i: usize = 0;
    while i < command.arguments.len()
        invariant
            i <= command.arguments@.len(),
            strings_view(words@) == seq![command@.name] + command@.arguments.take(i as int),
        decreases command.arguments@.len() - i,
    {
        let ghost before = strings_view(words@);
        words.push(command.arguments[i].clone());
        proof {
            assert(strings_view(words@) =~= before.push(command@.arguments[i as int]));
        }
        i = i + 1;
        proof {
            assert(seq![command@.name] + command@.arguments.take(i as int) =~= before.push(
                command@.arguments[i - 1],
            ));
        }
    }
    proof {
        assert(command@.arguments.take(command.arguments@.len() as int) =~= command@.arguments);
    }
    join_strings(&words, " ")
}

/// Decides how the (already expanded) pipeline is run.
pub fn plan_pipeline(pipeline: &Pipeline) -> (plan: ExecutionPlan)
    ensures
        plans(plan, pipeline@),
{
    let ghost commands = pipeline@.commands;
    let n = pipeline.commands.len();
    let mut stages: Vec<Stage> = Vec::new();
    let mut lines: Vec<String> = Vec::new();
    let mut previous_kind = StageKind::External;
    let mut i: usize = 0;
    while i < n
        invariant
            n == commands.len(),
            commands == invocations_view(pipeline.commands@),
            i <= n,
            stages@.len() == i,
            i > 0 ==> previous_kind == kind_of(commands[i - 1]),
            strings_view(lines@) == commands.take(i as int).map_values(
                |c: InvocationView| command_line_text(c),
            ),
            forall|k: int|
                0 <= k < i ==> {
                    let stage = #[trigger] stages@[k];
                    let wiring = stage_wiring(commands, k);
                    &&& stage.command@ == commands[k]
                    &&& stage.kind == wiring.0
                    &&& stage.stdin == wiring.1
                    &&& stage.stdout == wiring.2
                    &&& stage.stderr == wiring.3
                },
        decreases n - i,
    {
        let command = &pipeline.commands[i];
        proof {
            assert(commands[i as int] == command@);
        }
        let kind = match find(command.name.as_str()) {
            Some(_) => StageKind::Builtin,
            None => StageKind::External,
        };
        let stdin = if i == 0 {
            StdinSource::Terminal
        } else if previous_kind == StageKind::Builtin {
            StdinSource::BuiltinOutput
        } else {
            StdinSource::PreviousProcess
        };
        let stdout = if i == n - 1 {
            if command.stdout_redirection.is_some() {
                StdoutTarget::File
            } else {
                StdoutTarget::Terminal
            }
        } else if kind == StageKind::Builtin {
            StdoutTarget::Capture
        } else {
            StdoutTarget::Pipe
        };
        let stderr = if command.stderr_redirection.is_some() {
            StderrTarget::File
        } else {
            StderrTarget::Terminal
        };
        let ghost lines_before = strings_view(lines@);
        lines.push(command_line(command));
        proof {
            assert(strings_view(lines@) =~= lines_before.push(command_line_text(commands[i as int])));
            assert(commands.take(i + 1) =~= commands.take(i as int).push(commands[i as int]));
            assert(commands.take(i + 1).map_values(|c: InvocationView| command_line_text(c))
                =~= commands.take(i as int).map_values(|c: InvocationView| command_line_text(c)).push(
                command_line_text(commands[i as int]),
            ));
        }
        stages.push(Stage { command: command.copy(), kind, stdin, stdout, stderr });
        previous_kind = kind;
        i = i + 1;
    }
    proof {
        assert(commands.take(n as int) =~= commands);
    }
    let job_command = join_strings(&lines, " | ");
    ExecutionPlan { stages, is_background: pipeline.is_background, job_command }
}

/// Prepares a parsed pipeline for running: expands the variable references in the
/// arguments of its commands (`$NAME` and `${NAME}`, dropping arguments that come to
/// nothing), then decides how each command is run and wired.
pub fn prepare_pipeline(pipeline: &mut Pipeline, declarations: &DeclareStore) -> (plan: ExecutionPlan)
    ensures
        final(pipeline)@ == expand_pipeline_view(old(pipeline)@, declarations@),
        plans(plan, final(pipeline)@),
{
    expand_pipeline(pipeline, declarations);
    plan_pipeline(pipeline)
}

/// Prepares a parsed statement pipeline for running: expands its arguments in the older
/// way (everything after the first `$` names a variable; arguments are kept even when
/// empty), then decides how each statement is run and wired. A single statement is run
/// on its own, with its redirects; more are run as a pipeline.
pub fn run_statement(pipeline: &mut StatementPipeline, declarations: &DeclareStore) -> (plan: ExecutionPlan)
    ensures
        final(pipeline)@ == expand_statements(old(pipeline)@, declarations@),
        plans(plan, final(pipeline)@),
{
    command_args_expansion(pipeline, declarations);
    let commands = pipeline.to_invocations();
    plan_pipeline(&commands)
}

/// Whether an external command can be started, given what the search of `PATH` for it
/// found, and the complaint written otherwise.
pub open spec fn external_lookup_report(name: Seq<char>, lookup: PathLookup) -> (bool, Seq<char>) {
    match lookup {
        PathLookup::PathUnset => (false, "type: PATH variable not set\n"@),
        PathLookup::NotFound => (false, name + ": not found\n"@),
        PathLookup::Found(_) => (true, seq![]),
    }
}

/// Decides whether the external command `name` is started, given what the search of
/// `PATH` for it found; otherwise writes why not.
pub fn check_external(name: &str, lookup: &PathLookup, writer_err: &mut String) -> (runs: bool)
    ensures
        runs == external_lookup_report(name@, *lookup).0,
        final(writer_err)@ == old(writer_err)@ + external_lookup_report(name@, *lookup).1,
{
    match lookup {
        PathLookup::PathUnset => {
            writer_err.append("type: PATH variable not set\n");
            false
        },
        PathLookup::NotFound => {
            writer_err.append(name);
            writer_err.append(": not found\n");
            false
        },
        PathLookup::Found(_) => true,
    }
}

/// Law: in a plan for a pipeline, the first command reads the shell's input and every
/// other command reads what the command before it wrote; every command but the last
/// hands its output on (a built-in through a buffer, a process through a pipe), and the
/// last writes to the shell's output or to its redirection's file. Every command, wherever
/// it stands, sends its errors to its stderr redirection's file when it has one, and to
/// the shell's error stream otherwise.
pub proof fn law_commands_are_chained(plan: ExecutionPlan, pipeline: PipelineView, i: int)
    requires
        plans(plan, pipeline),
        0 <= i < pipeline.commands.len(),
    ensures
        i == 0 ==> plan.stages@[i].stdin == StdinSource::Terminal,
        i > 0 ==> plan.stages@[i].stdin == (if plan.stages@[i - 1].kind == StageKind::Builtin {
            StdinSource::BuiltinOutput
        } else {
            StdinSource::PreviousProcess
        }),
        i < pipeline.commands.len() - 1 ==> plan.stages@[i].stdout == (
        if plan.stages@[i].kind == StageKind::Builtin {
            StdoutTarget::Capture
        } else {
            StdoutTarget::Pipe
        }),
        i == pipeline.commands.len() - 1 ==> (plan.stages@[i].stdout == StdoutTarget::File
            <==> pipeline.commands[i].stdout_redirection is Some),
        i == pipeline.commands.len() - 1 ==> (plan.stages@[i].stdout == StdoutTarget::Terminal
            <==> pipeline.commands[i].stdout_redirection is None),
        plan.stages@[i].stderr == StderrTarget::File <==> pipeline.commands[i].stderr_redirection is Some,
        plan.stages@[i].stderr == StderrTarget::Terminal <==> pipeline.commands[i].stderr_redirection is None,
{
}

} // verus!
