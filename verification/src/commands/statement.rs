//! The older form of a parsed command line: statements with their redirections.
use crate::commands::command::Command;
use crate::syntax::command_invocation::{CommandInvocation, InvocationView};
use crate::syntax::pipeline::PipelineView;
use crate::syntax::redirection::{Redirection, RedirectionMode, redirection_view};
use crate::text::copy_strings;
use vstd::prelude::*;

verus! {

/// Whether a redirect replaces the file's content or appends to it.
#[derive(Clone, Copy, Debug, PartialEq, Eq, Structural)]
pub enum RedirectMode {
    Overwrite,
    Append,
}

/// An output stream sent to a file.
#[derive(Debug)]
pub struct Redirect {
    pub redirect_mode: RedirectMode,
    pub file_location: String,
}

/// The mode of a redirect, in the terms of the parser's redirections.
pub open spec fn mode_view(mode: RedirectMode) -> RedirectionMode {
    match mode {
        RedirectMode::Overwrite => RedirectionMode::Overwrite,
        RedirectMode::Append => RedirectionMode::Append,
    }
}

/// The view of an optional redirect: its mode and its file.
pub open spec fn redirect_view(r: Option<Redirect>) -> Option<(RedirectionMode, Seq<char>)> {
    match r {
        Some(r) => Some((mode_view(r.redirect_mode), r.file_location@)),
        None => None,
    }
}

/// One command with where its output and errors go.
#[derive(Debug)]
pub struct RedirectStatement {
    pub command: Command,
    pub redirect_std_out: Option<Redirect>,
    pub redirect_std_err: Option<Redirect>,
}

impl View for RedirectStatement {
    /// The same content as a command invocation.
    type V = InvocationView;

    open spec fn view(&self) -> InvocationView {
        InvocationView {
            name: self.command@.0,
            arguments: self.command@.1,
            stdout_redirection: redirect_view(self.redirect_std_out),
            stderr_redirection: redirect_view(self.redirect_std_err),
        }
    }
}

/// The same redirect in the parser's terms.
pub fn to_redirection(r: &Option<Redirect>) -> (c: Option<Redirection>)
    ensures
        redirection_view(c) == redirect_view(*r),
{
    match r {
        Some(r) => {
            let mode = match r.redirect_mode {
                RedirectMode::Overwrite => RedirectionMode::Overwrite,
                RedirectMode::Append => RedirectionMode::Append,
            };
            Some(Redirection { mode, file_path: r.file_location.clone() })
        },
        None => None,
    }
}

impl RedirectStatement {
    /// The statement as a command invocation with the same content.
    pub fn to_invocation(&self) -> (c: CommandInvocation)
        ensures
            c@ == self@,
    {
        CommandInvocation {
            name: self.command.command.clone(),
            arguments: copy_strings(&self.command.arguments),
            stdout_redirection: to_redirection(&self.redirect_std_out),
            stderr_redirection: to_redirection(&self.redirect_std_err),
        }
    }
}

/// The views of a sequence of statements.
pub open spec fn statements_view(v: Seq<RedirectStatement>) -> Seq<InvocationView> {
    v.map_values(|s: RedirectStatement| s@)
}

/// Statements joined by `|`, run in the background when the line ends with `&`.
#[derive(Debug)]
pub struct Pipeline {
    pub segments: Vec<RedirectStatement>,
    pub is_background: bool,
}

impl Pipeline {
    /// The pipeline as command invocations with the same content.
    pub fn to_invocations(&self) -> (p: crate::syntax::pipeline::Pipeline)
        ensures
            p@ == self@,
    {
        let mut commands: Vec<CommandInvocation> = Vec::new();
        let mut i: usize = 0;
        while i < self.segments.len()
            invariant
                i <= self.segments@.len(),
                crate::syntax::command_invocation::invocations_view(commands@)
                    == statements_view(self.segments@).take(i as int),
            decreases self.segments@.len() - i,
        {
            let ghost before = crate::syntax::command_invocation::invocations_view(commands@);
            let c = self.segments[i].to_invocation();
            commands.push(c);
            proof {
                assert(crate::syntax::command_invocation::invocations_view(commands@) =~= before.push(c@));
                assert(statements_view(self.segments@).take(i + 1) =~= statements_view(
                    self.segments@,
                ).take(i as int).push(self.segments@[i as int]@));
            }
            i = i + 1;
        }
        proof {
            assert(statements_view(self.segments@).take(self.segments@.len() as int)
                =~= statements_view(self.segments@));
        }
        crate::syntax::pipeline::Pipeline { commands, is_background: self.is_background }
    }
}

impl View for Pipeline {
    type V = PipelineView;

    open spec fn view(&self) -> PipelineView {
        PipelineView { commands: statements_view(self.segments@), is_background: self.is_background }
    }
}

} // verus!
