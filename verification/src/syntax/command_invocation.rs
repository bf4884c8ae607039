//! One command of a pipeline, with its arguments and redirections.
use crate::syntax::redirection::{Redirection, RedirectionMode, redirection_view};
use crate::text::strings_view;
use vstd::prelude::*;

verus! {

/// One command of a pipeline.
#[derive(Debug)]
pub struct CommandInvocation {
    pub name: String,
    pub arguments: Vec<String>,
    pub stdout_redirection: Option<Redirection>,
    pub stderr_redirection: Option<Redirection>,
}

/// The mathematical content of a [`CommandInvocation`].
pub struct InvocationView {
    pub name: Seq<char>,
    pub arguments: Seq<Seq<char>>,
    pub stdout_redirection: Option<(RedirectionMode, Seq<char>)>,
    pub stderr_redirection: Option<(RedirectionMode, Seq<char>)>,
}

impl View for CommandInvocation {
    type V = InvocationView;

    open spec fn view(&self) -> InvocationView {
        InvocationView {
            name: self.name@,
            arguments: strings_view(self.arguments@),
            stdout_redirection: redirection_view(self.stdout_redirection),
            stderr_redirection: redirection_view(self.stderr_redirection),
        }
    }
}

/// The views of a sequence of invocations.
pub open spec fn invocations_view(v: Seq<CommandInvocation>) -> Seq<InvocationView> {
    v.map_values(|c: CommandInvocation| c@)
}

} // verus!
