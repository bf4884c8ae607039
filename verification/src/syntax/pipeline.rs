//! A parsed command line: commands joined by pipes, possibly run in the background.
use crate::syntax::command_invocation::{CommandInvocation, InvocationView, invocations_view};
use vstd::prelude::*;

verus! {

/// Commands joined by `|`, run in the background when the line ends with `&`.
#[derive(Debug)]
pub struct Pipeline {
    pub commands: Vec<CommandInvocation>,
    pub is_background: bool,
}

/// The mathematical content of a [`Pipeline`].
pub struct PipelineView {
    pub commands: Seq<InvocationView>,
    pub is_background: bool,
}

impl View for Pipeline {
    type V = PipelineView;

    open spec fn view(&self) -> PipelineView {
        PipelineView { commands: invocations_view(self.commands@), is_background: self.is_background }
    }
}

} // verus!
