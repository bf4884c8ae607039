//! `cd`: decides which directory to change to.
use crate::syntax::command_invocation::CommandInvocation;
use crate::text::str_eq;
use vstd::prelude::*;

verus! {

/// The directory that `cd` changes to.
#[derive(Debug)]
pub enum CdTarget {
    /// The directory named by `HOME`.
    Home,
    /// The given path.
    Path(String),
}

/// `cd` with no argument, or with `~`, goes home; otherwise to its first argument.
pub open spec fn cd_goes_home(arguments: Seq<Seq<char>>) -> bool {
    arguments.len() == 0 || arguments[0] == "~"@
}

/// The directory that `cd` changes to.
pub fn cd(command: &CommandInvocation) -> (target: CdTarget)
    ensures
        match target {
            CdTarget::Home => cd_goes_home(command@.arguments),
            CdTarget::Path(p) => !cd_goes_home(command@.arguments) && p@ == command@.arguments[0],
        },
{
    if command.arguments.len() == 0 || str_eq(command.arguments[0].as_str(), "~") {
        CdTarget::Home
    } else {
        CdTarget::Path(command.arguments[0].clone())
    }
}

} // verus!
