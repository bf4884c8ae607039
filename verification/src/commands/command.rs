//! A command as the older statement form holds it: its name and its arguments.
use crate::text::strings_view;
use vstd::prelude::*;

verus! {

/// A command name with its arguments.
#[derive(Debug)]
pub struct Command {
    pub command: String,
    pub arguments: Vec<String>,
}

impl View for Command {
    /// The name and the arguments.
    type V = (Seq<char>, Seq<Seq<char>>);

    open spec fn view(&self) -> (Seq<char>, Seq<Seq<char>>) {
        (self.command@, strings_view(self.arguments@))
    }
}

} // verus!
