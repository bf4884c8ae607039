//! The state that built-in commands read and change.
use crate::state::complete_store::CompleteStore;
use crate::state::declare_store::DeclareStore;
use crate::state::history_store::HistoryStore;
use vstd::prelude::*;

verus! {

/// The history, declared variables and completion specifications of a shell session.
pub struct ShellState {
    pub history: HistoryStore,
    pub declarations: DeclareStore,
    pub completions: CompleteStore,
}

impl ShellState {
    /// The state of a new session: all stores empty.
    pub fn new() -> (state: Self)
        ensures
            state.history@ == Seq::<Seq<char>>::empty(),
            state.declarations@ == Map::<Seq<char>, Seq<char>>::empty(),
            state.completions@ == Seq::<(Seq<char>, Seq<char>)>::empty(),
    {
        ShellState {
            history: HistoryStore::new(),
            declarations: DeclareStore::new(),
            completions: CompleteStore::new(),
        }
    }
}

} // verus!
