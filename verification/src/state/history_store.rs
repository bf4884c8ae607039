//! The command lines entered in this session, oldest first.
use crate::text::{copy_strings, strings_view};
use vstd::prelude::*;

verus! {

/// The command lines entered in this session, oldest first.
pub struct HistoryStore {
    entries: Vec<String>,
}

impl View for HistoryStore {
    type V = Seq<Seq<char>>;

    closed spec fn view(&self) -> Seq<Seq<char>> {
        strings_view(self.entries@)
    }
}

impl HistoryStore {
    /// An empty history.
    pub fn new() -> (store: Self)
        ensures
            store@ == Seq::<Seq<char>>::empty(),
    {
        let store = HistoryStore { entries: Vec::new() };
        proof {
            assert(store@ =~= Seq::<Seq<char>>::empty());
        }
        store
    }

    /// The number of entries.
    pub fn len(&self) -> (n: usize)
        ensures
            n == self@.len(),
    {
        self.entries.len()
    }
}

/// Appends an entry to the history.
pub fn push(store: &mut HistoryStore, entry: String)
    ensures
        final(store)@ == old(store)@.push(entry@),
{
    store.entries.push(entry);
    proof {
        assert(strings_view(store.entries@) =~= strings_view(old(store).entries@).push(entry@));
    }
}

/// All entries, oldest first.
pub fn get_all(store: &HistoryStore) -> (entries: Vec<String>)
    ensures
        strings_view(entries@) == store@,
{
    copy_strings(&store.entries)
}

} // verus!
