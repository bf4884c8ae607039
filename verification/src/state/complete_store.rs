//! The completion specifications registered with `complete -C`.
use crate::text::str_eq;
use vstd::prelude::*;

verus! {

/// A program that produces completions for a command.
#[derive(Debug)]
pub struct CompletionRecord {
    pub path: String,
    pub command: String,
}

impl View for CompletionRecord {
    /// The program's path and the command it completes.
    type V = (Seq<char>, Seq<char>);

    open spec fn view(&self) -> (Seq<char>, Seq<char>) {
        (self.path@, self.command@)
    }
}

impl CompletionRecord {
    /// A copy of this record.
    pub fn copy(&self) -> (r: CompletionRecord)
        ensures
            r@ == self@,
    {
        CompletionRecord { path: self.path.clone(), command: self.command.clone() }
    }
}

/// The views of a sequence of records.
pub open spec fn records_view(records: Seq<CompletionRecord>) -> Seq<(Seq<char>, Seq<char>)> {
    records.map_values(|r: CompletionRecord| r@)
}

/// Whether a record completes a command other than `command`.
pub open spec fn for_other_command(command: Seq<char>) -> spec_fn((Seq<char>, Seq<char>)) -> bool {
    |r: (Seq<char>, Seq<char>)| r.1 != command
}

/// The records that do not complete `command`, in their order.
pub open spec fn without_command(records: Seq<(Seq<char>, Seq<char>)>, command: Seq<char>) -> Seq<
    (Seq<char>, Seq<char>),
> {
    records.filter(for_other_command(command))
}

/// The position of the first record, at or after `from`, that completes `command`.
pub open spec fn first_record_for(
    records: Seq<(Seq<char>, Seq<char>)>,
    command: Seq<char>,
    from: int,
) -> Option<int>
    decreases records.len() - from,
{
    if from < 0 || from >= records.len() {
        None
    } else if records[from].1 == command {
        Some(from)
    } else {
        first_record_for(records, command, from + 1)
    }
}

/// The registered completion specifications, oldest first.
pub struct CompleteStore {
    records: Vec<CompletionRecord>,
}

impl View for CompleteStore {
    type V = Seq<(Seq<char>, Seq<char>)>;

    closed spec fn view(&self) -> Seq<(Seq<char>, Seq<char>)> {
        records_view(self.records@)
    }
}

impl CompleteStore {
    /// A store with no records.
    pub fn new() -> (store: Self)
        ensures
            store@ == Seq::<(Seq<char>, Seq<char>)>::empty(),
    {
        let store = CompleteStore { records: Vec::new() };
        proof {
            assert(store@ =~= Seq::<(Seq<char>, Seq<char>)>::empty());
        }
        store
    }
}

/// Registers `path` as the completion program for `command`.
pub fn push(store: &mut CompleteStore, path: String, command: String)
    ensures
        final(store)@ == old(store)@.push((path@, command@)),
{
    store.records.push(CompletionRecord { path, command });
    proof {
        assert(store@ =~= old(store)@.push((path@, command@)));
    }
}

/// Forgets every record for `command`.
pub fn remove(store: &mut CompleteStore, command: String)
    ensures
        final(store)@ == without_command(old(store)@, command@),
{
    let ghost all = store@;
    let ghost keep = for_other_command(command@);
    let mut kept: Vec<CompletionRecord> = Vec::new();
    let mut i: usize = 0;
    let n = store.records.len();
    proof {
        assert(all.take(0) =~= Seq::<(Seq<char>, Seq<char>)>::empty());
        reveal(Seq::filter);
        assert(records_view(kept@) =~= all.take(0).filter(keep));
    }
    while i < n
        invariant
            n == store.records@.len(),
            all == store@,
            i <= n,
            keep == for_other_command(command@),
            records_view(kept@) == all.take(i as int).filter(keep),
        decreases n - i,
    {
        let record = &store.records[i];
        let ghost prefix = all.take(i as int);
        proof {
            assert(all.take(i + 1) =~= prefix.push(all[i as int]));
            prefix.lemma_filter_push(all[i as int], keep);
        }
        if record.command != command {
            let ghost before = records_view(kept@);
            kept.push(record.copy());
            proof {
                assert(records_view(kept@) =~= before.push(all[i as int]));
            }
        }
        i = i + 1;
    }
    proof {
        assert(all.take(n as int) =~= all);
    }
    store.records = kept;
}

/// All records, oldest first.
pub fn get_all(store: &CompleteStore) -> (records: Vec<CompletionRecord>)
    ensures
        records_view(records@) == store@,
{
    let mut copies: Vec<CompletionRecord> = Vec::new();
    let mut i: usize = 0;
    while i < store.records.len()
        invariant
            i <= store.records@.len(),
            copies@.len() == i,
            records_view(copies@) == store@.take(i as int),
        decreases store.records@.len() - i,
    {
        copies.push(store.records[i].copy());
        i = i + 1;
        proof {
            assert(records_view(copies@) =~= store@.take(i as int));
        }
    }
    proof {
        assert(store@.take(store.records@.len() as int) =~= store@);
    }
    copies
}

/// The program registered for `command` by the oldest record that completes it.
pub fn program_for(store: &CompleteStore, command: &str) -> (path: Option<String>)
    ensures
        match first_record_for(store@, command@, 0) {
            Some(k) => path matches Some(p) && p@ == store@[k].0,
            None => path is None,
        },
{
    let mut i: usize = 0;
    while i < store.records.len()
        invariant
            i <= store.records@.len(),
            first_record_for(store@, command@, i as int) == first_record_for(store@, command@, 0),
        decreases store.records@.len() - i,
    {
        proof {
            assert(store@[i as int] == store.records@[i as int]@);
        }
        if str_eq(store.records[i].command.as_str(), command) {
            return Some(store.records[i].path.clone());
        }
        i = i + 1;
    }
    None
}

/// Forgets all records.
pub fn clear(store: &mut CompleteStore)
    ensures
        final(store)@ == Seq::<(Seq<char>, Seq<char>)>::empty(),
{
    store.records = Vec::new();
    proof {
        assert(store@ =~= Seq::<(Seq<char>, Seq<char>)>::empty());
    }
}

/// Law: after `remove(command)` no record completes `command`, and every record for
/// another command is kept.
pub proof fn law_remove_drops_exactly_the_command(
    records: Seq<(Seq<char>, Seq<char>)>,
    command: Seq<char>,
)
    ensures
        forall|k: int|
            0 <= k < without_command(records, command).len() ==> (#[trigger] without_command(
                records,
                command,
            )[k]).1 != command,
        forall|k: int|
            0 <= k < records.len() && (#[trigger] records[k]).1 != command ==> without_command(
                records,
                command,
            ).contains(records[k]),
{
    let keep = for_other_command(command);
    assert forall|k: int| 0 <= k < without_command(records, command).len() implies (
    #[trigger] without_command(records, command)[k]).1 != command by {
        records.lemma_filter_pred(keep, k);
    }
    assert forall|k: int| 0 <= k < records.len() && (#[trigger] records[k]).1 != command implies without_command(
        records,
        command,
    ).contains(records[k]) by {
        records.lemma_filter_contains(keep, k);
    }
}

} // verus!
