//! The values of declared shell variables.
use vstd::hash_map::StringHashMap;
use vstd::prelude::*;

verus! {

/// The values of declared shell variables, by name.
pub struct DeclareStore {
    values: StringHashMap<String>,
}

impl View for DeclareStore {
    type V = Map<Seq<char>, Seq<char>>;

    closed spec fn view(&self) -> Map<Seq<char>, Seq<char>> {
        self.values@.map_values(|v: String| v@)
    }
}

impl DeclareStore {
    /// A store with no variables.
    pub fn new() -> (store: Self)
        ensures
            store@ == Map::<Seq<char>, Seq<char>>::empty(),
    {
        let store = DeclareStore { values: StringHashMap::new() };
        proof {
            assert(store@ =~= Map::<Seq<char>, Seq<char>>::empty());
        }
        store
    }
}

/// The value of `variable`, if it was declared.
pub fn get(store: &DeclareStore, variable: &str) -> (value: Option<String>)
    ensures
        match value {
            Some(v) => store@.contains_key(variable@) && v@ == store@[variable@],
            None => !store@.contains_key(variable@),
        },
{
    match store.values.get(variable) {
        Some(v) => Some(v.clone()),
        None => None,
    }
}

/// Declares `variable` with `value`, replacing any earlier value.
pub fn add(store: &mut DeclareStore, variable: String, value: String)
    ensures
        final(store)@ == old(store)@.insert(variable@, value@),
{
    let ghost key = variable@;
    let ghost v = value@;
    store.values.insert(variable, value);
    proof {
        assert(store@ =~= old(store)@.insert(key, v));
    }
}

/// Forgets `variable`.
pub fn remove(store: &mut DeclareStore, variable: String)
    ensures
        final(store)@ == old(store)@.remove(variable@),
{
    store.values.remove(variable.as_str());
    proof {
        assert(store@ =~= old(store)@.remove(variable@));
    }
}

/// Forgets all variables.
pub fn clear(store: &mut DeclareStore)
    ensures
        final(store)@ == Map::<Seq<char>, Seq<char>>::empty(),
{
    store.values.clear();
    proof {
        assert(store@ =~= Map::<Seq<char>, Seq<char>>::empty());
    }
}

/// Law: after `add(name, value)`, `get(name)` gives `value`, and every other variable keeps
/// its value.
pub proof fn law_get_reads_back_add(
    before: Map<Seq<char>, Seq<char>>,
    variable: Seq<char>,
    value: Seq<char>,
    other: Seq<char>,
)
    ensures
        before.insert(variable, value).contains_key(variable),
        before.insert(variable, value)[variable] == value,
        other != variable ==> (before.insert(variable, value).contains_key(other)
            == before.contains_key(other) && (before.contains_key(other) ==> before.insert(
            variable,
            value,
        )[other] == before[other])),
{
}

/// Law: after `remove(name)`, `get(name)` finds nothing, and every other variable keeps its
/// value.
pub proof fn law_removed_variable_is_gone(
    before: Map<Seq<char>, Seq<char>>,
    variable: Seq<char>,
    other: Seq<char>,
)
    ensures
        !before.remove(variable).contains_key(variable),
        other != variable ==> (before.remove(variable).contains_key(other) == before.contains_key(
            other,
        ) && (before.contains_key(other) ==> before.remove(variable)[other] == before[other])),
{
}

} // verus!
