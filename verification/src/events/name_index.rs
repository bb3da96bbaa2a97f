//! The index from event names to registry slots, kept in a `DashMap`.

use vstd::prelude::*;
use dashmap::DashMap;

verus! {

/// The concurrent hash map of the `dashmap` crate. The library looks into it
/// only through the functions of this file.
#[verifier::external_type_specification]
#[verifier::external_body]
#[verifier::reject_recursive_types(K)]
#[verifier::reject_recursive_types(V)]
#[verifier::reject_recursive_types(S)]
pub struct ExDashMap<K, V, S>(DashMap<K, V, S>);

/// The entries of an index: the slot of each name it holds.
pub uninterp spec fn index_entries(index: DashMap<String, usize>) -> Map<Seq<char>, usize>;

/// Calls `DashMap::new`: a map without entries.
#[verifier::external_body]
pub(crate) fn index_new() -> (index: DashMap<String, usize>)
    ensures
        forall|name: Seq<char>| !index_entries(index).dom().contains(name),
{
    DashMap::new()
}

/// Calls `DashMap::get` and copies the value out of the guard it returns:
/// the slot stored under `name`, if there is one.
#[verifier::external_body]
pub(crate) fn index_get(index: &DashMap<String, usize>, name: &str) -> (slot: Option<usize>)
    ensures
        slot == if index_entries(*index).dom().contains(name@) {
            Some(index_entries(*index)[name@])
        } else {
            None
        },
{
    index.get(name).map(|entry| *entry)
}

/// Calls `DashMap::insert`: afterwards `name` is stored with `slot`, and
/// every other entry is as before.
#[verifier::external_body]
pub(crate) fn index_insert(index: &mut DashMap<String, usize>, name: &str, slot: usize)
    ensures
        index_entries(*final(index)) == index_entries(*old(index)).insert(name@, slot),
{
    index.insert(name.to_string(), slot);
}

/// Calls `DashMap::remove`: afterwards nothing is stored under `name`, and
/// every other entry is as before.
#[verifier::external_body]
pub(crate) fn index_remove(index: &mut DashMap<String, usize>, name: &str)
    ensures
        index_entries(*final(index)) == index_entries(*old(index)).remove(name@),
{
    index.remove(name);
}

/// Calls `DashMap::iter` and copies each entry out: every entry of the
/// index exactly once, in no particular order.
#[verifier::external_body]
pub(crate) fn index_list(index: &DashMap<String, usize>) -> (list: Vec<(String, usize)>)
    ensures
        forall|j: int|
            0 <= j < list@.len() ==> index_entries(*index).dom().contains(
                (#[trigger] list@[j]).0@,
            ) && index_entries(*index)[list@[j].0@] == list@[j].1,
        forall|name: Seq<char>|
            index_entries(*index).dom().contains(name) ==> exists|j: int|
                0 <= j < list@.len() && (#[trigger] list@[j]).0@ == name,
        forall|i: int, j: int|
            0 <= i < j < list@.len() ==> (#[trigger] list@[i]).0@ != (#[trigger] list@[j]).0@,
{
    index.iter().map(|entry| (entry.key().clone(), *entry.value())).collect()
}

} // verus!
