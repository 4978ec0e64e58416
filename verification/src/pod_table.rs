//! The concurrent hash map that holds pods, seen by its one owner.
use crate::pod_cache::{is_other_pod, PodMetadata, PodView};
use dashmap::DashMap;
use vstd::prelude::*;

verus! {

/// What a table of pods holds.
pub uninterp spec fn pod_contents(table: DashMap<u64, PodMetadata>) -> Map<u64, PodView>;

/// The contents of an empty table.
pub open spec fn no_pods() -> Map<u64, PodView> {
    Map::empty()
}

/// Whether `contents` has exactly `n` entries.
pub open spec fn counts(n: usize, contents: Map<u64, PodView>) -> bool {
    contents.dom().finite() && contents.len() == n
}

/// Whether `found` is what `contents` has under `key`.
pub open spec fn finds(found: Option<PodMetadata>, contents: Map<u64, PodView>, key: u64) -> bool {
    match found {
        Some(pod) => contents.contains_key(key) && contents[key] == pod@,
        None => !contents.contains_key(key),
    }
}

/// Whether `entries` lists `contents`: each key once, with its value. The
/// order is open.
pub open spec fn lists(entries: Seq<(u64, PodMetadata)>, contents: Map<u64, PodView>) -> bool {
    &&& contents.dom().finite()
    &&& entries.len() == contents.len()
    &&& forall|i: int|
        0 <= i < entries.len() ==> {
            &&& contents.contains_key((#[trigger] entries[i]).0)
            &&& contents[entries[i].0] == entries[i].1@
        }
    &&& forall|i: int, j: int|
        0 <= i < j < entries.len() ==> (#[trigger] entries[i]).0 != (#[trigger] entries[j]).0
    &&& forall|k: u64| #[trigger]
        contents.contains_key(k) ==> exists|i: int|
            0 <= i < entries.len() && (#[trigger] entries[i]).0 == k
}

/// The entries of `contents` that do not belong to the pod `uid`.
pub open spec fn without_pod(contents: Map<u64, PodView>, uid: Seq<char>) -> Map<u64, PodView> {
    Map::new(
        |k: u64| contents.contains_key(k) && contents[k].pod_uid != uid,
        |k: u64| contents[k],
    )
}

/// Calls `DashMap::new`, which makes an empty map.
#[verifier::external_body]
pub(crate) fn empty_pods() -> (r: DashMap<u64, PodMetadata>)
    ensures
        pod_contents(r) == no_pods(),
{
    DashMap::new()
}

/// Calls `DashMap::len`, which counts the entries.
#[verifier::external_body]
pub(crate) fn pod_len(table: &DashMap<u64, PodMetadata>) -> (n: usize)
    ensures
        counts(n, pod_contents(*table)),
{
    table.len()
}

/// Calls `DashMap::is_empty`, which tells whether the map has no entry.
#[verifier::external_body]
pub(crate) fn pod_is_empty(table: &DashMap<u64, PodMetadata>) -> (r: bool)
    ensures
        r == (pod_contents(*table) == no_pods()),
{
    table.is_empty()
}

/// Calls `DashMap::contains_key`, which tells whether a key has an entry.
#[verifier::external_body]
pub(crate) fn pod_contains(table: &DashMap<u64, PodMetadata>, key: u64) -> (r: bool)
    ensures
        r == pod_contents(*table).contains_key(key),
{
    table.contains_key(&key)
}

/// Calls `DashMap::get`, which finds the value under a key, and clones it.
#[verifier::external_body]
pub(crate) fn pod_get(table: &DashMap<u64, PodMetadata>, key: u64) -> (r: Option<PodMetadata>)
    ensures
        finds(r, pod_contents(*table), key),
{
    table.get(&key).map(|entry| entry.value().clone())
}

/// Calls `DashMap::insert`, which puts a value under a key and returns the one
/// that was there.
#[verifier::external_body]
pub(crate) fn pod_insert(table: &mut DashMap<u64, PodMetadata>, key: u64, pod: PodMetadata) -> (r:
    Option<PodMetadata>)
    ensures
        pod_contents(*final(table)) == pod_contents(*old(table)).insert(key, pod@),
        finds(r, pod_contents(*old(table)), key),
{
    table.insert(key, pod)
}

/// Calls `DashMap::remove`, which takes the entry of a key out and returns its
/// value.
#[verifier::external_body]
pub(crate) fn pod_remove(table: &mut DashMap<u64, PodMetadata>, key: u64) -> (r: Option<
    PodMetadata,
>)
    ensures
        pod_contents(*final(table)) == pod_contents(*old(table)).remove(key),
        finds(r, pod_contents(*old(table)), key),
{
    table.remove(&key).map(|entry| entry.1)
}

/// Calls `DashMap::retain`, which keeps the entries that a test holds of; here
/// the test is `is_other_pod`.
#[verifier::external_body]
pub(crate) fn pod_retain_others(table: &mut DashMap<u64, PodMetadata>, uid: &str)
    ensures
        pod_contents(*final(table)) == without_pod(pod_contents(*old(table)), uid@),
{
    table.retain(|_, pod| is_other_pod(pod, uid))
}

/// Calls `DashMap::iter`, which walks all entries in no particular order, and
/// clones each of them.
#[verifier::external_body]
pub(crate) fn pod_entries(table: &DashMap<u64, PodMetadata>) -> (r: Vec<(u64, PodMetadata)>)
    ensures
        lists(r@, pod_contents(*table)),
{
    table.iter().map(|entry| (*entry.key(), entry.value().clone())).collect()
}

/// What is found under a key is what stands there, and nothing is found exactly
/// where nothing stands.
pub proof fn law_lookup_finds_what_is_there(
    found: Option<PodMetadata>,
    contents: Map<u64, PodView>,
    key: u64,
)
    requires
        finds(found, contents, key),
    ensures
        found is Some <==> contents.dom().contains(key),
        found matches Some(pod) ==> pod@ == contents[key],
{
}

/// A listing names every key once, with what stands under it, and no other.
pub proof fn law_listing_is_complete(
    entries: Seq<(u64, PodMetadata)>,
    contents: Map<u64, PodView>,
    key: u64,
)
    requires
        lists(entries, contents),
    ensures
        contents.dom().contains(key) <==> exists|i: int|
            0 <= i < entries.len() && (#[trigger] entries[i]).0 == key,
        forall|i: int|
            0 <= i < entries.len() ==> (#[trigger] entries[i]).1@ == contents[entries[i].0],
        forall|i: int, j: int|
            0 <= i < entries.len() && 0 <= j < entries.len() && (#[trigger] entries[i]).0 == (
            #[trigger] entries[j]).0 ==> i == j,
{
    assert forall|i: int, j: int|
        0 <= i < entries.len() && 0 <= j < entries.len() && (#[trigger] entries[i]).0 == (
        #[trigger] entries[j]).0 implies i == j by {
        if i < j {
            assert(entries[i].0 != entries[j].0);
        } else if j < i {
            assert(entries[j].0 != entries[i].0);
        }
    }
}

/// A count is the number of keys, and nothing is counted where there is none.
pub proof fn law_count_is_of_the_keys(n: usize, contents: Map<u64, PodView>)
    requires
        counts(n, contents),
    ensures
        n == contents.dom().len(),
        n == 0 <==> contents == no_pods(),
        no_pods().dom() == Set::<u64>::empty(),
{
    if n == 0 {
        assert(contents.dom().len() == 0);
        assert(contents =~= no_pods());
    }
    assert(no_pods().dom() =~= Set::<u64>::empty());
}

} // verus!
