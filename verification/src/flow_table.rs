//! The concurrent hash map that holds the flows, seen by its one owner.
use crate::aggregator::{FlowKeyView, FlowStats};
use crate::time::Duration;
use dashmap::DashMap;
use vstd::prelude::*;

verus! {

/// `dashmap::DashMap`: a hash map in shards behind locks.
#[verifier::external_type_specification]
#[verifier::external_body]
#[verifier::reject_recursive_types(K)]
#[verifier::reject_recursive_types(V)]
#[verifier::reject_recursive_types(S)]
pub struct ExDashMap<K, V, S>(dashmap::DashMap<K, V, S>);

/// A flow key as the table stores it: namespace, pod name, source and
/// destination address, source and destination port, protocol, direction.
pub type FlowId = (String, String, u32, u32, u16, u16, u8, u8);

/// The flow key that an identifier stands for.
pub open spec fn id_view(id: FlowId) -> FlowKeyView {
    FlowKeyView {
        namespace: id.0@,
        pod_name: id.1@,
        src_ip: id.2,
        dst_ip: id.3,
        src_port: id.4,
        dst_port: id.5,
        protocol: id.6,
        direction: id.7,
    }
}

/// What a flow table holds.
pub uninterp spec fn flow_contents(table: DashMap<FlowId, FlowStats>) -> Map<FlowKeyView, FlowStats>;

/// The contents of an empty table.
pub open spec fn no_flows() -> Map<FlowKeyView, FlowStats> {
    Map::empty()
}

/// Whether `contents` has exactly `n` entries.
pub open spec fn counts(n: usize, contents: Map<FlowKeyView, FlowStats>) -> bool {
    contents.dom().finite() && contents.len() == n
}

/// The value of `key` in `contents`, if it is there.
pub open spec fn lookup(contents: Map<FlowKeyView, FlowStats>, key: FlowKeyView) -> Option<FlowStats> {
    if contents.contains_key(key) {
        Some(contents[key])
    } else {
        None
    }
}

/// Whether `entries` lists `contents`: each key once, with its value.
pub open spec fn lists(
    entries: Seq<(FlowId, FlowStats)>,
    contents: Map<FlowKeyView, FlowStats>,
) -> bool {
    &&& contents.dom().finite()
    &&& entries.len() == contents.len()
    &&& forall|i: int|
        0 <= i < entries.len() ==> {
            &&& contents.contains_key(id_view((#[trigger] entries[i]).0))
            &&& contents[id_view(entries[i].0)] == entries[i].1
        }
    &&& forall|i: int, j: int|
        0 <= i < j < entries.len() ==> id_view((#[trigger] entries[i]).0) != id_view(
            (#[trigger] entries[j]).0,
        )
    &&& forall|k: FlowKeyView| #[trigger]
        contents.contains_key(k) ==> exists|i: int|
            0 <= i < entries.len() && id_view((#[trigger] entries[i]).0) == k
}

/// Whether a flow with these figures was seen less than `timeout` before `now`.
pub open spec fn is_live(stats: FlowStats, now: Duration, timeout: Duration) -> bool {
    stats.last_seen.nanos + timeout.nanos > now.nanos
}

/// The entries of `contents` that were seen less than `timeout` before `now`.
pub open spec fn live_part(
    contents: Map<FlowKeyView, FlowStats>,
    now: Duration,
    timeout: Duration,
) -> Map<FlowKeyView, FlowStats> {
    Map::new(
        |k: FlowKeyView| contents.contains_key(k) && is_live(contents[k], now, timeout),
        |k: FlowKeyView| contents[k],
    )
}

/// Tests whether a flow was seen less than `timeout` before `now`.
pub fn seen_recently(stats: &FlowStats, now: Duration, timeout: Duration) -> (r: bool)
    ensures
        r == is_live(*stats, now, timeout),
{
    if stats.last_seen.nanos > now.nanos {
        true
    } else {
        now.nanos - stats.last_seen.nanos < timeout.nanos
    }
}

/// Calls `DashMap::new`, which makes an empty map.
#[verifier::external_body]
pub(crate) fn empty_flows() -> (r: DashMap<FlowId, FlowStats>)
    ensures
        flow_contents(r) == no_flows(),
{
    DashMap::new()
}

/// Calls `DashMap::len`, which counts the entries.
#[verifier::external_body]
pub(crate) fn flow_len(table: &DashMap<FlowId, FlowStats>) -> (n: usize)
    ensures
        counts(n, flow_contents(*table)),
{
    table.len()
}

/// Calls `DashMap::get`, which finds the value under a key, and copies it out.
#[verifier::external_body]
pub(crate) fn flow_get(table: &DashMap<FlowId, FlowStats>, id: &FlowId) -> (r: Option<FlowStats>)
    ensures
        r == lookup(flow_contents(*table), id_view(*id)),
{
    table.get(id).map(|entry| *entry.value())
}

/// Calls `DashMap::insert`, which puts a value under a key and returns the one
/// that was there.
#[verifier::external_body]
pub(crate) fn flow_insert(
    table: &mut DashMap<FlowId, FlowStats>,
    id: FlowId,
    stats: FlowStats,
) -> (r: Option<FlowStats>)
    ensures
        flow_contents(*final(table)) == flow_contents(*old(table)).insert(id_view(id), stats),
        r == lookup(flow_contents(*old(table)), id_view(id)),
{
    table.insert(id, stats)
}

/// Calls `DashMap::remove`, which takes the entry of a key out and returns its
/// value.
#[verifier::external_body]
pub(crate) fn flow_remove(table: &mut DashMap<FlowId, FlowStats>, id: &FlowId) -> (r: Option<
    FlowStats,
>)
    ensures
        flow_contents(*final(table)) == flow_contents(*old(table)).remove(id_view(*id)),
        r == lookup(flow_contents(*old(table)), id_view(*id)),
{
    table.remove(id).map(|entry| entry.1)
}

/// Calls `DashMap::iter`, which walks all entries in no particular order, and
/// copies each of them out.
#[verifier::external_body]
pub(crate) fn flow_entries(table: &DashMap<FlowId, FlowStats>) -> (r: Vec<(FlowId, FlowStats)>)
    ensures
        lists(r@, flow_contents(*table)),
{
    table.iter().map(|entry| (entry.key().clone(), *entry.value())).collect()
}

/// Calls `DashMap::retain`, which keeps the entries that a test holds of; here
/// the test is `seen_recently`.
#[verifier::external_body]
pub(crate) fn flow_retain_live(
    table: &mut DashMap<FlowId, FlowStats>,
    now: Duration,
    timeout: Duration,
)
    ensures
        flow_contents(*final(table)) == live_part(flow_contents(*old(table)), now, timeout),
{
    table.retain(|_, stats| seen_recently(stats, now, timeout))
}

} // verus!
