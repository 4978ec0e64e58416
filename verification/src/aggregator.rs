//! Aggregation of packet events into flows, in a table of bounded size.
use crate::flow_table;
use crate::flow_table::{
    empty_flows, flow_entries, flow_get, flow_insert, flow_len, flow_remove, flow_retain_live, FlowId,
};
use crate::health;
use crate::health::{HealthState, HealthView};
use crate::order;
use crate::order::ascending_order;
use crate::text;
use crate::text::contains_text;
use crate::time::{since, Duration};
use dashmap::DashMap;
use vstd::prelude::*;

verus! {

/// What identifies a flow: the pod that it is attributed to and the packet's
/// addresses, ports, protocol and direction.
#[derive(Debug, Hash, PartialEq, Eq)]
pub struct FlowKey {
    pub namespace: String,
    pub pod_name: String,
    pub src_ip: u32,
    pub dst_ip: u32,
    pub src_port: u16,
    pub dst_port: u16,
    pub protocol: u8,
    pub direction: u8,
}

/// The abstract value of a `FlowKey`.
pub struct FlowKeyView {
    pub namespace: Seq<char>,
    pub pod_name: Seq<char>,
    pub src_ip: u32,
    pub dst_ip: u32,
    pub src_port: u16,
    pub dst_port: u16,
    pub protocol: u8,
    pub direction: u8,
}

impl View for FlowKey {
    type V = FlowKeyView;

    open spec fn view(&self) -> FlowKeyView {
        FlowKeyView {
            namespace: self.namespace@,
            pod_name: self.pod_name@,
            src_ip: self.src_ip,
            dst_ip: self.dst_ip,
            src_port: self.src_port,
            dst_port: self.dst_port,
            protocol: self.protocol,
            direction: self.direction,
        }
    }
}

impl Clone for FlowKey {
    fn clone(&self) -> (r: Self)
        ensures
            r@ == self@,
    {
        FlowKey {
            namespace: self.namespace.clone(),
            pod_name: self.pod_name.clone(),
            src_ip: self.src_ip,
            dst_ip: self.dst_ip,
            src_port: self.src_port,
            dst_port: self.dst_port,
            protocol: self.protocol,
            direction: self.direction,
        }
    }
}

/// The figures of a flow. `first_seen` and `last_seen` are readings of the
/// agent's monotonic clock; the others come from the packets.
#[derive(Debug, Clone, Copy, PartialEq, Eq, Structural)]
pub struct FlowStats {
    pub bytes: u64,
    pub packets: u64,
    pub first_seen: Duration,
    pub last_seen: Duration,
    pub first_seen_ns: u64,
    pub last_seen_ns: u64,
}

impl FlowStats {
    /// The figures of a flow after its first packet.
    pub open spec fn first(now: Duration, timestamp_ns: u64, bytes: u16) -> FlowStats {
        FlowStats {
            bytes: bytes as u64,
            packets: 1,
            first_seen: now,
            last_seen: now,
            first_seen_ns: timestamp_ns,
            last_seen_ns: timestamp_ns,
        }
    }

    /// The figures after one more packet.
    pub open spec fn updated(self, now: Duration, timestamp_ns: u64, bytes: u16) -> FlowStats {
        FlowStats {
            bytes: (self.bytes + bytes) as u64,
            packets: (self.packets + 1) as u64,
            last_seen: now,
            last_seen_ns: timestamp_ns,
            ..self
        }
    }

    /// Whether the counters can take one more packet of this size.
    pub open spec fn has_room(self, bytes: u16) -> bool {
        self.bytes + bytes <= u64::MAX && self.packets < u64::MAX
    }

    /// The figures of a flow after its first packet.
    pub fn new(now: Duration, timestamp_ns: u64, bytes: u16) -> (r: Self)
        ensures
            r == FlowStats::first(now, timestamp_ns, bytes),
    {
        FlowStats {
            bytes: bytes as u64,
            packets: 1,
            first_seen: now,
            last_seen: now,
            first_seen_ns: timestamp_ns,
            last_seen_ns: timestamp_ns,
        }
    }

    /// Counts one more packet.
    pub fn update(&mut self, now: Duration, timestamp_ns: u64, bytes: u16)
        requires
            old(self).has_room(bytes),
        ensures
            *final(self) == old(self).updated(now, timestamp_ns, bytes),
    {
        self.bytes = self.bytes + bytes as u64;
        self.packets = self.packets + 1;
        self.last_seen = now;
        self.last_seen_ns = timestamp_ns;
    }
}

/// A packet as the kernel probe reports it.
#[derive(Debug, Clone, Copy)]
pub struct NetworkFlowEvent {
    pub src_ip: u32,
    pub dst_ip: u32,
    pub src_port: u16,
    pub dst_port: u16,
    pub protocol: u8,
    pub direction: u8,
    pub packet_len: u16,
    pub cgroup_id: u64,
    pub timestamp_ns: u64,
}

/// The flow that a packet of a pod belongs to.
pub open spec fn event_key(
    event: NetworkFlowEvent,
    namespace: Seq<char>,
    pod_name: Seq<char>,
) -> FlowKeyView {
    FlowKeyView {
        namespace,
        pod_name,
        src_ip: event.src_ip,
        dst_ip: event.dst_ip,
        src_port: event.src_port,
        dst_port: event.dst_port,
        protocol: event.protocol,
        direction: event.direction,
    }
}

/// Percentage of the table's size from which on it counts as full.
pub const CAPACITY_HIGH_WATERMARK: usize = 95;

/// Percentage of the table's size below which it no longer counts as full.
pub const CAPACITY_LOW_WATERMARK: usize = 80;

/// Percentage of the table's size that one eviction makes room for.
pub const EVICTION_PERCENT: usize = 1;

/// The abstract value of a `FlowAggregator`.
pub struct FlowView {
    pub flows: Map<FlowKeyView, FlowStats>,
    pub events_processed: u64,
    pub flow_timeout: Duration,
    pub max_flows: usize,
}

/// How many flows one eviction removes from a table that holds as many.
pub open spec fn eviction_size(max_flows: int) -> int {
    if max_flows * EVICTION_PERCENT / 100 > 1 {
        max_flows * EVICTION_PERCENT / 100
    } else {
        1
    }
}

/// Whether `after` is `before` without its `count` flows that were seen
/// longest ago, or without any flow where it has no more than `count`. Which
/// of several flows last seen at one moment leave is open.
pub open spec fn oldest_evicted(
    before: Map<FlowKeyView, FlowStats>,
    after: Map<FlowKeyView, FlowStats>,
    count: int,
) -> bool {
    &&& after.submap_of(before)
    &&& before.dom().finite()
    &&& after.dom().finite()
    &&& before.len() - after.len() == (if count < before.len() { count } else { before.len() as int })
    &&& forall|gone: FlowKeyView, kept: FlowKeyView|
        before.contains_key(gone) && !after.contains_key(gone) && after.contains_key(kept) ==> (
        #[trigger] before[gone]).last_seen.nanos <= (#[trigger] after[kept]).last_seen.nanos
}

impl FlowView {
    /// Whether the table is within its bound. A table made for no flows still
    /// takes the one that is being counted.
    pub open spec fn bounded(self) -> bool {
        &&& self.flows.dom().finite()
        &&& self.flows.len() <= (if self.max_flows > 1 { self.max_flows as int } else { 1 })
    }

    /// Whether the high watermark of the table's size, and with it the low one,
    /// can be computed.
    pub open spec fn watermarks_fit(self) -> bool {
        self.max_flows * CAPACITY_HIGH_WATERMARK <= usize::MAX
    }

    /// Whether the low watermark of the table's size can be computed.
    pub open spec fn low_watermark_fits(self) -> bool {
        self.max_flows * CAPACITY_LOW_WATERMARK <= usize::MAX
    }

    /// Whether one more packet of this flow and size can be counted.
    pub open spec fn has_room(self, key: FlowKeyView, bytes: u16) -> bool {
        self.flows.contains_key(key) ==> self.flows[key].has_room(bytes)
    }

    /// Whether `post` and `health_post` are what counting `event` at `now`
    /// makes of `self` and `health_pre`.
    pub open spec fn counts_event(
        self,
        health_pre: HealthView,
        now: Duration,
        event: NetworkFlowEvent,
        key: FlowKeyView,
        post: FlowView,
        health_post: HealthView,
    ) -> bool {
        let first = FlowStats::first(now, event.timestamp_ns, event.packet_len);
        let full = !self.flows.contains_key(key) && self.flows.len() >= self.max_flows;
        &&& post.events_processed == health::counted(self.events_processed, 1)
        &&& post.flow_timeout == self.flow_timeout
        &&& post.max_flows == self.max_flows
        &&& self.flows.contains_key(key) ==> post.flows == self.flows.insert(
            key,
            self.flows[key].updated(now, event.timestamp_ns, event.packet_len),
        )
        &&& !self.flows.contains_key(key) && !full ==> post.flows == self.flows.insert(key, first)
        &&& full ==> {
            &&& oldest_evicted(
                self.flows,
                post.flows.remove(key),
                eviction_size(self.max_flows as int),
            )
            &&& post.flows.contains_key(key)
            &&& post.flows[key] == first
        }
        &&& health_post == (HealthView {
            flow_evictions: if full {
                health::counted(
                    health_pre.flow_evictions,
                    (self.flows.len() - post.flows.remove(key).len()) as u64,
                )
            } else {
                health_pre.flow_evictions
            },
            flow_table_at_capacity: health_pre.flow_table_at_capacity || post.flows.len()
                >= self.max_flows * CAPACITY_HIGH_WATERMARK / 100,
            ..health_pre
        })
    }

    /// Whether `post` and `health_post` are what removing the flows that timed
    /// out by `now` makes of `self` and `health_pre`, with `expired` of them.
    pub open spec fn expires(
        self,
        health_pre: HealthView,
        now: Duration,
        post: FlowView,
        health_post: HealthView,
        expired: usize,
    ) -> bool {
        &&& post == (FlowView {
            flows: flow_table::live_part(self.flows, now, self.flow_timeout),
            ..self
        })
        &&& expired == self.flows.len() - post.flows.len()
        &&& health_post == (HealthView {
            flow_table_at_capacity: health_pre.flow_table_at_capacity && post.flows.len()
                >= self.max_flows * CAPACITY_LOW_WATERMARK / 100,
            ..health_pre
        })
    }
}

/// Whether a list of names is empty or holds `name`: an empty list lets
/// everything through.
pub open spec fn selects(names: Seq<Seq<char>>, name: Seq<char>) -> bool {
    names.len() == 0 || names.contains(name)
}

/// The flows of the given namespaces.
pub open spec fn in_namespaces(
    flows: Map<FlowKeyView, FlowStats>,
    namespaces: Seq<Seq<char>>,
) -> Map<FlowKeyView, FlowStats> {
    Map::new(
        |k: FlowKeyView| flows.contains_key(k) && selects(namespaces, k.namespace),
        |k: FlowKeyView| flows[k],
    )
}

/// Whether `listed` lists `flows`: each key once, with its figures. The order
/// is open.
pub open spec fn lists_flows(
    listed: Seq<(FlowKey, FlowStats)>,
    flows: Map<FlowKeyView, FlowStats>,
) -> bool {
    &&& flows.dom().finite()
    &&& listed.len() == flows.len()
    &&& forall|i: int|
        0 <= i < listed.len() ==> {
            &&& flows.contains_key((#[trigger] listed[i]).0@)
            &&& flows[listed[i].0@] == listed[i].1
        }
    &&& forall|i: int, j: int|
        0 <= i < j < listed.len() ==> (#[trigger] listed[i]).0@ != (#[trigger] listed[j]).0@
    &&& forall|k: FlowKeyView| #[trigger]
        flows.contains_key(k) ==> exists|i: int|
            0 <= i < listed.len() && (#[trigger] listed[i]).0@ == k
}

/// Tests whether a list of names lets `name` through.
pub fn is_selected(names: &[String], name: &str) -> (r: bool)
    ensures
        r == selects(text::texts(names@), name@),
{
    names.len() == 0 || contains_text(names, name)
}

/// The flows, keyed by what identifies them, with the bound on their number.
pub struct FlowAggregator {
    flows: DashMap<FlowId, FlowStats>,
    events_processed: u64,
    flow_timeout: Duration,
    max_flows: usize,
    started: std::time::Instant,
}

impl View for FlowAggregator {
    type V = FlowView;

    closed spec fn view(&self) -> FlowView {
        FlowView {
            flows: flow_table::flow_contents(self.flows),
            events_processed: self.events_processed,
            flow_timeout: self.flow_timeout,
            max_flows: self.max_flows,
        }
    }
}

/// The identifier of the flow that a packet of a pod belongs to.
fn event_id(event: &NetworkFlowEvent, namespace: &str, pod_name: &str) -> (id: FlowId)
    ensures
        flow_table::id_view(id) == event_key(*event, namespace@, pod_name@),
{
    (
        namespace.to_owned(),
        pod_name.to_owned(),
        event.src_ip,
        event.dst_ip,
        event.src_port,
        event.dst_port,
        event.protocol,
        event.direction,
    )
}

/// The flow key that an identifier stands for.
fn key_of(id: &FlowId) -> (key: FlowKey)
    ensures
        key@ == flow_table::id_view(*id),
{
    FlowKey {
        namespace: id.0.clone(),
        pod_name: id.1.clone(),
        src_ip: id.2,
        dst_ip: id.3,
        src_port: id.4,
        dst_port: id.5,
        protocol: id.6,
        direction: id.7,
    }
}

impl FlowAggregator {
    /// An empty table for `max_flows` flows, each of which times out when it
    /// was not seen for `flow_timeout`.
    pub fn new(max_flows: usize, flow_timeout: Duration) -> (r: Self)
        ensures
            r@ == (FlowView { flows: Map::empty(), events_processed: 0, flow_timeout, max_flows }),
            r@.bounded(),
    {
        FlowAggregator {
            flows: empty_flows(),
            events_processed: 0,
            flow_timeout,
            max_flows,
            started: std::time::Instant::now(),
        }
    }

    /// Whether one more packet can be counted: its flow's counters and the
    /// watermarks stay within their types.
    pub fn can_count_event(
        &self,
        event: &NetworkFlowEvent,
        namespace: &str,
        pod_name: &str,
    ) -> (r: bool)
        ensures
            r == (self@.watermarks_fit() && self@.has_room(
                event_key(*event, namespace@, pod_name@),
                event.packet_len,
            )),
    {
        let id: FlowId = event_id(event, namespace, pod_name);
        let fits: bool = self.max_flows <= usize::MAX / CAPACITY_HIGH_WATERMARK;
        match flow_get(&self.flows, &id) {
            Some(stats) => fits && stats.bytes <= u64::MAX - event.packet_len as u64
                && stats.packets < u64::MAX,
            None => fits,
        }
    }

    /// Counts a packet of a pod, seen at the moment of the call.
    pub fn process_event(
        &mut self,
        health: &mut HealthState,
        event: &NetworkFlowEvent,
        namespace: &str,
        pod_name: &str,
    )
        requires
            old(self)@.watermarks_fit(),
            old(self)@.has_room(event_key(*event, namespace@, pod_name@), event.packet_len),
        ensures
            exists|now: Duration|
                #[trigger] old(self)@.counts_event(
                    old(health)@,
                    now,
                    *event,
                    event_key(*event, namespace@, pod_name@),
                    final(self)@,
                    final(health)@,
                ),
            old(self)@.bounded() ==> final(self)@.bounded(),
    {
        let now: Duration = since(&self.started);
        self.process_event_at(health, now, event, namespace, pod_name);
    }

    /// Counts a packet of a pod, seen at `now`. A packet of a known flow adds
    /// to its figures. One of a new flow starts them, and where the table is
    /// full the flows seen longest ago make room first.
    pub fn process_event_at(
        &mut self,
        health: &mut HealthState,
        now: Duration,
        event: &NetworkFlowEvent,
        namespace: &str,
        pod_name: &str,
    )
        requires
            old(self)@.watermarks_fit(),
            old(self)@.has_room(event_key(*event, namespace@, pod_name@), event.packet_len),
        ensures
            old(self)@.counts_event(
                old(health)@,
                now,
                *event,
                event_key(*event, namespace@, pod_name@),
                final(self)@,
                final(health)@,
            ),
            old(self)@.bounded() ==> final(self)@.bounded(),
    {
        self.events_processed = self.events_processed.wrapping_add(1);

        let id: FlowId = event_id(event, namespace, pod_name);
        let ghost key = event_key(*event, namespace@, pod_name@);
        let ghost pre = old(self)@;

        if let Some(known) = flow_get(&self.flows, &id) {
            let mut stats: FlowStats = known;
            stats.update(now, event.timestamp_ns, event.packet_len);
            flow_insert(&mut self.flows, id, stats);
            self.update_capacity_flag(health);
            assert(pre.flows.dom().insert(key) =~= pre.flows.dom());
            return ;
        }
        if flow_len(&self.flows) >= self.max_flows {
            self.evict_oldest_flows(health);
        }
        let ghost mid = self@.flows;
        flow_insert(
            &mut self.flows,
            id,
            FlowStats::new(now, event.timestamp_ns, event.packet_len),
        );
        self.update_capacity_flag(health);
        proof {
            assert(self@.flows.remove(key) =~= mid);
        }
    }

    /// Removes the flows seen longest ago, one part in a hundred of the
    /// table's size but at least one.
    fn evict_oldest_flows(&mut self, health: &mut HealthState)
        ensures
            oldest_evicted(
                old(self)@.flows,
                final(self)@.flows,
                eviction_size(old(self)@.max_flows as int),
            ),
            final(self)@ == (FlowView { flows: final(self)@.flows, ..old(self)@ }),
            final(health)@ == (HealthView {
                flow_evictions: health::counted(
                    old(health)@.flow_evictions,
                    (old(self)@.flows.len() - final(self)@.flows.len()) as u64,
                ),
                ..old(health)@
            }),
    {
        let share: usize = self.max_flows * EVICTION_PERCENT / 100;
        let evict_count: usize = if share > 1 {
            share
        } else {
            1
        };
        let ghost pre = self@.flows;

        let candidates: Vec<(FlowId, FlowStats)> = flow_entries(&self.flows);
        let mut ages: Vec<u128> = Vec::new();
        while ages.len() < candidates.len()
            invariant
                ages.len() <= candidates.len(),
                forall|k: int|
                    0 <= k < ages.len() ==> #[trigger] ages[k] == candidates[k].1.last_seen.nanos,
            decreases candidates.len() - ages.len(),
        {
            ages.push(candidates[ages.len()].1.last_seen.nanos);
        }
        let oldest_first: Vec<usize> = ascending_order(&ages);

        let mut evicted: u64 = 0;
        let mut i: usize = 0;
        while i < evict_count && i < oldest_first.len()
            invariant
                flow_table::lists(candidates@, pre),
                ages.len() == candidates.len(),
                forall|k: int|
                    0 <= k < ages.len() ==> #[trigger] ages[k] == candidates[k].1.last_seen.nanos,
                order::covers(oldest_first@, 0, ages.len() as int),
                order::in_order(ages@, oldest_first@),
                i <= oldest_first.len(),
                i <= evict_count,
                evicted == i,
                self@ == (FlowView { flows: self@.flows, ..old(self)@ }),
                self@.flows.dom().finite(),
                self@.flows.len() == pre.len() - i,
                self@.flows.submap_of(pre),
                forall|k: int|
                    0 <= k < oldest_first.len() ==> (self@.flows.contains_key(
                        flow_table::id_view(candidates[#[trigger] oldest_first[k] as int].0),
                    ) <==> i <= k),
            decreases oldest_first.len() - i,
        {
            let position: usize = oldest_first[i];
            let id: &FlowId = &candidates[position].0;
            let ghost key = flow_table::id_view(*id);
            let ghost before = self@.flows;
            assert(before.contains_key(key));
            if flow_remove(&mut self.flows, id).is_some() {
                evicted = evicted + 1;
            }
            i += 1;
            assert(self@.flows == before.remove(key));
            assert forall|k: int| 0 <= k < oldest_first.len() implies (self@.flows.contains_key(
                flow_table::id_view(candidates[#[trigger] oldest_first[k] as int].0),
            ) <==> i <= k) by {
                let other = oldest_first[k] as int;
                if k < i - 1 {
                    assert(order::comes_before(ages@, oldest_first[k] as int, oldest_first[i - 1] as int));
                    assert(other != position as int);
                } else if k > i - 1 {
                    assert(order::comes_before(ages@, oldest_first[i - 1] as int, oldest_first[k] as int));
                    assert(other != position as int);
                }
                if other != position as int {
                    assert(flow_table::id_view(candidates[other].0) != key);
                }
            }
        }
        proof {
            let post = self@.flows;
            assert forall|gone: FlowKeyView, kept: FlowKeyView|
                pre.contains_key(gone) && !post.contains_key(gone) && post.contains_key(
                    kept,
                ) implies (#[trigger] pre[gone]).last_seen.nanos <= (
            #[trigger] post[kept]).last_seen.nanos by {
                assert(pre.contains_key(kept));
                let g = choose|g: int|
                    0 <= g < candidates.len() && flow_table::id_view(
                        (#[trigger] candidates@[g]).0,
                    ) == gone;
                let s = choose|s: int|
                    0 <= s < candidates.len() && flow_table::id_view(
                        (#[trigger] candidates@[s]).0,
                    ) == kept;
                assert(oldest_first@.contains(g as usize));
                assert(oldest_first@.contains(s as usize));
                let gi = choose|gi: int| 0 <= gi < oldest_first.len() && oldest_first@[gi] == g;
                let si = choose|si: int| 0 <= si < oldest_first.len() && oldest_first@[si] == s;
                assert(post.contains_key(
                    flow_table::id_view(candidates[oldest_first[gi] as int].0),
                ) <==> i <= gi);
                assert(post.contains_key(
                    flow_table::id_view(candidates[oldest_first[si] as int].0),
                ) <==> i <= si);
                assert(gi < si);
                assert(order::comes_before(ages@, oldest_first[gi] as int, oldest_first[si] as int));
            }
        }
        if evicted > 0 {
            health.inc_flow_evictions(evicted);
        }
    }

    /// Marks the table as full where it has reached the high watermark.
    fn update_capacity_flag(&self, health: &mut HealthState)
        requires
            self@.watermarks_fit(),
        ensures
            self@.flows.dom().finite(),
            final(health)@ == (HealthView {
                flow_table_at_capacity: old(health)@.flow_table_at_capacity || self@.flows.len()
                    >= self@.max_flows * CAPACITY_HIGH_WATERMARK / 100,
                ..old(health)@
            }),
    {
        let len: usize = flow_len(&self.flows);
        let high: usize = self.max_flows * CAPACITY_HIGH_WATERMARK / 100;
        if len >= high {
            health.set_flow_table_at_capacity(true);
        }
    }

    /// The flows of the given namespaces, or all flows where none is given, in
    /// no particular order.
    pub fn get_flows(&self, namespaces: &[String]) -> (r: Vec<(FlowKey, FlowStats)>)
        ensures
            lists_flows(r@, in_namespaces(self@.flows, text::texts(namespaces@))),
    {
        let entries: Vec<(FlowId, FlowStats)> = flow_entries(&self.flows);
        let ghost flows = self@.flows;
        let ghost names = text::texts(namespaces@);
        let mut r: Vec<(FlowKey, FlowStats)> = Vec::new();
        let ghost mut taken: Map<FlowKeyView, FlowStats> = Map::empty();
        let mut i: usize = 0;
        while i < entries.len()
            invariant
                flow_table::lists(entries@, flows),
                names == text::texts(namespaces@),
                i <= entries.len(),
                lists_flows(r@, taken),
                forall|k: FlowKeyView| #[trigger]
                    taken.contains_key(k) ==> flows.contains_key(k) && selects(names, k.namespace)
                        && taken[k] == flows[k],
                forall|k: FlowKeyView| #[trigger]
                    taken.contains_key(k) ==> exists|n: int|
                        0 <= n < i && flow_table::id_view((#[trigger] entries[n]).0) == k,
                forall|n: int|
                    0 <= n < i && selects(
                        names,
                        flow_table::id_view((#[trigger] entries[n]).0).namespace,
                    ) ==> taken.contains_key(flow_table::id_view(entries[n].0)),
            decreases entries.len() - i,
        {
            let id: &FlowId = &entries[i].0;
            let ghost key = flow_table::id_view(*id);
            assert(flows.contains_key(key));
            if is_selected(namespaces, id.0.as_str()) {
                let ghost before = taken;
                let ghost listed = r@;
                assert(!before.contains_key(key)) by {
                    if before.contains_key(key) {
                        let n = choose|n: int|
                            0 <= n < i && flow_table::id_view((#[trigger] entries[n]).0) == key;
                        assert(flow_table::id_view(entries[n].0) != flow_table::id_view(
                            entries[i as int].0,
                        ));
                    }
                }
                r.push((key_of(id), entries[i].1));
                proof {
                    taken = before.insert(key, entries[i as int].1);
                    assert(r@[listed.len() as int].0@ == key);
                    assert forall|k: FlowKeyView| #[trigger]
                        taken.contains_key(k) implies exists|n: int|
                        0 <= n < r.len() && (#[trigger] r@[n]).0@ == k by {
                        if k == key {
                            assert(r@[listed.len() as int].0@ == k);
                        } else {
                            let n = choose|n: int|
                                0 <= n < listed.len() && (#[trigger] listed[n]).0@ == k;
                            assert(r@[n].0@ == k);
                        }
                    }
                }
            }
            i += 1;
        }
        assert(taken =~= in_namespaces(flows, names)) by {
            assert forall|k: FlowKeyView| in_namespaces(flows, names).contains_key(k) implies
                taken.contains_key(k) by {
                let n = choose|n: int|
                    0 <= n < entries.len() && flow_table::id_view((#[trigger] entries@[n]).0) == k;
                assert(flow_table::id_view(entries[n].0) == k);
            }
        }
        r
    }

    /// How many flows the table holds.
    pub fn active_flow_count(&self) -> (r: usize)
        ensures
            flow_table::counts(r, self@.flows),
    {
        flow_len(&self.flows)
    }

    /// How many packets were counted.
    pub fn events_processed(&self) -> (r: u64)
        ensures
            r == self@.events_processed,
    {
        self.events_processed
    }

    /// How many flows the table is made for.
    pub fn max_flows(&self) -> (r: usize)
        ensures
            r == self@.max_flows,
    {
        self.max_flows
    }

    /// Removes the flows that have timed out at the moment of the call, and
    /// returns how many they were.
    pub fn expire_old_flows(&mut self, health: &mut HealthState) -> (r: usize)
        requires
            old(self)@.low_watermark_fits(),
        ensures
            exists|now: Duration|
                #[trigger] old(self)@.expires(old(health)@, now, final(self)@, final(health)@, r),
            old(self)@.bounded() ==> final(self)@.bounded(),
    {
        let now: Duration = since(&self.started);
        self.expire_old_flows_at(health, now)
    }

    /// Removes the flows that have timed out by `now`, and returns how many
    /// they were. The table no longer counts as full where it has fallen below
    /// the low watermark.
    pub fn expire_old_flows_at(&mut self, health: &mut HealthState, now: Duration) -> (r: usize)
        requires
            old(self)@.low_watermark_fits(),
        ensures
            old(self)@.expires(old(health)@, now, final(self)@, final(health)@, r),
            old(self)@.bounded() ==> final(self)@.bounded(),
    {
        let before: usize = flow_len(&self.flows);
        flow_retain_live(&mut self.flows, now, self.flow_timeout);
        let len: usize = flow_len(&self.flows);
        proof {
            vstd::set_lib::lemma_len_subset(self@.flows.dom(), old(self)@.flows.dom());
        }
        let expired: usize = before - len;

        let low: usize = self.max_flows * CAPACITY_LOW_WATERMARK / 100;
        if len < low {
            health.set_flow_table_at_capacity(false);
        }
        expired
    }
}

/// The bytes counted for a flow; none for a flow that is not in the table.
pub open spec fn bytes_of(flows: Map<FlowKeyView, FlowStats>, key: FlowKeyView) -> int {
    if flows.contains_key(key) {
        flows[key].bytes as int
    } else {
        0
    }
}

/// The packets counted for a flow; none for a flow that is not in the table.
pub open spec fn packets_of(flows: Map<FlowKeyView, FlowStats>, key: FlowKeyView) -> int {
    if flows.contains_key(key) {
        flows[key].packets as int
    } else {
        0
    }
}

impl FlowView {
    /// Whether no flow counts more packets than were processed, nor more bytes
    /// than its packets can have held.
    pub open spec fn accounted(self) -> bool {
        forall|k: FlowKeyView| #[trigger]
            self.flows.contains_key(k) ==> {
                &&& self.flows[k].packets <= self.events_processed
                &&& self.flows[k].bytes <= self.flows[k].packets * 0xffff
            }
    }
}

/// Every packet is counted in its own flow: the flow is in the table
/// afterwards, with the packet's bytes and one packet more than before.
pub proof fn law_event_is_counted_in_its_flow(
    pre: FlowView,
    health_pre: HealthView,
    now: Duration,
    event: NetworkFlowEvent,
    key: FlowKeyView,
    post: FlowView,
    health_post: HealthView,
)
    requires
        pre.has_room(key, event.packet_len),
        pre.counts_event(health_pre, now, event, key, post, health_post),
    ensures
        post.flows.contains_key(key),
        bytes_of(post.flows, key) == bytes_of(pre.flows, key) + event.packet_len,
        packets_of(post.flows, key) == packets_of(pre.flows, key) + 1,
        post.flows[key].last_seen == now,
        pre.flows.contains_key(key) ==> post.flows[key].first_seen == pre.flows[key].first_seen,
{
}

/// Counting a packet changes no other flow. It can only remove other flows,
/// and only where a new flow comes to a full table.
pub proof fn law_other_flows_keep_their_figures(
    pre: FlowView,
    health_pre: HealthView,
    now: Duration,
    event: NetworkFlowEvent,
    key: FlowKeyView,
    post: FlowView,
    health_post: HealthView,
    other: FlowKeyView,
)
    requires
        pre.counts_event(health_pre, now, event, key, post, health_post),
        other != key,
    ensures
        post.flows.contains_key(other) ==> pre.flows.contains_key(other) && post.flows[other]
            == pre.flows[other],
        pre.flows.contains_key(key) || pre.flows.len() < pre.max_flows ==> (
        post.flows.contains_key(other) <==> pre.flows.contains_key(other)),
{
    if !pre.flows.contains_key(key) && pre.flows.len() >= pre.max_flows {
        if post.flows.contains_key(other) {
            assert(post.flows.remove(key).contains_key(other));
            assert(post.flows.remove(key)[other] == post.flows[other]);
        }
    }
}

/// A flow that leaves a full table was seen no later than any that stays.
pub proof fn law_oldest_flows_leave_first(
    pre: FlowView,
    health_pre: HealthView,
    now: Duration,
    event: NetworkFlowEvent,
    key: FlowKeyView,
    post: FlowView,
    health_post: HealthView,
    gone: FlowKeyView,
    kept: FlowKeyView,
)
    requires
        pre.counts_event(health_pre, now, event, key, post, health_post),
        pre.flows.contains_key(gone),
        !post.flows.contains_key(gone),
        post.flows.contains_key(kept),
        kept != key,
    ensures
        pre.flows[gone].last_seen.nanos <= pre.flows[kept].last_seen.nanos,
{
    if !pre.flows.contains_key(key) && pre.flows.len() >= pre.max_flows {
        let mid = post.flows.remove(key);
        assert(!mid.contains_key(gone));
        assert(oldest_evicted(pre.flows, mid, eviction_size(pre.max_flows as int)));
        assert(mid.dom().contains(kept));
        assert(pre.flows.dom().contains(kept));
        assert(pre.flows[gone].last_seen.nanos <= mid[kept].last_seen.nanos);
    }
}

/// Between the two watermarks the table keeps its mark: counting packets never
/// takes the mark of a full table away, and expiry never sets it.
pub proof fn law_capacity_mark_has_two_watermarks(
    pre: FlowView,
    health_pre: HealthView,
    now: Duration,
    event: NetworkFlowEvent,
    key: FlowKeyView,
    post: FlowView,
    health_post: HealthView,
    expired: usize,
)
    ensures
        pre.counts_event(health_pre, now, event, key, post, health_post)
            && health_pre.flow_table_at_capacity ==> health_post.flow_table_at_capacity,
        pre.expires(health_pre, now, post, health_post, expired)
            && !health_pre.flow_table_at_capacity ==> !health_post.flow_table_at_capacity,
{
}

/// Expiry leaves exactly the flows seen within the timeout, unchanged; a second
/// expiry at the same moment removes nothing.
pub proof fn law_expiry_is_complete(
    pre: FlowView,
    health_pre: HealthView,
    now: Duration,
    post: FlowView,
    health_post: HealthView,
    expired: usize,
    again: FlowView,
    health_again: HealthView,
    expired_again: usize,
    key: FlowKeyView,
)
    requires
        pre.expires(health_pre, now, post, health_post, expired),
        post.expires(health_post, now, again, health_again, expired_again),
    ensures
        post.flows.contains_key(key) <==> pre.flows.contains_key(key)
            && pre.flows[key].last_seen.nanos + pre.flow_timeout.nanos > now.nanos,
        post.flows.contains_key(key) ==> post.flows[key] == pre.flows[key],
        again.flows == post.flows,
        expired_again == 0,
{
    assert(again.flows =~= post.flows);
}

/// Packets of two pods never fall into one flow, nor do packets that differ in
/// an address, a port, the protocol or the direction.
pub proof fn law_flows_are_kept_apart(
    event: NetworkFlowEvent,
    namespace: Seq<char>,
    pod_name: Seq<char>,
    other: NetworkFlowEvent,
    other_namespace: Seq<char>,
    other_pod_name: Seq<char>,
)
    requires
        event_key(event, namespace, pod_name) == event_key(other, other_namespace, other_pod_name),
    ensures
        namespace == other_namespace,
        pod_name == other_pod_name,
        event.src_ip == other.src_ip,
        event.dst_ip == other.dst_ip,
        event.src_port == other.src_port,
        event.dst_port == other.dst_port,
        event.protocol == other.protocol,
        event.direction == other.direction,
{
}

/// The books balance: a new table is accounted for, and counting and expiry
/// keep it so for as long as the number of processed packets fits its type.
pub proof fn law_accounting_is_kept(
    pre: FlowView,
    health_pre: HealthView,
    now: Duration,
    event: NetworkFlowEvent,
    key: FlowKeyView,
    post: FlowView,
    health_post: HealthView,
    expired: usize,
)
    ensures
        pre.flows == Map::<FlowKeyView, FlowStats>::empty() ==> pre.accounted(),
        pre.accounted() && pre.events_processed < u64::MAX && pre.has_room(key, event.packet_len)
            && pre.counts_event(health_pre, now, event, key, post, health_post)
            ==> post.accounted(),
        pre.accounted() && pre.expires(health_pre, now, post, health_post, expired)
            ==> post.accounted(),
{
    if pre.accounted() && pre.events_processed < u64::MAX && pre.has_room(key, event.packet_len)
        && pre.counts_event(health_pre, now, event, key, post, health_post) {
        assert forall|k: FlowKeyView| #[trigger] post.flows.contains_key(k) implies {
            &&& post.flows[k].packets <= post.events_processed
            &&& post.flows[k].bytes <= post.flows[k].packets * 0xffff
        } by {
            if k != key {
                law_other_flows_keep_their_figures(
                    pre,
                    health_pre,
                    now,
                    event,
                    key,
                    post,
                    health_post,
                    k,
                );
                assert(pre.flows.contains_key(k));
            } else if pre.flows.contains_key(key) {
                assert(pre.flows[key].packets <= pre.events_processed);
            }
        }
    }
}

/// A table that is accounted for has room for any packet until some 281
/// trillion packets were processed: no counter can be near its end.
pub proof fn law_accounted_table_has_room(view: FlowView, key: FlowKeyView, bytes: u16)
    requires
        view.accounted(),
        view.events_processed < 0x1_0001_0001_0001,
    ensures
        view.has_room(key, bytes),
{
    if view.flows.contains_key(key) {
        let p = view.flows[key].packets as int;
        assert(p * 0xffff <= 0x1_0001_0001_0000 * 0xffff) by (nonlinear_arith)
            requires
                0 <= p <= 0x1_0001_0001_0000,
        ;
    }
}

impl Default for FlowAggregator {
    fn default() -> (r: Self)
        ensures
            r@ == (FlowView {
                flows: Map::empty(),
                events_processed: 0,
                flow_timeout: Duration { nanos: 30_000_000_000 },
                max_flows: 100_000,
            }),
    {
        FlowAggregator::new(100_000, Duration::from_secs(30))
    }
}

/// The figures of a flow that has just been counted: the packet's time is the
/// last one, its bytes and itself are added, and the beginning stays. A flow
/// that was not there begins with the packet.
pub proof fn law_figures_follow_the_packet(
    pre: FlowView,
    health_pre: HealthView,
    now: Duration,
    event: NetworkFlowEvent,
    key: FlowKeyView,
    post: FlowView,
    health_post: HealthView,
)
    requires
        pre.flows.contains_key(key) ==> pre.flows[key].bytes + event.packet_len <= u64::MAX
            && pre.flows[key].packets < u64::MAX,
        pre.counts_event(health_pre, now, event, key, post, health_post),
    ensures
        post.flows.contains_key(key),
        post.flows[key].last_seen_ns == event.timestamp_ns,
        post.flows[key].last_seen.nanos == now.nanos,
        pre.flows.contains_key(key) ==> {
            &&& post.flows[key].first_seen_ns == pre.flows[key].first_seen_ns
            &&& post.flows[key].first_seen.nanos == pre.flows[key].first_seen.nanos
            &&& post.flows[key].bytes == pre.flows[key].bytes + event.packet_len
            &&& post.flows[key].packets == pre.flows[key].packets + 1
        },
        !pre.flows.contains_key(key) ==> {
            &&& post.flows[key].first_seen_ns == event.timestamp_ns
            &&& post.flows[key].first_seen.nanos == now.nanos
            &&& post.flows[key].bytes == event.packet_len
            &&& post.flows[key].packets == 1
        },
{
}

/// The figures of a flow after one packet and after one packet more.
pub proof fn law_update_moves_the_end_and_keeps_the_beginning(
    stats: FlowStats,
    now: Duration,
    timestamp_ns: u64,
    bytes: u16,
)
    ensures
        stats.has_room(bytes) <==> stats.bytes + bytes < 0x1_0000_0000_0000_0000 && stats.packets + 1
            < 0x1_0000_0000_0000_0000,
        stats.has_room(bytes) ==> {
            let next = stats.updated(now, timestamp_ns, bytes);
            &&& next.last_seen_ns == timestamp_ns
            &&& next.last_seen.nanos == now.nanos
            &&& next.first_seen_ns == stats.first_seen_ns
            &&& next.first_seen.nanos == stats.first_seen.nanos
            &&& next.bytes - stats.bytes == bytes
            &&& next.packets - stats.packets == 1
        },
        FlowStats::first(now, timestamp_ns, bytes).first_seen_ns == timestamp_ns,
        FlowStats::first(now, timestamp_ns, bytes).last_seen_ns == timestamp_ns,
        FlowStats::first(now, timestamp_ns, bytes).first_seen.nanos == now.nanos,
        FlowStats::first(now, timestamp_ns, bytes).last_seen.nanos == now.nanos,
        FlowStats::first(now, timestamp_ns, bytes).bytes == bytes,
        FlowStats::first(now, timestamp_ns, bytes).packets == 1,
{
}

/// The bytes of some packets.
pub open spec fn total_bytes(events: Seq<NetworkFlowEvent>) -> int
    decreases events.len(),
{
    if events.len() == 0 {
        0
    } else {
        total_bytes(events.drop_last()) + events.last().packet_len
    }
}

/// A flow that began with the first of some packets, and that no eviction or
/// expiry touched, tells of all of them: their bytes, their number, the time of
/// the first and the time of the last.
pub proof fn law_flow_tells_of_all_its_packets(
    states: Seq<FlowView>,
    healths: Seq<HealthView>,
    times: Seq<Duration>,
    events: Seq<NetworkFlowEvent>,
    key: FlowKeyView,
)
    requires
        events.len() > 0,
        events.len() < 0x1_0000_0000_0000,
        times.len() == events.len(),
        states.len() == events.len() + 1,
        healths.len() == events.len() + 1,
        !states[0].flows.contains_key(key),
        forall|i: int|
            0 <= i < events.len() ==> (#[trigger] states[i]).counts_event(
                healths[i],
                times[i],
                events[i],
                key,
                states[i + 1],
                healths[i + 1],
            ),
    ensures
        states.last().flows.contains_key(key),
        states.last().flows[key].bytes == total_bytes(events),
        states.last().flows[key].packets == events.len(),
        states.last().flows[key].first_seen_ns == events[0].timestamp_ns,
        states.last().flows[key].last_seen_ns == events.last().timestamp_ns,
        states.last().flows[key].first_seen.nanos == times[0].nanos,
        states.last().flows[key].last_seen.nanos == times.last().nanos,
        total_bytes(events) <= events.len() * 0xffff,
    decreases events.len(),
{
    let n = events.len() - 1;
    assert(states[n].counts_event(
        healths[n],
        times[n],
        events[n],
        key,
        states[n + 1],
        healths[n + 1],
    ));
    if n > 0 {
        let earlier = states.drop_last();
        assert forall|i: int| 0 <= i < n implies (#[trigger] earlier[i]).counts_event(
            healths.drop_last()[i],
            times.drop_last()[i],
            events.drop_last()[i],
            key,
            earlier[i + 1],
            healths.drop_last()[i + 1],
        ) by {
            assert(states[i].counts_event(
                healths[i],
                times[i],
                events[i],
                key,
                states[i + 1],
                healths[i + 1],
            ));
        }
        law_flow_tells_of_all_its_packets(
            earlier,
            healths.drop_last(),
            times.drop_last(),
            events.drop_last(),
            key,
        );
    } else {
        assert(total_bytes(events.drop_last()) == 0);
    }
    law_figures_follow_the_packet(
        states[n],
        healths[n],
        times[n],
        events[n],
        key,
        states[n + 1],
        healths[n + 1],
    );
}

/// How many flows leave: none as long as the packet's flow is known or the
/// table has room; else one in a hundred of the table's size, but at least one,
/// and never more than there are. So many are added to the evictions.
pub proof fn law_evictions_are_counted(
    pre: FlowView,
    health_pre: HealthView,
    now: Duration,
    event: NetworkFlowEvent,
    key: FlowKeyView,
    post: FlowView,
    health_post: HealthView,
)
    requires
        pre.flows.dom().finite(),
        pre.counts_event(health_pre, now, event, key, post, health_post),
    ensures
        post.flows.dom().finite(),
        pre.flows.contains_key(key) ==> post.flows.len() == pre.flows.len(),
        pre.flows.contains_key(key) || pre.flows.len() < pre.max_flows
            ==> health_post.flow_evictions == health_pre.flow_evictions,
        !pre.flows.contains_key(key) && pre.flows.len() < pre.max_flows ==> post.flows.len()
            == pre.flows.len() + 1,
        !pre.flows.contains_key(key) && pre.flows.len() >= pre.max_flows ==> {
            let leave = pre.flows.len() + 1 - post.flows.len();
            &&& health_pre.flow_evictions + leave < 0x1_0000_0000_0000_0000
                ==> health_post.flow_evictions == health_pre.flow_evictions + leave
            &&& leave <= pre.flows.len()
            &&& pre.max_flows < 200 && pre.flows.len() > 0 ==> leave == 1
            &&& pre.max_flows >= 200 ==> 100 * leave <= pre.max_flows < 100 * (leave + 1)
        },
        pre.events_processed < u64::MAX ==> post.events_processed == pre.events_processed + 1,
        pre.events_processed == u64::MAX ==> post.events_processed == 0,
        post.max_flows == pre.max_flows,
        post.flow_timeout.nanos == pre.flow_timeout.nanos,
{
    if pre.flows.contains_key(key) {
        assert(pre.flows.dom().insert(key) =~= pre.flows.dom());
    } else if pre.flows.len() >= pre.max_flows {
        let mid = post.flows.remove(key);
        assert(post.flows.dom() =~= mid.dom().insert(key));
        assert(!mid.dom().contains(key));
    }
}

/// The table never grows beyond its size; one made for no flows holds one.
pub proof fn law_table_stays_within_its_size(
    pre: FlowView,
    health_pre: HealthView,
    now: Duration,
    event: NetworkFlowEvent,
    key: FlowKeyView,
    post: FlowView,
    health_post: HealthView,
)
    requires
        pre.bounded(),
        pre.counts_event(health_pre, now, event, key, post, health_post),
    ensures
        pre.flows.len() <= pre.max_flows || (pre.max_flows == 0 && pre.flows.len() == 1),
        post.flows.len() <= pre.max_flows || (pre.max_flows == 0 && post.flows.len() == 1),
        post.bounded(),
{
    law_evictions_are_counted(pre, health_pre, now, event, key, post, health_post);
}

/// A packet sets the mark of a full table exactly where the flows reach 95
/// hundredths of its size, rounded down, and changes nothing else of the
/// agent's condition but the evictions.
pub proof fn law_packets_set_the_mark(
    pre: FlowView,
    health_pre: HealthView,
    now: Duration,
    event: NetworkFlowEvent,
    key: FlowKeyView,
    post: FlowView,
    health_post: HealthView,
)
    requires
        pre.counts_event(health_pre, now, event, key, post, health_post),
    ensures
        health_post.flow_table_at_capacity <==> health_pre.flow_table_at_capacity || 100 * (
        post.flows.len() + 1) > pre.max_flows * 95,
        health_post.probes_attached == health_pre.probes_attached,
        health_post.k8s_watcher_connected == health_pre.k8s_watcher_connected,
        health_post.pod_cache_at_capacity == health_pre.pod_cache_at_capacity,
        health_post.broadcast_drops == health_pre.broadcast_drops,
        health_post.pod_cache_evictions == health_pre.pod_cache_evictions,
{
}

/// Expiry takes the mark of a full table away exactly where the flows left are
/// fewer than 80 hundredths of its size, rounded down. It returns how many
/// flows went and changes nothing else.
pub proof fn law_expiry_clears_the_mark(
    pre: FlowView,
    health_pre: HealthView,
    now: Duration,
    post: FlowView,
    health_post: HealthView,
    expired: usize,
)
    requires
        pre.expires(health_pre, now, post, health_post, expired),
    ensures
        expired + post.flows.len() == pre.flows.len(),
        health_post.flow_table_at_capacity <==> health_pre.flow_table_at_capacity && 100 * (
        post.flows.len() + 1) > pre.max_flows * 80,
        health_post.probes_attached == health_pre.probes_attached,
        health_post.k8s_watcher_connected == health_pre.k8s_watcher_connected,
        health_post.pod_cache_at_capacity == health_pre.pod_cache_at_capacity,
        health_post.broadcast_drops == health_pre.broadcast_drops,
        health_post.flow_evictions == health_pre.flow_evictions,
        health_post.pod_cache_evictions == health_pre.pod_cache_evictions,
        post.events_processed == pre.events_processed,
        post.max_flows == pre.max_flows,
        post.flow_timeout.nanos == pre.flow_timeout.nanos,
{
}

/// Watermarks are out of reach only for tables beyond the range of the
/// machine's numbers.
pub proof fn law_ordinary_tables_have_watermarks(view: FlowView)
    ensures
        view.watermarks_fit() <==> view.max_flows * 95 <= usize::MAX,
        view.low_watermark_fits() <==> view.max_flows * 80 <= usize::MAX,
{
}

/// The key of a flow is made of the pod and of what the packet carries.
pub proof fn law_key_holds_the_packet(
    event: NetworkFlowEvent,
    namespace: Seq<char>,
    pod_name: Seq<char>,
)
    ensures
        event_key(event, namespace, pod_name).namespace == namespace,
        event_key(event, namespace, pod_name).pod_name == pod_name,
        event_key(event, namespace, pod_name).src_ip == event.src_ip,
        event_key(event, namespace, pod_name).dst_ip == event.dst_ip,
        event_key(event, namespace, pod_name).src_port == event.src_port,
        event_key(event, namespace, pod_name).dst_port == event.dst_port,
        event_key(event, namespace, pod_name).protocol == event.protocol,
        event_key(event, namespace, pod_name).direction == event.direction,
{
}

/// A list of names lets through what it holds, character by character, and
/// nothing else; an empty one lets everything through.
pub proof fn law_filter_is_membership(names: Seq<Seq<char>>, name: Seq<char>)
    ensures
        names.len() == 0 ==> selects(names, name),
        names.len() > 0 && selects(names, name) ==> exists|i: int|
            0 <= i < names.len() && #[trigger] names[i] == name,
        forall|i: int| 0 <= i < names.len() && #[trigger] names[i] == name ==> selects(names, name),
{
}

/// A listing for some namespaces names each of their flows once, with its
/// figures, and no flow of another namespace; one for none names all flows.
pub proof fn law_listing_is_of_the_namespaces(
    listed: Seq<(FlowKey, FlowStats)>,
    flows: Map<FlowKeyView, FlowStats>,
    namespaces: Seq<Seq<char>>,
)
    requires
        lists_flows(listed, in_namespaces(flows, namespaces)),
    ensures
        forall|i: int|
            0 <= i < listed.len() ==> {
                &&& flows.dom().contains((#[trigger] listed[i]).0@)
                &&& flows[listed[i].0@] == listed[i].1
                &&& namespaces.len() == 0 || namespaces.contains(listed[i].0@.namespace)
            },
        forall|i: int, j: int|
            0 <= i < listed.len() && 0 <= j < listed.len() && i != j ==> (#[trigger] listed[i]).0@
                != (#[trigger] listed[j]).0@,
        forall|k: FlowKeyView| #[trigger]
            flows.dom().contains(k) && (namespaces.len() == 0 || namespaces.contains(k.namespace))
                ==> exists|i: int| 0 <= i < listed.len() && (#[trigger] listed[i]).0@ == k,
{
    let part = in_namespaces(flows, namespaces);
    assert forall|i: int| 0 <= i < listed.len() implies {
        &&& flows.dom().contains((#[trigger] listed[i]).0@)
        &&& flows[listed[i].0@] == listed[i].1
        &&& namespaces.len() == 0 || namespaces.contains(listed[i].0@.namespace)
    } by {
        assert(part.contains_key(listed[i].0@));
    }
    assert forall|k: FlowKeyView| #[trigger]
        flows.dom().contains(k) && (namespaces.len() == 0 || namespaces.contains(
            k.namespace,
        )) implies exists|i: int| 0 <= i < listed.len() && (#[trigger] listed[i]).0@ == k by {
        assert(part.contains_key(k));
    }
    assert forall|i: int, j: int|
        0 <= i < listed.len() && 0 <= j < listed.len() && i != j implies (#[trigger] listed[i]).0@
        != (#[trigger] listed[j]).0@ by {
        if j < i {
            assert(listed[j].0@ != listed[i].0@);
        }
    }
}

} // verus!
