//! The answers of the agent's query service.
use crate::aggregator;
use crate::aggregator::{is_selected, FlowAggregator, FlowKey, FlowKeyView, FlowStats, NetworkFlowEvent};
use crate::health::HealthState;
use crate::order;
use crate::order::ascending_order;
use crate::pod_cache::PodCache;
use crate::text;
use crate::text::push_decimal;
use vstd::prelude::*;

verus! {

/// A question for flows.
#[derive(Debug)]
pub struct QueryFlowsRequest {
    pub namespaces: Vec<String>,
    pub pod_names: Vec<String>,
    pub limit: u32,
}

/// A flow as it is reported.
#[derive(Debug)]
pub struct NetworkFlow {
    pub namespace: String,
    pub pod_name: String,
    pub src_ip: String,
    pub dst_ip: String,
    pub src_port: u32,
    pub dst_port: u32,
    pub protocol: String,
    pub direction: String,
    pub bytes: u64,
    pub packets: u64,
    pub first_seen_ns: i64,
    pub last_seen_ns: i64,
}

/// A packet as it is reported.
#[derive(Debug)]
pub struct NetworkEvent {
    pub namespace: String,
    pub pod_name: String,
    pub src_ip: String,
    pub dst_ip: String,
    pub src_port: u32,
    pub dst_port: u32,
    pub protocol: String,
    pub direction: String,
    pub bytes: u32,
    pub timestamp_ns: i64,
}

/// The state of the agent as it is reported.
#[derive(Debug)]
pub struct AgentStatus {
    pub node_name: String,
    pub version: String,
    pub healthy: bool,
    pub health_message: String,
    pub events_processed: u64,
    pub events_dropped: u64,
    pub pods_tracked: u32,
    pub active_flows: u32,
    pub uptime_seconds: i64,
}

/// The texts that addresses, protocol and direction of a packet are shown as.
#[derive(Debug)]
pub struct FlowLabels {
    pub src_ip: String,
    pub dst_ip: String,
    pub protocol: String,
    pub direction: String,
}

/// How many flows an answer may hold: as many as were asked for, but the
/// agent's own limit where that is exceeded or nothing was asked for.
pub open spec fn answer_limit(asked: u32, max_query_limit: usize) -> int {
    if asked == 0 || asked > max_query_limit {
        max_query_limit as int
    } else {
        asked as int
    }
}

/// The flows of the given namespaces and pods; an empty list lets all through.
pub open spec fn matching_flows(
    flows: Map<FlowKeyView, FlowStats>,
    namespaces: Seq<Seq<char>>,
    pod_names: Seq<Seq<char>>,
) -> Map<FlowKeyView, FlowStats> {
    Map::new(
        |k: FlowKeyView|
            flows.contains_key(k) && aggregator::selects(namespaces, k.namespace)
                && aggregator::selects(pod_names, k.pod_name),
        |k: FlowKeyView| flows[k],
    )
}

/// Whether a listing names a flow.
pub open spec fn names_flow(listed: Seq<(FlowKey, FlowStats)>, key: FlowKeyView) -> bool {
    exists|i: int| 0 <= i < listed.len() && (#[trigger] listed[i]).0@ == key
}

/// Whether `top` holds the largest of `flows` by bytes, at most `limit` of
/// them, the largest first. The order among flows of one size is open, and so
/// is which of them fall behind the limit.
pub open spec fn is_top(
    top: Seq<(FlowKey, FlowStats)>,
    flows: Map<FlowKeyView, FlowStats>,
    limit: int,
) -> bool {
    &&& flows.dom().finite()
    &&& top.len() == (if limit < flows.len() { limit } else { flows.len() as int })
    &&& forall|i: int|
        0 <= i < top.len() ==> {
            &&& flows.contains_key((#[trigger] top[i]).0@)
            &&& flows[top[i].0@] == top[i].1
        }
    &&& forall|i: int, j: int|
        0 <= i < j < top.len() ==> {
            &&& (#[trigger] top[i]).0@ != (#[trigger] top[j]).0@
            &&& top[i].1.bytes >= top[j].1.bytes
        }
    &&& forall|k: FlowKeyView, i: int|
        flows.contains_key(k) && !names_flow(top, k) && 0 <= i < top.len() ==> (
        #[trigger] flows[k]).bytes <= (#[trigger] top[i]).1.bytes
}

/// Keeps the listed flows of the given pods.
fn of_pods(
    listed: &Vec<(FlowKey, FlowStats)>,
    pod_names: &[String],
    flows: Ghost<Map<FlowKeyView, FlowStats>>,
    namespaces: Ghost<Seq<Seq<char>>>,
) -> (r: Vec<(FlowKey, FlowStats)>)
    requires
        aggregator::lists_flows(listed@, aggregator::in_namespaces(flows@, namespaces@)),
    ensures
        aggregator::lists_flows(
            r@,
            matching_flows(flows@, namespaces@, text::texts(pod_names@)),
        ),
{
    let ghost all = aggregator::in_namespaces(flows@, namespaces@);
    let ghost names = text::texts(pod_names@);
    let mut r: Vec<(FlowKey, FlowStats)> = Vec::new();
    let ghost mut taken: Map<FlowKeyView, FlowStats> = Map::empty();
    let mut i: usize = 0;
    while i < listed.len()
        invariant
            aggregator::lists_flows(listed@, all),
            names == text::texts(pod_names@),
            i <= listed.len(),
            aggregator::lists_flows(r@, taken),
            forall|k: FlowKeyView| #[trigger]
                taken.contains_key(k) ==> all.contains_key(k) && aggregator::selects(
                    names,
                    k.pod_name,
                ) && taken[k] == all[k],
            forall|k: FlowKeyView| #[trigger]
                taken.contains_key(k) ==> exists|n: int|
                    0 <= n < i && (#[trigger] listed[n]).0@ == k,
            forall|n: int|
                0 <= n < i && aggregator::selects(names, (#[trigger] listed[n]).0@.pod_name)
                    ==> taken.contains_key(listed[n].0@),
        decreases listed.len() - i,
    {
        let ghost key = listed[i as int].0@;
        assert(all.contains_key(key));
        if is_selected(pod_names, listed[i].0.pod_name.as_str()) {
            let ghost before = taken;
            let ghost earlier = r@;
            assert(!before.contains_key(key)) by {
                if before.contains_key(key) {
                    let n = choose|n: int| 0 <= n < i && (#[trigger] listed[n]).0@ == key;
                    assert(listed[n].0@ != listed[i as int].0@);
                }
            }
            r.push((listed[i].0.clone(), listed[i].1));
            proof {
                taken = before.insert(key, listed[i as int].1);
                assert(r@[earlier.len() as int].0@ == key);
                assert forall|k: FlowKeyView| #[trigger]
                    taken.contains_key(k) implies exists|n: int|
                    0 <= n < r.len() && (#[trigger] r@[n]).0@ == k by {
                    if k == key {
                        assert(r@[earlier.len() as int].0@ == k);
                    } else {
                        let n = choose|n: int|
                            0 <= n < earlier.len() && (#[trigger] earlier[n]).0@ == k;
                        assert(r@[n].0@ == k);
                    }
                }
            }
        }
        i += 1;
    }
    assert(taken =~= matching_flows(flows@, namespaces@, names)) by {
        assert forall|k: FlowKeyView|
            matching_flows(flows@, namespaces@, names).contains_key(k) implies taken.contains_key(
            k,
        ) by {
            assert(all.contains_key(k));
            let n = choose|n: int| 0 <= n < listed.len() && (#[trigger] listed@[n]).0@ == k;
            assert(listed[n].0@ == k);
        }
    }
    r
}

/// The largest of the listed flows by bytes, at most `limit` of them.
fn largest(
    listed: &Vec<(FlowKey, FlowStats)>,
    limit: usize,
    flows: Ghost<Map<FlowKeyView, FlowStats>>,
) -> (r: Vec<(FlowKey, FlowStats)>)
    requires
        aggregator::lists_flows(listed@, flows@),
    ensures
        is_top(r@, flows@, limit as int),
{
    let mut keys: Vec<u128> = Vec::new();
    while keys.len() < listed.len()
        invariant
            keys.len() <= listed.len(),
            forall|k: int|
                0 <= k < keys.len() ==> #[trigger] keys[k] == u64::MAX - listed[k].1.bytes,
        decreases listed.len() - keys.len(),
    {
        keys.push((u64::MAX - listed[keys.len()].1.bytes) as u128);
    }
    let largest_first: Vec<usize> = ascending_order(&keys);
    let mut r: Vec<(FlowKey, FlowStats)> = Vec::new();
    while r.len() < limit && r.len() < largest_first.len()
        invariant
            order::covers(largest_first@, 0, listed.len() as int),
            r.len() <= limit,
            r.len() <= largest_first.len(),
            forall|k: int|
                0 <= k < r.len() ==> {
                    &&& (#[trigger] r[k]).0@ == listed[largest_first[k] as int].0@
                    &&& r[k].1 == listed[largest_first[k] as int].1
                },
        decreases largest_first.len() - r.len(),
    {
        let position: usize = largest_first[r.len()];
        r.push((listed[position].0.clone(), listed[position].1));
    }
    proof {
        assert forall|i: int, j: int| 0 <= i < j < r.len() implies {
            &&& (#[trigger] r[i]).0@ != (#[trigger] r[j]).0@
            &&& r[i].1.bytes >= r[j].1.bytes
        } by {
            let a = largest_first[i] as int;
            let b = largest_first[j] as int;
            assert(order::comes_before(keys@, largest_first[i] as int, largest_first[j] as int));
            assert(keys[a] <= keys[b]);
            if a < b {
                assert(listed[a].0@ != listed[b].0@);
            } else {
                assert(listed[b].0@ != listed[a].0@);
            }
        }
        assert forall|k: FlowKeyView, i: int|
            flows@.contains_key(k) && !names_flow(r@, k) && 0 <= i < r.len() implies (
        #[trigger] flows@[k]).bytes <= (#[trigger] r[i]).1.bytes by {
            let n = choose|n: int| 0 <= n < listed.len() && (#[trigger] listed@[n]).0@ == k;
            assert(largest_first@.contains(n as usize));
            let p = choose|p: int| 0 <= p < largest_first.len() && largest_first@[p] == n;
            if p < r.len() {
                assert(r@[p].0@ == k);
                assert(names_flow(r@, k));
            }
            assert(order::comes_before(keys@, largest_first[i] as int, largest_first[p] as int));
            assert(keys[largest_first[i] as int] <= keys[n]);
        }
    }
    r
}

/// Answers a question for flows: the largest that match it, by bytes.
pub fn query_flows(
    aggregator: &FlowAggregator,
    request: &QueryFlowsRequest,
    max_query_limit: usize,
) -> (r: Vec<(FlowKey, FlowStats)>)
    ensures
        is_top(
            r@,
            matching_flows(
                aggregator@.flows,
                text::texts(request.namespaces@),
                text::texts(request.pod_names@),
            ),
            answer_limit(request.limit, max_query_limit),
        ),
{
    let limit: usize = if request.limit == 0 || request.limit as u64 > max_query_limit as u64 {
        max_query_limit
    } else {
        request.limit as usize
    };
    let listed: Vec<(FlowKey, FlowStats)> = aggregator.get_flows(request.namespaces.as_slice());
    let picked: Vec<(FlowKey, FlowStats)> = of_pods(
        &listed,
        request.pod_names.as_slice(),
        Ghost(aggregator@.flows),
        Ghost(text::texts(request.namespaces@)),
    );
    largest(
        &picked,
        limit,
        Ghost(
            matching_flows(
                aggregator@.flows,
                text::texts(request.namespaces@),
                text::texts(request.pod_names@),
            ),
        ),
    )
}

/// A number as the low half of its bits.
pub open spec fn low_word(n: nat) -> int {
    n as int % 0x1_0000_0000
}

/// Reports a flow.
pub fn network_flow(key: FlowKey, stats: &FlowStats, labels: FlowLabels) -> (r: NetworkFlow)
    ensures
        r.namespace@ == key@.namespace,
        r.pod_name@ == key@.pod_name,
        r.src_ip@ == labels.src_ip@,
        r.dst_ip@ == labels.dst_ip@,
        r.src_port == key@.src_port,
        r.dst_port == key@.dst_port,
        r.protocol@ == labels.protocol@,
        r.direction@ == labels.direction@,
        r.bytes == stats.bytes,
        r.packets == stats.packets,
        r.first_seen_ns == stats.first_seen_ns as i64,
        r.last_seen_ns == stats.last_seen_ns as i64,
{
    NetworkFlow {
        namespace: key.namespace,
        pod_name: key.pod_name,
        src_ip: labels.src_ip,
        dst_ip: labels.dst_ip,
        src_port: key.src_port as u32,
        dst_port: key.dst_port as u32,
        protocol: labels.protocol,
        direction: labels.direction,
        bytes: stats.bytes,
        packets: stats.packets,
        first_seen_ns: stats.first_seen_ns as i64,
        last_seen_ns: stats.last_seen_ns as i64,
    }
}

/// Reports a packet of a pod.
pub fn network_event(
    event: &NetworkFlowEvent,
    namespace: String,
    pod_name: String,
    labels: FlowLabels,
) -> (r: NetworkEvent)
    ensures
        r.namespace@ == namespace@,
        r.pod_name@ == pod_name@,
        r.src_ip@ == labels.src_ip@,
        r.dst_ip@ == labels.dst_ip@,
        r.src_port == event.src_port,
        r.dst_port == event.dst_port,
        r.protocol@ == labels.protocol@,
        r.direction@ == labels.direction@,
        r.bytes == event.packet_len,
        r.timestamp_ns == event.timestamp_ns as i64,
{
    NetworkEvent {
        namespace,
        pod_name,
        src_ip: labels.src_ip,
        dst_ip: labels.dst_ip,
        src_port: event.src_port as u32,
        dst_port: event.dst_port as u32,
        protocol: labels.protocol,
        direction: labels.direction,
        bytes: event.packet_len as u32,
        timestamp_ns: event.timestamp_ns as i64,
    }
}

/// Whether a subscriber to the given namespaces receives a packet of a
/// namespace. An empty list subscribes to all.
pub fn stream_delivers(namespaces: &Vec<String>, namespace: &str) -> (r: bool)
    ensures
        r == aggregator::selects(text::texts(namespaces@), namespace@),
{
    is_selected(namespaces.as_slice(), namespace)
}

/// Reports the state of the agent. Counts that do not fit their field lose
/// their high bits.
pub fn agent_status(
    node_name: String,
    version: String,
    aggregator: &FlowAggregator,
    pod_cache: &PodCache,
    health: &HealthState,
    events_dropped: u64,
    uptime_secs: u64,
) -> (r: AgentStatus)
    ensures
        r.node_name@ == node_name@,
        r.version@ == version@,
        r.healthy == health@.healthy(),
        r.health_message@ == health@.message(),
        r.events_processed == aggregator@.events_processed,
        r.events_dropped == events_dropped,
        r.pods_tracked == low_word(pod_cache@.by_ip.len()),
        r.active_flows == low_word(aggregator@.flows.len()),
        r.uptime_seconds == uptime_secs as i64,
{
    AgentStatus {
        node_name,
        version,
        healthy: health.is_healthy(),
        health_message: health.health_message(),
        events_processed: aggregator.events_processed(),
        events_dropped,
        pods_tracked: (pod_cache.ip_entries_count() as u64 % 0x1_0000_0000) as u32,
        active_flows: (aggregator.active_flow_count() as u64 % 0x1_0000_0000) as u32,
        uptime_seconds: uptime_secs as i64,
    }
}

/// The name of the node: what the environment says, else the host's name, else
/// `unknown`.
pub fn node_name(from_env: Option<String>, hostname: Option<String>) -> (r: String)
    ensures
        r@ == match (from_env, hostname) {
            (Some(name), _) => name@,
            (None, Some(name)) => name@,
            (None, None) => "unknown"@,
        },
{
    match from_env {
        Some(name) => name,
        None => match hostname {
            Some(name) => name,
            None => "unknown".to_owned(),
        },
    }
}

/// The address that a server listens on: the port, on every interface.
pub fn listen_address(port: u16) -> (r: String)
    ensures
        r@ == "0.0.0.0:"@ + text::decimal(port as nat),
{
    let mut r: String = "0.0.0.0:".to_owned();
    push_decimal(&mut r, port as u128);
    r
}

/// An answer never exceeds the agent's own limit, nor what was asked for where
/// something was asked for.
pub proof fn law_answer_stays_within_both_limits(
    top: Seq<(FlowKey, FlowStats)>,
    flows: Map<FlowKeyView, FlowStats>,
    asked: u32,
    max_query_limit: usize,
)
    requires
        is_top(top, flows, answer_limit(asked, max_query_limit)),
    ensures
        top.len() <= max_query_limit,
        asked > 0 ==> top.len() <= asked,
{
}

/// An answer holds no flow that the question does not match; it holds every
/// one that does unless it is full.
pub proof fn law_answer_is_complete_unless_full(
    top: Seq<(FlowKey, FlowStats)>,
    flows: Map<FlowKeyView, FlowStats>,
    namespaces: Seq<Seq<char>>,
    pod_names: Seq<Seq<char>>,
    limit: int,
    key: FlowKeyView,
)
    requires
        0 <= limit,
        is_top(top, matching_flows(flows, namespaces, pod_names), limit),
    ensures
        names_flow(top, key) ==> flows.contains_key(key) && aggregator::selects(
            namespaces,
            key.namespace,
        ) && aggregator::selects(pod_names, key.pod_name),
        top.len() < limit && flows.contains_key(key) && aggregator::selects(
            namespaces,
            key.namespace,
        ) && aggregator::selects(pod_names, key.pod_name) ==> names_flow(top, key),
{
    let all = matching_flows(flows, namespaces, pod_names);
    if names_flow(top, key) {
        let i = choose|i: int| 0 <= i < top.len() && (#[trigger] top[i]).0@ == key;
        assert(all.contains_key(top[i].0@));
    }
    if top.len() < limit && all.contains_key(key) && !names_flow(top, key) {
        let keys = Seq::new(top.len(), |i: int| top[i].0@);
        assert(keys.no_duplicates()) by {
            assert forall|i: int, j: int| 0 <= i < keys.len() && 0 <= j < keys.len() && i != j implies
                keys[i] != keys[j] by {
                if i < j {
                    assert(top[i].0@ != top[j].0@);
                } else {
                    assert(top[j].0@ != top[i].0@);
                }
            }
        }
        keys.unique_seq_to_set();
        assert(keys.to_set().subset_of(all.dom().remove(key))) by {
            assert forall|k: FlowKeyView| keys.to_set().contains(k) implies all.dom().remove(
                key,
            ).contains(k) by {
                let i = choose|i: int| 0 <= i < keys.len() && keys[i] == k;
                assert(top[i].0@ == k);
                assert(names_flow(top, k));
            }
        }
        vstd::set_lib::lemma_len_subset(keys.to_set(), all.dom().remove(key));
        assert(false);
    }
}

/// An answer holds as many flows as match, as were asked for and as the agent
/// allows, whichever is least; that nothing was asked for asks for all.
pub proof fn law_answer_is_as_long_as_it_may(
    top: Seq<(FlowKey, FlowStats)>,
    flows: Map<FlowKeyView, FlowStats>,
    asked: u32,
    max_query_limit: usize,
)
    requires
        is_top(top, flows, answer_limit(asked, max_query_limit)),
    ensures
        top.len() <= flows.len(),
        top.len() <= max_query_limit,
        asked > 0 ==> top.len() <= asked,
        top.len() == flows.len() || top.len() == max_query_limit || (asked > 0 && top.len()
            == asked),
{
}

/// An answer names flows of the table only, each once and with its figures, of
/// the namespaces and pods asked for, name by name; the largest come first, and
/// a flow that matches and is not named is no larger than any that is.
pub proof fn law_answer_is_what_was_asked_for(
    top: Seq<(FlowKey, FlowStats)>,
    flows: Map<FlowKeyView, FlowStats>,
    namespaces: Seq<Seq<char>>,
    pod_names: Seq<Seq<char>>,
    limit: int,
)
    requires
        is_top(top, matching_flows(flows, namespaces, pod_names), limit),
    ensures
        forall|i: int|
            0 <= i < top.len() ==> {
                &&& flows.dom().contains((#[trigger] top[i]).0@)
                &&& flows[top[i].0@] == top[i].1
                &&& namespaces.len() == 0 || namespaces.contains(top[i].0@.namespace)
                &&& pod_names.len() == 0 || pod_names.contains(top[i].0@.pod_name)
            },
        forall|i: int, j: int|
            0 <= i < j < top.len() ==> (#[trigger] top[i]).1.bytes >= (#[trigger] top[j]).1.bytes
                && top[i].0@ != top[j].0@,
        forall|k: FlowKeyView, i: int|
            {
                &&& flows.dom().contains(k)
                &&& namespaces.len() == 0 || namespaces.contains(k.namespace)
                &&& pod_names.len() == 0 || pod_names.contains(k.pod_name)
                &&& forall|j: int| 0 <= j < top.len() ==> (#[trigger] top[j]).0@ != k
                &&& 0 <= i < top.len()
            } ==> (#[trigger] flows[k]).bytes <= (#[trigger] top[i]).1.bytes,
{
    let all = matching_flows(flows, namespaces, pod_names);
    assert forall|i: int| 0 <= i < top.len() implies {
        &&& flows.dom().contains((#[trigger] top[i]).0@)
        &&& flows[top[i].0@] == top[i].1
        &&& namespaces.len() == 0 || namespaces.contains(top[i].0@.namespace)
        &&& pod_names.len() == 0 || pod_names.contains(top[i].0@.pod_name)
    } by {
        assert(all.contains_key(top[i].0@));
    }
    assert forall|k: FlowKeyView, i: int|
        {
            &&& flows.dom().contains(k)
            &&& namespaces.len() == 0 || namespaces.contains(k.namespace)
            &&& pod_names.len() == 0 || pod_names.contains(k.pod_name)
            &&& forall|j: int| 0 <= j < top.len() ==> (#[trigger] top[j]).0@ != k
            &&& 0 <= i < top.len()
        } implies (#[trigger] flows[k]).bytes <= (#[trigger] top[i]).1.bytes by {
        assert(all.contains_key(k));
        assert(!names_flow(top, k));
        assert(all[k] == flows[k]);
    }
}

/// A flow matches a question exactly where its namespace is one of those asked
/// for and its pod is; an empty list asks for all. Its figures are its own.
pub proof fn law_matching_is_by_namespace_and_pod(
    flows: Map<FlowKeyView, FlowStats>,
    namespaces: Seq<Seq<char>>,
    pod_names: Seq<Seq<char>>,
    key: FlowKeyView,
)
    ensures
        matching_flows(flows, namespaces, pod_names).dom().contains(key) <==> {
            &&& flows.dom().contains(key)
            &&& namespaces.len() == 0 || namespaces.contains(key.namespace)
            &&& pod_names.len() == 0 || pod_names.contains(key.pod_name)
        },
        matching_flows(flows, namespaces, pod_names).dom().contains(key) ==> matching_flows(
            flows,
            namespaces,
            pod_names,
        )[key] == flows[key],
{
}

/// A count that fits its field is reported as it is, and any other by what is
/// left when full turns of the field are taken off.
pub proof fn law_counts_are_reported_as_they_are(n: nat)
    ensures
        n < 0x1_0000_0000 ==> low_word(n) == n,
        0 <= low_word(n) < 0x1_0000_0000,
        low_word(n + 0x1_0000_0000) == low_word(n),
{
}

} // verus!
