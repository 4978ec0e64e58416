//! From a packet to the pod that it is attributed to and the flow that it is
//! counted in.
use crate::aggregator;
use crate::aggregator::{
    FlowAggregator, FlowKey, FlowKeyView, FlowStats, FlowView, NetworkFlowEvent,
};
use crate::health::{HealthState, HealthView};
use crate::pod_cache::{CacheView, PodCache, PodMetadata, PodView};
use crate::service;
use crate::service::{network_event, FlowLabels, NetworkEvent};
use crate::time::Duration;
use vstd::prelude::*;

verus! {

/// The pod behind an address, if it is known.
pub open spec fn pod_behind(cache: CacheView, ip: u32) -> Option<PodView> {
    if cache.by_ip.contains_key(ip as u64) {
        Some(cache.by_ip[ip as u64])
    } else {
        None
    }
}

/// The namespace and the name of the pod that a packet is attributed to: the
/// receiver of an incoming packet and the sender of any other, or the other
/// end where that one is not known. Without either the packet is external.
pub open spec fn attribution(cache: CacheView, event: NetworkFlowEvent, ingress: bool) -> (
    Seq<char>,
    Seq<char>,
) {
    let src = pod_behind(cache, event.src_ip);
    let dst = pod_behind(cache, event.dst_ip);
    let near = if ingress {
        dst
    } else {
        src
    };
    let far = if ingress {
        src
    } else {
        dst
    };
    match (near, far) {
        (Some(pod), _) => (pod.namespace, pod.pod_name),
        (None, Some(pod)) => (pod.namespace, pod.pod_name),
        (None, None) => ("external"@, "unknown"@),
    }
}

/// Attributes a packet to a pod; `ingress` tells whether it is incoming.
pub fn attribute(cache: &PodCache, event: &NetworkFlowEvent, ingress: bool) -> (r: (String, String))
    ensures
        (r.0@, r.1@) == attribution(cache@, *event, ingress),
{
    let src: Option<PodMetadata> = cache.get_by_ip(event.src_ip);
    let dst: Option<PodMetadata> = cache.get_by_ip(event.dst_ip);
    let (near, far): (Option<PodMetadata>, Option<PodMetadata>) = if ingress {
        (dst, src)
    } else {
        (src, dst)
    };
    match near {
        Some(pod) => (pod.namespace, pod.pod_name),
        None => match far {
            Some(pod) => (pod.namespace, pod.pod_name),
            None => ("external".to_owned(), "unknown".to_owned()),
        },
    }
}

/// Whether an end of a packet is the agent's own service: it has the service's
/// port, and its address is one of this machine's, where those are known.
pub open spec fn is_own_end(ip: u32, port: u16, grpc_port: u16, local_ips: Seq<u32>) -> bool {
    port == grpc_port && (local_ips.len() == 0 || local_ips.contains(ip))
}

/// Tests whether an end of a packet is the agent's own service.
fn own_end(ip: u32, port: u16, grpc_port: u16, local_ips: &[u32]) -> (r: bool)
    ensures
        r == is_own_end(ip, port, grpc_port, local_ips@),
{
    if port != grpc_port {
        return false;
    }
    if local_ips.len() == 0 {
        return true;
    }
    let mut i: usize = 0;
    while i < local_ips.len()
        invariant
            port == grpc_port,
            i <= local_ips.len(),
            forall|k: int| 0 <= k < i ==> local_ips@[k] != ip,
        decreases local_ips.len() - i,
    {
        if local_ips[i] == ip {
            return true;
        }
        i += 1;
    }
    false
}

/// Whether a packet belongs to the agent's own service. Without known
/// addresses of this machine the port alone tells.
pub fn is_self_traffic(event: &NetworkFlowEvent, grpc_port: u16, local_ips: &[u32]) -> (r: bool)
    ensures
        r == (is_own_end(event.src_ip, event.src_port, grpc_port, local_ips@) || is_own_end(
            event.dst_ip,
            event.dst_port,
            grpc_port,
            local_ips@,
        )),
{
    own_end(event.src_ip, event.src_port, grpc_port, local_ips) || own_end(
        event.dst_ip,
        event.dst_port,
        grpc_port,
        local_ips,
    )
}

/// The flow that a packet is counted in.
pub open spec fn flow_of(cache: CacheView, event: NetworkFlowEvent, ingress: bool) -> FlowKeyView {
    let (namespace, pod_name) = attribution(cache, event, ingress);
    aggregator::event_key(event, namespace, pod_name)
}

/// Whether a packet can be counted in its flow.
pub fn can_ingest(
    cache: &PodCache,
    aggregator: &FlowAggregator,
    event: &NetworkFlowEvent,
    ingress: bool,
) -> (r: bool)
    ensures
        r == (aggregator@.watermarks_fit() && aggregator@.has_room(
            flow_of(cache@, *event, ingress),
            event.packet_len,
        )),
{
    let (namespace, pod_name) = attribute(cache, event, ingress);
    aggregator.can_count_event(event, namespace.as_str(), pod_name.as_str())
}

/// Counts a packet that was seen at `now` in the flow of its pod and gives
/// what is reported of it. Traffic of the agent itself is neither counted nor
/// reported.
pub fn ingest_event_at(
    cache: &PodCache,
    aggregator: &mut FlowAggregator,
    health: &mut HealthState,
    now: Duration,
    event: &NetworkFlowEvent,
    self_traffic: bool,
    ingress: bool,
    labels: FlowLabels,
) -> (r: Option<NetworkEvent>)
    requires
        self_traffic || old(aggregator)@.watermarks_fit(),
        self_traffic || old(aggregator)@.has_room(
            flow_of(cache@, *event, ingress),
            event.packet_len,
        ),
    ensures
        r is None <==> self_traffic,
        self_traffic ==> final(aggregator)@ == old(aggregator)@ && final(health)@ == old(health)@,
        !self_traffic ==> old(aggregator)@.counts_event(
            old(health)@,
            now,
            *event,
            flow_of(cache@, *event, ingress),
            final(aggregator)@,
            final(health)@,
        ),
        r matches Some(report) ==> reports(report, cache@, *event, ingress, labels),
        old(aggregator)@.bounded() ==> final(aggregator)@.bounded(),
{
    if self_traffic {
        return None;
    }
    let (namespace, pod_name) = attribute(cache, event, ingress);
    aggregator.process_event_at(health, now, event, namespace.as_str(), pod_name.as_str());
    Some(network_event(event, namespace, pod_name, labels))
}

/// Counts a packet at the moment of the call, as `ingest_event_at` does.
pub fn ingest_event(
    cache: &PodCache,
    aggregator: &mut FlowAggregator,
    health: &mut HealthState,
    event: &NetworkFlowEvent,
    self_traffic: bool,
    ingress: bool,
    labels: FlowLabels,
) -> (r: Option<NetworkEvent>)
    requires
        self_traffic || old(aggregator)@.watermarks_fit(),
        self_traffic || old(aggregator)@.has_room(
            flow_of(cache@, *event, ingress),
            event.packet_len,
        ),
    ensures
        r is None <==> self_traffic,
        self_traffic ==> final(aggregator)@ == old(aggregator)@ && final(health)@ == old(health)@,
        !self_traffic ==> exists|now: Duration|
            #[trigger] old(aggregator)@.counts_event(
                old(health)@,
                now,
                *event,
                flow_of(cache@, *event, ingress),
                final(aggregator)@,
                final(health)@,
            ),
        r matches Some(report) ==> reports(report, cache@, *event, ingress, labels),
        old(aggregator)@.bounded() ==> final(aggregator)@.bounded(),
{
    if self_traffic {
        return None;
    }
    let (namespace, pod_name) = attribute(cache, event, ingress);
    aggregator.process_event(health, event, namespace.as_str(), pod_name.as_str());
    Some(network_event(event, namespace, pod_name, labels))
}

/// Whether a report tells a packet with the pod that it is attributed to.
pub open spec fn reports(
    report: NetworkEvent,
    cache: CacheView,
    event: NetworkFlowEvent,
    ingress: bool,
    labels: FlowLabels,
) -> bool {
    &&& (report.namespace@, report.pod_name@) == attribution(cache, event, ingress)
    &&& report.src_ip@ == labels.src_ip@
    &&& report.dst_ip@ == labels.dst_ip@
    &&& report.src_port == event.src_port
    &&& report.dst_port == event.dst_port
    &&& report.protocol@ == labels.protocol@
    &&& report.direction@ == labels.direction@
    &&& report.bytes == event.packet_len
    &&& report.timestamp_ns == event.timestamp_ns as i64
}

/// A packet goes to the pod at its near end where that one is known. Where only
/// one end is known the packet goes there, whichever way it travels, and where
/// none is known it is external.
pub proof fn law_known_address_is_attributed(
    cache: CacheView,
    event: NetworkFlowEvent,
    ingress: bool,
)
    ensures
        ingress && pod_behind(cache, event.dst_ip) is Some ==> attribution(cache, event, ingress)
            == (
            pod_behind(cache, event.dst_ip)->0.namespace,
            pod_behind(cache, event.dst_ip)->0.pod_name,
        ),
        !ingress && pod_behind(cache, event.src_ip) is Some ==> attribution(cache, event, ingress)
            == (
            pod_behind(cache, event.src_ip)->0.namespace,
            pod_behind(cache, event.src_ip)->0.pod_name,
        ),
        pod_behind(cache, event.src_ip) is None && pod_behind(cache, event.dst_ip) is None
            ==> attribution(cache, event, ingress) == ("external"@, "unknown"@),
        pod_behind(cache, event.src_ip) is None || pod_behind(cache, event.dst_ip) is None
            ==> attribution(cache, event, true) == attribution(cache, event, false),
{
}

/// Once a packet was counted, a question for its pod finds its flow, with the
/// packet's bytes in it, unless the answer is full.
pub proof fn law_counted_packet_is_found(
    cache: CacheView,
    event: NetworkFlowEvent,
    ingress: bool,
    pre: FlowView,
    health_pre: HealthView,
    now: Duration,
    post: FlowView,
    health_post: HealthView,
    namespaces: Seq<Seq<char>>,
    pod_names: Seq<Seq<char>>,
    top: Seq<(FlowKey, FlowStats)>,
    limit: int,
)
    requires
        pre.has_room(flow_of(cache, event, ingress), event.packet_len),
        pre.counts_event(
            health_pre,
            now,
            event,
            flow_of(cache, event, ingress),
            post,
            health_post,
        ),
        aggregator::selects(namespaces, attribution(cache, event, ingress).0),
        aggregator::selects(pod_names, attribution(cache, event, ingress).1),
        0 <= limit,
        service::is_top(top, service::matching_flows(post.flows, namespaces, pod_names), limit),
        top.len() < limit,
    ensures
        exists|i: int|
            0 <= i < top.len() && (#[trigger] top[i]).0@ == flow_of(cache, event, ingress)
                && top[i].1.bytes == aggregator::bytes_of(
                pre.flows,
                flow_of(cache, event, ingress),
            ) + event.packet_len && top[i].1.last_seen == now,
{
    let key = flow_of(cache, event, ingress);
    aggregator::law_event_is_counted_in_its_flow(
        pre,
        health_pre,
        now,
        event,
        key,
        post,
        health_post,
    );
    service::law_answer_is_complete_unless_full(
        top,
        post.flows,
        namespaces,
        pod_names,
        limit,
        key,
    );
    assert(service::names_flow(top, key));
    let i = choose|i: int| 0 <= i < top.len() && (#[trigger] top[i]).0@ == key;
    assert(service::matching_flows(post.flows, namespaces, pod_names)[key] == post.flows[key]);
    assert(top[i].1 == post.flows[key]);
}

/// Whom a packet is attributed to, by what the cache holds under its two
/// addresses: an incoming packet to its receiver, any other to its sender,
/// either to the other end where the first is not known, and to no pod where
/// none is.
pub proof fn law_packet_goes_to_a_pod_at_its_ends(
    cache: CacheView,
    event: NetworkFlowEvent,
    ingress: bool,
)
    ensures
        ({
            let near = if ingress {
                event.dst_ip as u64
            } else {
                event.src_ip as u64
            };
            let far = if ingress {
                event.src_ip as u64
            } else {
                event.dst_ip as u64
            };
            let owner = attribution(cache, event, ingress);
            &&& cache.by_ip.dom().contains(near) ==> owner.0 == cache.by_ip[near].namespace
                && owner.1 == cache.by_ip[near].pod_name
            &&& !cache.by_ip.dom().contains(near) && cache.by_ip.dom().contains(far) ==> owner.0
                == cache.by_ip[far].namespace && owner.1 == cache.by_ip[far].pod_name
            &&& !cache.by_ip.dom().contains(near) && !cache.by_ip.dom().contains(far) ==> owner.0
                == "external"@ && owner.1 == "unknown"@
        }),
{
}

/// The flow of a packet carries the pod that the packet is attributed to and
/// what the packet itself carries.
pub proof fn law_flow_is_of_the_attributed_pod(
    cache: CacheView,
    event: NetworkFlowEvent,
    ingress: bool,
)
    ensures
        flow_of(cache, event, ingress).namespace == attribution(cache, event, ingress).0,
        flow_of(cache, event, ingress).pod_name == attribution(cache, event, ingress).1,
        flow_of(cache, event, ingress).src_ip == event.src_ip,
        flow_of(cache, event, ingress).dst_ip == event.dst_ip,
        flow_of(cache, event, ingress).src_port == event.src_port,
        flow_of(cache, event, ingress).dst_port == event.dst_port,
        flow_of(cache, event, ingress).protocol == event.protocol,
        flow_of(cache, event, ingress).direction == event.direction,
{
}

/// What is reported of a packet names the same pod as its flow, and the
/// packet's own ports, size and time.
pub proof fn law_report_agrees_with_the_flow(
    report: NetworkEvent,
    cache: CacheView,
    event: NetworkFlowEvent,
    ingress: bool,
    labels: FlowLabels,
)
    requires
        reports(report, cache, event, ingress, labels),
    ensures
        report.namespace@ == flow_of(cache, event, ingress).namespace,
        report.pod_name@ == flow_of(cache, event, ingress).pod_name,
        report.src_ip@ == labels.src_ip@,
        report.dst_ip@ == labels.dst_ip@,
        report.protocol@ == labels.protocol@,
        report.direction@ == labels.direction@,
        report.src_port == event.src_port,
        report.dst_port == event.dst_port,
        report.bytes == event.packet_len,
        event.timestamp_ns <= i64::MAX ==> report.timestamp_ns == event.timestamp_ns,
{
}

/// An end of a packet is the agent's own exactly where it has the service's
/// port and one of this machine's addresses; where none of those is known the
/// port alone decides.
pub proof fn law_own_traffic_has_port_and_address(
    ip: u32,
    port: u16,
    grpc_port: u16,
    local_ips: Seq<u32>,
)
    ensures
        is_own_end(ip, port, grpc_port, local_ips) ==> port == grpc_port,
        local_ips.len() == 0 ==> (is_own_end(ip, port, grpc_port, local_ips) <==> port
            == grpc_port),
        local_ips.len() > 0 && is_own_end(ip, port, grpc_port, local_ips) ==> exists|i: int|
            0 <= i < local_ips.len() && #[trigger] local_ips[i] == ip,
        forall|i: int|
            0 <= i < local_ips.len() && port == grpc_port && #[trigger] local_ips[i] == ip
                ==> is_own_end(ip, port, grpc_port, local_ips),
{
}

} // verus!
