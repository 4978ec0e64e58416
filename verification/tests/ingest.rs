use orb8::aggregator::{FlowAggregator, NetworkFlowEvent};
use orb8::health::HealthState;
use orb8::ingest::{attribute, can_ingest, ingest_event, ingest_event_at, is_self_traffic};
use orb8::pod_cache::{PodCache, PodMetadata};
use orb8::service::{query_flows, FlowLabels, QueryFlowsRequest};
use orb8::time::Duration;

fn packet(src_ip: u32, dst_ip: u32) -> NetworkFlowEvent {
    NetworkFlowEvent {
        src_ip,
        dst_ip,
        src_port: 1,
        dst_port: 2,
        protocol: 17,
        direction: 0,
        packet_len: 64,
        cgroup_id: 0,
        timestamp_ns: 5,
    }
}

fn labels() -> FlowLabels {
    FlowLabels {
        src_ip: "s".to_string(),
        dst_ip: "d".to_string(),
        protocol: "UDP".to_string(),
        direction: "ingress".to_string(),
    }
}

fn known(pods: &[(u32, &str)]) -> PodCache {
    let mut health = HealthState::new();
    let mut cache = PodCache::new(10);
    for (ip, name) in pods {
        let entry = PodMetadata {
            namespace: format!("ns-{}", name),
            pod_name: name.to_string(),
            pod_uid: name.to_string(),
            container_name: String::new(),
            container_id: String::new(),
            pod_ip: Some(*ip),
        };
        cache.insert_by_ip(&mut health, entry);
    }
    cache
}

fn owner(cache: &PodCache, ingress: bool) -> (String, String) {
    attribute(cache, &packet(1, 2), ingress)
}

fn named(namespace: &str, pod: &str) -> (String, String) {
    (namespace.to_string(), pod.to_string())
}

#[test]
fn a_packet_goes_to_its_near_end() {
    let both = known(&[(1, "a"), (2, "b")]);
    assert_eq!(owner(&both, true), named("ns-b", "b"));
    assert_eq!(owner(&both, false), named("ns-a", "a"));
}

#[test]
fn a_packet_goes_to_the_only_known_end() {
    let source = known(&[(1, "a")]);
    assert_eq!(owner(&source, true), named("ns-a", "a"));
    assert_eq!(owner(&source, false), named("ns-a", "a"));
    let destination = known(&[(2, "b")]);
    assert_eq!(owner(&destination, true), named("ns-b", "b"));
    assert_eq!(owner(&destination, false), named("ns-b", "b"));
}

#[test]
fn unknown_packets_are_external() {
    assert_eq!(owner(&known(&[]), true), named("external", "unknown"));
    assert_eq!(owner(&known(&[(3, "c")]), false), named("external", "unknown"));
}

#[test]
fn a_packet_is_counted_and_reported() {
    let cache = known(&[(2, "b")]);
    let mut health = HealthState::new();
    let mut agg = FlowAggregator::new(10, Duration::from_secs(30));
    let event = packet(1, 2);
    assert!(can_ingest(&cache, &agg, &event, true));
    let report = ingest_event_at(
        &cache,
        &mut agg,
        &mut health,
        Duration::from_secs(1),
        &event,
        false,
        true,
        labels(),
    )
    .unwrap();
    assert_eq!(report.namespace, "ns-b");
    assert_eq!(report.pod_name, "b");
    assert_eq!(report.src_ip, "s");
    assert_eq!(report.protocol, "UDP");
    assert_eq!(report.bytes, 64);
    assert_eq!(report.timestamp_ns, 5);
    let flows = agg.get_flows(&["ns-b".to_string()]);
    assert_eq!(flows.len(), 1);
    assert_eq!(flows[0].1.bytes, 64);
}

#[test]
fn own_traffic_leaves_no_trace() {
    let cache = known(&[(2, "b")]);
    let mut health = HealthState::new();
    let mut agg = FlowAggregator::new(10, Duration::from_secs(30));
    let event = packet(1, 2);
    assert!(ingest_event(&cache, &mut agg, &mut health, &event, true, true, labels()).is_none());
    assert_eq!(agg.events_processed(), 0);
    assert_eq!(agg.active_flow_count(), 0);
    assert!(ingest_event(&cache, &mut agg, &mut health, &event, false, true, labels()).is_some());
    assert_eq!(agg.events_processed(), 1);
}

#[test]
fn a_counted_packet_is_found_by_its_query() {
    let cache = known(&[(2, "b")]);
    let mut health = HealthState::new();
    let mut agg = FlowAggregator::new(10, Duration::from_secs(30));
    for _ in 0..3 {
        let event = packet(1, 2);
        ingest_event(&cache, &mut agg, &mut health, &event, false, true, labels());
    }
    let request = QueryFlowsRequest {
        namespaces: vec!["ns-b".to_string()],
        pod_names: vec!["b".to_string()],
        limit: 5,
    };
    let found = query_flows(&agg, &request, 100);
    assert_eq!(found.len(), 1);
    assert_eq!(found[0].0.pod_name, "b");
    assert_eq!(found[0].1.bytes, 192);
    assert_eq!(found[0].1.packets, 3);
}

#[test]
fn the_agents_own_traffic_is_known() {
    let mut event = packet(10, 20);
    event.src_port = 9090;
    event.dst_port = 443;
    assert!(is_self_traffic(&event, 9090, &[]));
    assert!(is_self_traffic(&event, 9090, &[5, 10]));
    assert!(!is_self_traffic(&event, 9090, &[20]));
    assert!(!is_self_traffic(&event, 9091, &[]));
    assert!(is_self_traffic(&event, 443, &[20]));
    assert!(!is_self_traffic(&event, 443, &[10]));
}
