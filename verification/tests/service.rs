use orb8::aggregator::{FlowAggregator, NetworkFlowEvent};
use orb8::health::HealthState;
use orb8::pod_cache::{PodCache, PodMetadata};
use orb8::service::{
    agent_status, listen_address, network_event, network_flow, node_name, query_flows,
    stream_delivers, FlowLabels, QueryFlowsRequest,
};
use orb8::time::Duration;

fn packet(dst_port: u16, packet_len: u16) -> NetworkFlowEvent {
    NetworkFlowEvent {
        src_ip: 0x0100000A,
        dst_ip: 0x0200000A,
        src_port: 8080,
        dst_port,
        protocol: 6,
        direction: 0,
        packet_len,
        cgroup_id: 0,
        timestamp_ns: 1_000,
    }
}

fn labels() -> FlowLabels {
    FlowLabels {
        src_ip: "10.0.0.1".to_string(),
        dst_ip: "10.0.0.2".to_string(),
        protocol: "TCP".to_string(),
        direction: "ingress".to_string(),
    }
}

fn filled(sizes: &[(u16, u16, &str, &str)]) -> FlowAggregator {
    let mut health = HealthState::new();
    let mut agg = FlowAggregator::new(100, Duration::from_secs(30));
    for (port, len, namespace, pod) in sizes {
        let event = packet(*port, *len);
        agg.process_event_at(&mut health, Duration::from_secs(1), &event, namespace, pod);
    }
    agg
}

fn asked(agg: &FlowAggregator, request: QueryFlowsRequest, max: usize) -> Vec<(u16, u64)> {
    query_flows(agg, &request, max)
        .into_iter()
        .map(|(key, stats)| (key.dst_port, stats.bytes))
        .collect()
}

fn request(namespaces: &[&str], pods: &[&str], limit: u32) -> QueryFlowsRequest {
    QueryFlowsRequest {
        namespaces: namespaces.iter().map(|s| s.to_string()).collect(),
        pod_names: pods.iter().map(|s| s.to_string()).collect(),
        limit,
    }
}

#[test]
fn the_largest_flows_come_first() {
    let agg = filled(&[
        (1, 50, "a", "x"),
        (2, 900, "a", "x"),
        (3, 700, "b", "y"),
        (4, 60, "b", "z"),
        (1, 800, "a", "x"),
    ]);
    assert_eq!(
        asked(&agg, request(&[], &[], 0), 10),
        vec![(2, 900), (1, 850), (3, 700), (4, 60)]
    );
    assert_eq!(asked(&agg, request(&[], &[], 2), 10), vec![(2, 900), (1, 850)]);
}

#[test]
fn an_answer_keeps_both_limits() {
    let agg = filled(&[(1, 1, "a", "x"), (2, 2, "a", "x"), (3, 3, "a", "x"), (4, 4, "a", "x")]);
    assert_eq!(asked(&agg, request(&[], &[], 0), 3).len(), 3);
    assert_eq!(asked(&agg, request(&[], &[], 100), 3).len(), 3);
    assert_eq!(asked(&agg, request(&[], &[], 3), 3).len(), 3);
    assert_eq!(asked(&agg, request(&[], &[], 1), 3), vec![(4, 4)]);
    assert_eq!(asked(&agg, request(&[], &[], 0), 0), vec![]);
    assert_eq!(asked(&agg, request(&[], &[], 9), 9).len(), 4);
}

#[test]
fn flows_are_chosen_by_namespace_and_pod() {
    let agg = filled(&[
        (1, 10, "a", "x"),
        (2, 20, "a", "y"),
        (3, 30, "b", "x"),
        (4, 40, "c", "z"),
    ]);
    assert_eq!(asked(&agg, request(&["a"], &[], 0), 10), vec![(2, 20), (1, 10)]);
    assert_eq!(asked(&agg, request(&[], &["x"], 0), 10), vec![(3, 30), (1, 10)]);
    assert_eq!(asked(&agg, request(&["a", "c"], &["x", "z"], 0), 10), vec![(4, 40), (1, 10)]);
    assert_eq!(asked(&agg, request(&["none"], &[], 0), 10), vec![]);
}

#[test]
fn a_flow_is_reported_with_its_figures() {
    let agg = filled(&[(443, 100, "default", "nginx")]);
    let (key, stats) = query_flows(&agg, &request(&[], &[], 0), 10).pop().unwrap();
    let flow = network_flow(key, &stats, labels());
    assert_eq!(flow.namespace, "default");
    assert_eq!(flow.pod_name, "nginx");
    assert_eq!(flow.src_ip, "10.0.0.1");
    assert_eq!(flow.dst_ip, "10.0.0.2");
    assert_eq!((flow.src_port, flow.dst_port), (8080, 443));
    assert_eq!(flow.protocol, "TCP");
    assert_eq!(flow.direction, "ingress");
    assert_eq!((flow.bytes, flow.packets), (100, 1));
    assert_eq!((flow.first_seen_ns, flow.last_seen_ns), (1_000, 1_000));
}

#[test]
fn a_packet_is_reported_with_its_pod() {
    let event = network_event(
        &packet(443, 100),
        "default".to_string(),
        "nginx".to_string(),
        labels(),
    );
    assert_eq!(event.namespace, "default");
    assert_eq!(event.pod_name, "nginx");
    assert_eq!(event.src_ip, "10.0.0.1");
    assert_eq!(event.dst_ip, "10.0.0.2");
    assert_eq!((event.src_port, event.dst_port), (8080, 443));
    assert_eq!(event.protocol, "TCP");
    assert_eq!(event.direction, "ingress");
    assert_eq!(event.bytes, 100);
    assert_eq!(event.timestamp_ns, 1_000);
}

#[test]
fn times_beyond_the_signed_range_wrap() {
    let mut late = packet(1, 1);
    late.timestamp_ns = u64::MAX;
    let event = network_event(&late, "a".to_string(), "b".to_string(), labels());
    assert_eq!(event.timestamp_ns, -1);
}

#[test]
fn subscribers_get_their_namespaces() {
    let none: Vec<String> = vec![];
    let some = vec!["a".to_string(), "b".to_string()];
    assert!(stream_delivers(&none, "c"));
    assert!(stream_delivers(&some, "b"));
    assert!(!stream_delivers(&some, "c"));
}

#[test]
fn status_tells_what_the_agent_holds() {
    let mut health = HealthState::new();
    health.set_probes_attached(true);
    let agg = filled(&[(1, 10, "a", "x"), (1, 10, "a", "x"), (2, 10, "a", "x")]);
    let mut cache = PodCache::new(10);
    cache.insert_by_ip(
        &mut health,
        PodMetadata {
            namespace: "a".to_string(),
            pod_name: "x".to_string(),
            pod_uid: "u".to_string(),
            container_name: String::new(),
            container_id: String::new(),
            pod_ip: Some(1),
        },
    );
    let status =
        agent_status("node".to_string(), "0.1.0".to_string(), &agg, &cache, &health, 17, 3_600);
    assert_eq!(status.node_name, "node");
    assert_eq!(status.version, "0.1.0");
    assert!(status.healthy);
    assert_eq!(status.health_message, "DEGRADED: k8s watcher disconnected");
    assert_eq!(status.events_processed, 3);
    assert_eq!(status.events_dropped, 17);
    assert_eq!(status.pods_tracked, 1);
    assert_eq!(status.active_flows, 2);
    assert_eq!(status.uptime_seconds, 3_600);
}

#[test]
fn node_name_falls_back() {
    let name = |s: &str| Some(s.to_string());
    assert_eq!(node_name(name("env"), name("host")), "env");
    assert_eq!(node_name(None, name("host")), "host");
    assert_eq!(node_name(None, None), "unknown");
}

#[test]
fn servers_listen_everywhere() {
    assert_eq!(listen_address(9090), "0.0.0.0:9090");
    assert_eq!(listen_address(0), "0.0.0.0:0");
}
