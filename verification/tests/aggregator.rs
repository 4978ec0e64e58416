use orb8::aggregator::{FlowAggregator, FlowKey, FlowStats, NetworkFlowEvent};
use orb8::health::HealthState;
use orb8::time::Duration;

fn make_event(src_ip: u32, dst_ip: u32, src_port: u16, dst_port: u16) -> NetworkFlowEvent {
    NetworkFlowEvent {
        src_ip,
        dst_ip,
        src_port,
        dst_port,
        protocol: 6,
        direction: 1,
        packet_len: 100,
        cgroup_id: 0,
        timestamp_ns: 1_000_000,
    }
}

fn test_aggregator() -> FlowAggregator {
    FlowAggregator::default()
}

fn ports(flows: &[(FlowKey, FlowStats)]) -> Vec<u16> {
    let mut ports: Vec<u16> = flows.iter().map(|(key, _)| key.dst_port).collect();
    ports.sort();
    ports
}

#[test]
fn test_process_event_creates_flow() {
    let mut health = HealthState::default();
    let mut agg = test_aggregator();
    let event = make_event(0x0100000A, 0x0200000A, 8080, 443);

    agg.process_event(&mut health, &event, "default", "nginx");

    assert_eq!(agg.active_flow_count(), 1);
    assert_eq!(agg.events_processed(), 1);

    let flows = agg.get_flows(&[]);
    assert_eq!(flows.len(), 1);
    assert_eq!(flows[0].0.namespace, "default");
    assert_eq!(flows[0].0.pod_name, "nginx");
    assert_eq!(flows[0].1.bytes, 100);
    assert_eq!(flows[0].1.packets, 1);
}

#[test]
fn test_process_event_aggregates_same_flow() {
    let mut health = HealthState::default();
    let mut agg = test_aggregator();
    let event = make_event(0x0100000A, 0x0200000A, 8080, 443);

    agg.process_event(&mut health, &event, "default", "nginx");
    agg.process_event(&mut health, &event, "default", "nginx");
    agg.process_event(&mut health, &event, "default", "nginx");

    assert_eq!(agg.active_flow_count(), 1);
    assert_eq!(agg.events_processed(), 3);

    let flows = agg.get_flows(&[]);
    assert_eq!(flows[0].1.bytes, 300);
    assert_eq!(flows[0].1.packets, 3);
}

#[test]
fn test_different_pods_create_different_flows() {
    let mut health = HealthState::default();
    let mut agg = test_aggregator();
    let event = make_event(0x0100000A, 0x0200000A, 8080, 443);

    agg.process_event(&mut health, &event, "default", "nginx");
    agg.process_event(&mut health, &event, "default", "redis");

    assert_eq!(agg.active_flow_count(), 2);
}

#[test]
fn test_get_flows_filters_by_namespace() {
    let mut health = HealthState::default();
    let mut agg = test_aggregator();
    let event = make_event(0x0100000A, 0x0200000A, 8080, 443);

    agg.process_event(&mut health, &event, "default", "nginx");
    agg.process_event(&mut health, &event, "kube-system", "coredns");

    let default_flows = agg.get_flows(&["default".to_string()]);
    assert_eq!(default_flows.len(), 1);
    assert_eq!(default_flows[0].0.namespace, "default");

    let all_flows = agg.get_flows(&[]);
    assert_eq!(all_flows.len(), 2);
}

#[test]
fn test_expire_old_flows() {
    let mut health = HealthState::default();
    let mut agg = FlowAggregator::new(100_000, Duration::from_millis(0));

    let event = make_event(0x0100000A, 0x0200000A, 8080, 443);
    agg.process_event(&mut health, &event, "default", "nginx");

    let start = std::time::Instant::now();
    while start.elapsed() < std::time::Duration::from_millis(1) {}
    let expired = agg.expire_old_flows(&mut health);

    assert_eq!(expired, 1);
    assert_eq!(agg.active_flow_count(), 0);
}

#[test]
fn test_eviction_when_at_capacity() {
    let mut health = HealthState::new();
    let mut agg = FlowAggregator::new(5, Duration::from_secs(30));

    for i in 0..5u16 {
        let event = make_event(0x0100000A, 0x0200000A, 8080, i);
        agg.process_event(&mut health, &event, "default", "nginx");
    }
    assert_eq!(agg.active_flow_count(), 5);

    let event = make_event(0x0100000A, 0x0200000A, 8080, 999);
    agg.process_event(&mut health, &event, "default", "nginx");

    assert!(agg.active_flow_count() <= 5);
    assert!(health.flow_evictions() > 0);
}

#[test]
fn test_capacity_watermark() {
    let mut health = HealthState::new();
    health.set_probes_attached(true);
    let mut agg = FlowAggregator::new(10, Duration::from_secs(30));

    for i in 0..10u16 {
        let event = make_event(0x0100000A, 0x0200000A, 8080, i);
        agg.process_event(&mut health, &event, "default", "nginx");
    }

    assert!(health.health_message().contains("flow table at capacity"));
}

#[test]
fn figures_of_a_flow_follow_its_packets() {
    let mut health = HealthState::new();
    let mut agg = FlowAggregator::new(10, Duration::from_secs(30));
    let mut event = make_event(1, 2, 3, 4);
    agg.process_event_at(&mut health, Duration::from_secs(7), &event, "ns", "pod");
    event.packet_len = 1_400;
    event.timestamp_ns = 5_000_000;
    agg.process_event_at(&mut health, Duration::from_secs(9), &event, "ns", "pod");

    let flows = agg.get_flows(&["ns".to_string()]);
    assert_eq!(flows.len(), 1);
    let (key, stats) = &flows[0];
    assert_eq!((key.src_ip, key.dst_ip, key.src_port, key.dst_port), (1, 2, 3, 4));
    assert_eq!((key.protocol, key.direction), (6, 1));
    assert_eq!(stats.bytes, 1_500);
    assert_eq!(stats.packets, 2);
    assert_eq!(stats.first_seen, Duration::from_secs(7));
    assert_eq!(stats.last_seen, Duration::from_secs(9));
    assert_eq!(stats.first_seen_ns, 1_000_000);
    assert_eq!(stats.last_seen_ns, 5_000_000);
}

#[test]
fn the_flow_seen_longest_ago_leaves_first() {
    let mut health = HealthState::new();
    let mut agg = FlowAggregator::new(3, Duration::from_secs(30));
    for i in 0..3u16 {
        let event = make_event(1, 2, 3, i);
        agg.process_event_at(&mut health, Duration::from_secs(i as u64), &event, "ns", "pod");
    }
    let again = make_event(1, 2, 3, 0);
    agg.process_event_at(&mut health, Duration::from_secs(10), &again, "ns", "pod");
    let late = make_event(1, 2, 3, 99);
    agg.process_event_at(&mut health, Duration::from_secs(11), &late, "ns", "pod");

    assert_eq!(ports(&agg.get_flows(&[])), vec![0, 2, 99]);
    assert_eq!(health.flow_evictions(), 1);
    assert_eq!(agg.events_processed(), 5);
}

#[test]
fn one_flow_in_a_hundred_is_evicted() {
    let mut health = HealthState::new();
    let mut agg = FlowAggregator::new(300, Duration::from_secs(30));
    for i in 0..300u16 {
        let event = make_event(1, 2, 3, i);
        agg.process_event_at(&mut health, Duration::from_secs(i as u64), &event, "ns", "pod");
    }
    assert_eq!(agg.active_flow_count(), 300);
    let late = make_event(1, 2, 3, 999);
    agg.process_event_at(&mut health, Duration::from_secs(500), &late, "ns", "pod");
    assert_eq!(agg.active_flow_count(), 298);
    assert_eq!(health.flow_evictions(), 3);
    let left = ports(&agg.get_flows(&[]));
    assert_eq!(left[0], 3);
    assert_eq!(left[297], 999);
}

#[test]
fn capacity_mark_has_two_watermarks() {
    let mut health = HealthState::new();
    health.set_probes_attached(true);
    let mut agg = FlowAggregator::new(100, Duration::from_secs(10));
    for i in 0..95u16 {
        assert!(health.is_healthy());
        let event = make_event(1, 2, 3, i);
        agg.process_event_at(&mut health, Duration::from_secs(i as u64), &event, "ns", "pod");
    }
    assert!(!health.is_healthy());
    assert_eq!(agg.expire_old_flows_at(&mut health, Duration::from_secs(24)), 15);
    assert_eq!(agg.active_flow_count(), 80);
    assert!(!health.is_healthy());
    assert_eq!(agg.expire_old_flows_at(&mut health, Duration::from_secs(25)), 1);
    assert_eq!(agg.active_flow_count(), 79);
    assert!(health.is_healthy());
    for i in 200..215u16 {
        let event = make_event(1, 2, 3, i);
        agg.process_event_at(&mut health, Duration::from_secs(25), &event, "ns", "pod");
    }
    assert_eq!(agg.active_flow_count(), 94);
    assert!(health.is_healthy());
    let last = make_event(1, 2, 3, 215);
    agg.process_event_at(&mut health, Duration::from_secs(25), &last, "ns", "pod");
    assert!(!health.is_healthy());
}

#[test]
fn fresh_flows_survive_expiry() {
    let mut health = HealthState::new();
    let mut agg = FlowAggregator::new(10, Duration::from_secs(30));
    for i in 0..4u16 {
        let event = make_event(1, 2, 3, i);
        agg.process_event_at(&mut health, Duration::from_secs(10 * i as u64), &event, "ns", "pod");
    }
    assert_eq!(agg.expire_old_flows_at(&mut health, Duration::from_secs(40)), 2);
    assert_eq!(ports(&agg.get_flows(&[])), vec![2, 3]);
    assert_eq!(agg.expire_old_flows_at(&mut health, Duration::from_secs(40)), 0);
    assert_eq!(agg.events_processed(), 4);
}

#[test]
fn every_part_of_a_key_keeps_flows_apart() {
    let mut health = HealthState::new();
    let mut agg = FlowAggregator::new(100, Duration::from_secs(30));
    let base = make_event(1, 2, 3, 4);
    let mut variants = vec![base; 7];
    variants[1].src_ip = 9;
    variants[2].dst_ip = 9;
    variants[3].src_port = 9;
    variants[4].dst_port = 9;
    variants[5].protocol = 9;
    variants[6].direction = 9;
    for event in &variants {
        agg.process_event_at(&mut health, Duration::from_secs(1), event, "ns", "pod");
    }
    agg.process_event_at(&mut health, Duration::from_secs(1), &base, "other", "pod");
    agg.process_event_at(&mut health, Duration::from_secs(1), &base, "ns", "other");
    assert_eq!(agg.active_flow_count(), 9);
    assert_eq!(agg.get_flows(&["ns".to_string(), "none".to_string()]).len(), 8);
    assert_eq!(agg.get_flows(&["none".to_string()]).len(), 0);
}

#[test]
fn limits_of_the_counters_are_told() {
    let mut health = HealthState::new();
    let mut agg = FlowAggregator::new(10, Duration::from_secs(30));
    let event = make_event(1, 2, 3, 4);
    assert!(agg.can_count_event(&event, "ns", "pod"));
    agg.process_event_at(&mut health, Duration::from_secs(1), &event, "ns", "pod");
    assert!(agg.can_count_event(&event, "ns", "pod"));
    assert_eq!(agg.max_flows(), 10);
    let wide = FlowAggregator::new(usize::MAX, Duration::from_secs(30));
    assert!(!wide.can_count_event(&event, "ns", "pod"));
}

#[test]
fn a_table_without_room_still_takes_one_flow() {
    let mut health = HealthState::new();
    let mut agg = FlowAggregator::new(0, Duration::from_secs(30));
    for i in 0..3u16 {
        let event = make_event(1, 2, 3, i);
        agg.process_event_at(&mut health, Duration::from_secs(i as u64), &event, "ns", "pod");
    }
    assert_eq!(ports(&agg.get_flows(&[])), vec![2]);
    assert_eq!(health.flow_evictions(), 2);
}

#[test]
fn stats_start_and_grow() {
    let mut stats = FlowStats::new(Duration::from_secs(1), 10, 60);
    assert_eq!((stats.bytes, stats.packets), (60, 1));
    stats.update(Duration::from_secs(4), 30, 40);
    assert_eq!((stats.bytes, stats.packets), (100, 2));
    assert_eq!(stats.first_seen, Duration::from_secs(1));
    assert_eq!(stats.last_seen, Duration::from_secs(4));
    assert_eq!((stats.first_seen_ns, stats.last_seen_ns), (10, 30));
}

#[test]
fn tables_up_to_the_low_watermark_expire() {
    let mut health = HealthState::new();
    health.set_flow_table_at_capacity(true);
    health.set_probes_attached(true);
    let mut agg = FlowAggregator::new(usize::MAX / 90, Duration::from_secs(30));
    assert_eq!(agg.expire_old_flows_at(&mut health, Duration::from_secs(40)), 0);
    assert!(health.is_healthy());
    assert_eq!(agg.expire_old_flows(&mut health), 0);
}
