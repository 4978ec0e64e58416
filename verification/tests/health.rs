use orb8::health::HealthState;

#[test]
fn test_initial_state_not_healthy() {
    let health = HealthState::new();
    assert!(!health.is_healthy());
    assert!(!health.is_ready());
}

#[test]
fn test_probes_attached_makes_ready() {
    let mut health = HealthState::new();
    health.set_probes_attached(true);
    assert!(health.is_ready());
    assert!(health.is_healthy());
}

#[test]
fn test_flow_table_at_capacity_makes_unhealthy() {
    let mut health = HealthState::new();
    health.set_probes_attached(true);
    assert!(health.is_healthy());

    health.set_flow_table_at_capacity(true);
    assert!(!health.is_healthy());
    assert!(health.is_ready());
}

#[test]
fn test_health_message_ok() {
    let mut health = HealthState::new();
    health.set_probes_attached(true);
    health.set_k8s_watcher_connected(true);
    assert_eq!(health.health_message(), "OK");
}

#[test]
fn test_health_message_with_counters() {
    let mut health = HealthState::new();
    health.set_probes_attached(true);
    health.set_k8s_watcher_connected(true);
    health.inc_broadcast_drops();
    health.inc_broadcast_drops();
    assert!(health.health_message().contains("broadcast_drops=2"));
}

#[test]
fn test_health_message_unhealthy() {
    let health = HealthState::new();
    let msg = health.health_message();
    assert!(msg.starts_with("UNHEALTHY"));
    assert!(msg.contains("probes not attached"));
}

#[test]
fn test_health_message_degraded() {
    let mut health = HealthState::new();
    health.set_probes_attached(true);
    let msg = health.health_message();
    assert!(msg.starts_with("DEGRADED"));
    assert!(msg.contains("k8s watcher disconnected"));
}

#[test]
fn test_counters() {
    let mut health = HealthState::new();
    assert_eq!(health.broadcast_drops(), 0);
    assert_eq!(health.flow_evictions(), 0);
    assert_eq!(health.pod_cache_evictions(), 0);

    health.inc_broadcast_drops();
    health.inc_flow_evictions(5);
    health.inc_pod_cache_evictions();

    assert_eq!(health.broadcast_drops(), 1);
    assert_eq!(health.flow_evictions(), 5);
    assert_eq!(health.pod_cache_evictions(), 1);
}

#[test]
fn full_pod_cache_degrades_a_healthy_agent() {
    let mut health = HealthState::new();
    health.set_probes_attached(true);
    health.set_k8s_watcher_connected(true);
    health.set_pod_cache_at_capacity(true);
    assert!(health.is_ready());
    assert!(health.is_healthy());
    assert!(health.has_issues());
    assert_eq!(health.health_message(), "DEGRADED: pod cache at capacity");
    health.set_pod_cache_at_capacity(false);
    assert!(!health.has_issues());
    assert_eq!(health.health_message(), "OK");
}

#[test]
fn counters_wrap_around() {
    let mut health = HealthState::new();
    health.inc_flow_evictions(u64::MAX);
    health.inc_flow_evictions(3);
    assert_eq!(health.flow_evictions(), 2);
}

#[test]
fn detached_probes_end_readiness() {
    let mut health = HealthState::default();
    health.set_probes_attached(true);
    health.set_probes_attached(false);
    assert!(!health.is_ready());
    assert!(!health.is_healthy());
}
