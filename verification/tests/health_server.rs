use orb8::health::HealthState;
use orb8::health_server::{respond, respond_to_text};

fn response(status: &str, body: &str) -> String {
    format!(
        "HTTP/1.1 {}\r\nContent-Type: text/plain\r\nContent-Length: {}\r\nConnection: close\r\n\r\n{}",
        status,
        body.len(),
        body
    )
}

fn healthy_state() -> HealthState {
    let mut health = HealthState::new();
    health.set_probes_attached(true);
    health.set_k8s_watcher_connected(true);
    health
}

#[test]
fn liveness_tells_the_condition() {
    let request = b"GET /healthz HTTP/1.1\r\nHost: agent\r\n\r\n";
    assert_eq!(respond(&healthy_state(), request), response("200 OK", "OK"));
    assert_eq!(
        respond(&HealthState::new(), request),
        response(
            "503 Service Unavailable",
            "UNHEALTHY: probes not attached; k8s watcher disconnected"
        )
    );
}

#[test]
fn full_table_fails_liveness_but_not_readiness() {
    let mut health = healthy_state();
    health.set_flow_table_at_capacity(true);
    assert_eq!(
        respond(&health, b"GET /healthz HTTP/1.1\r\n\r\n"),
        response("503 Service Unavailable", "UNHEALTHY: flow table at capacity")
    );
    assert_eq!(respond(&health, b"GET /readyz HTTP/1.1\r\n\r\n"), response("200 OK", "ready"));
}

#[test]
fn readiness_waits_for_probes() {
    assert_eq!(
        respond(&HealthState::new(), b"GET /readyz HTTP/1.1\r\n\r\n"),
        response("503 Service Unavailable", "not ready: probes not attached")
    );
}

#[test]
fn other_paths_are_not_found() {
    for request in [
        "GET / HTTP/1.1\r\n\r\n",
        "GET /healthz/ HTTP/1.1\r\n\r\n",
        "GET",
        "",
        "\r\nGET /healthz HTTP/1.1\r\n",
    ] {
        assert_eq!(
            respond_to_text(&healthy_state(), request),
            response("404 Not Found", "not found"),
            "{:?}",
            request
        );
    }
}

#[test]
fn bytes_outside_utf8_are_tolerated() {
    let mut request = b"GET /readyz HTTP/1.1\r\nX: ".to_vec();
    request.push(0xff);
    assert_eq!(respond(&healthy_state(), &request), response("200 OK", "ready"));
    assert_eq!(
        respond(&healthy_state(), &[0xff, 0xfe]),
        response("404 Not Found", "not found")
    );
}

#[test]
fn the_method_is_not_looked_at() {
    assert_eq!(
        respond_to_text(&healthy_state(), "POST  /healthz"),
        response("200 OK", "OK")
    );
}

#[test]
fn counters_are_told_with_a_good_condition() {
    let mut health = healthy_state();
    health.inc_broadcast_drops();
    health.inc_flow_evictions(12);
    assert_eq!(
        respond_to_text(&health, "GET /healthz HTTP/1.1"),
        response(
            "200 OK",
            "OK; broadcast_drops=1, flow_evictions=12, pod_cache_evictions=0"
        )
    );
}

#[test]
fn a_degraded_agent_fails_liveness() {
    let mut health = HealthState::new();
    health.set_probes_attached(true);
    assert!(health.is_healthy());
    assert_eq!(
        respond(&health, b"GET /healthz HTTP/1.1\r\n\r\n"),
        response("503 Service Unavailable", "DEGRADED: k8s watcher disconnected")
    );
    assert_eq!(respond(&health, b"GET /readyz HTTP/1.1\r\n\r\n"), response("200 OK", "ready"));
    health.set_k8s_watcher_connected(true);
    health.set_pod_cache_at_capacity(true);
    assert_eq!(
        respond(&health, b"GET /healthz HTTP/1.1\r\n\r\n"),
        response("503 Service Unavailable", "DEGRADED: pod cache at capacity")
    );
}
