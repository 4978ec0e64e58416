use orb8::cli::{
    can_count_duration, can_show_owner, can_truncate, duration_reached, endpoint, event_row,
    flow_row, flows_report, format_bytes, parse_duration, status_report, trace_action,
    trace_heading, trace_wait, truncate, DurationError, TraceAction, TraceSignal,
};
use orb8::service::{AgentStatus, NetworkEvent, NetworkFlow};
use orb8::time::Duration;

fn reference_format(bytes: u64) -> String {
    if bytes < 1024 {
        format!("{}B", bytes)
    } else if bytes < 1024 * 1024 {
        format!("{:.1}KB", bytes as f64 / 1024.0)
    } else if bytes < 1024 * 1024 * 1024 {
        format!("{:.1}MB", bytes as f64 / (1024.0 * 1024.0))
    } else {
        format!("{:.1}GB", bytes as f64 / (1024.0 * 1024.0 * 1024.0))
    }
}

#[test]
fn bytes_are_shown_to_one_decimal() {
    assert_eq!(format_bytes(0), "0B");
    assert_eq!(format_bytes(1023), "1023B");
    assert_eq!(format_bytes(1024), "1.0KB");
    assert_eq!(format_bytes(1536), "1.5KB");
    assert_eq!(format_bytes(1_048_575), "1024.0KB");
    assert_eq!(format_bytes(1_048_576), "1.0MB");
    assert_eq!(format_bytes(5 * 1024 * 1024 * 1024), "5.0GB");
    assert_eq!(format_bytes(u64::MAX), "17179869184.0GB");
}

#[test]
fn amounts_agree_with_floating_point() {
    let mut n: u64 = 1;
    for i in 0..64u32 {
        let base = 1u64 << i;
        for d in 0..40u64 {
            let values = [base.wrapping_add(d), base.wrapping_sub(d), base.wrapping_add(base / 20 * d)];
            for value in values {
                assert_eq!(format_bytes(value), reference_format(value), "{}", value);
            }
        }
    }
    for _ in 0..20_000 {
        n = n.wrapping_mul(6_364_136_223_846_793_005).wrapping_add(1_442_695_040_888_963_407);
        for value in [n, n >> 10, n >> 24, n >> 38, n >> 50] {
            assert_eq!(format_bytes(value), reference_format(value), "{}", value);
        }
    }
    for k in 0..4_000u64 {
        let value = 1024 + 256 * k / 5;
        assert_eq!(format_bytes(value), reference_format(value), "{}", value);
    }
}

#[test]
fn halves_are_rounded_to_even() {
    assert_eq!(format_bytes(1024 + 256), "1.2KB");
    assert_eq!(format_bytes(1024 + 768), "1.8KB");
    assert_eq!(format_bytes((1 << 53) + 1), reference_format((1 << 53) + 1));
}

#[test]
fn durations_are_read() {
    assert_eq!(parse_duration("30s"), Ok(30_000));
    assert_eq!(parse_duration("5m"), Ok(300_000));
    assert_eq!(parse_duration("1h"), Ok(3_600_000));
    assert_eq!(parse_duration("500ms"), Ok(500));
    assert_eq!(parse_duration("  7s\n"), Ok(7_000));
    assert_eq!(parse_duration("+7s"), Ok(7_000));
    assert_eq!(parse_duration("7sss"), Ok(7_000));
    assert_eq!(parse_duration("7msms"), Ok(7));
}

#[test]
fn malformed_durations_are_refused() {
    for text in ["", "30", "30d", "s30", "30S"] {
        assert_eq!(parse_duration(text), Err(DurationError::InvalidFormat), "{}", text);
    }
    for text in ["s", "xs", "-1s", "1.5s", "3 s", "18446744073709551616ms", "7sm", "1mss"] {
        assert_eq!(parse_duration(text), Err(DurationError::InvalidNumber), "{}", text);
    }
    assert_eq!(
        DurationError::InvalidFormat.message(),
        "Invalid duration format. Use: 30s, 5m, 1h, 500ms"
    );
    assert_eq!(DurationError::InvalidNumber.message(), "Invalid duration number");
}

#[test]
fn long_durations_are_told() {
    assert!(can_count_duration("18446744073709551615ms"));
    assert!(!can_count_duration("18446744073709551615s"));
    assert!(can_count_duration("18446744073709551s"));
    assert!(!can_count_duration("18446744073709552s"));
    assert!(can_count_duration("nonsense"));
    assert_eq!(parse_duration("18446744073709551615ms"), Ok(u64::MAX));
}

#[test]
fn traces_end_in_time() {
    assert!(!duration_reached(None, &Duration::from_secs(1_000_000)));
    assert!(!duration_reached(Some(1_000), &Duration::from_millis(999)));
    assert!(duration_reached(Some(1_000), &Duration::from_millis(1_000)));
    assert!(duration_reached(Some(0), &Duration::from_millis(0)));
}

#[test]
fn long_texts_are_shortened() {
    assert_eq!(truncate("nginx", 12), "nginx");
    assert_eq!(truncate("exactly-12ch", 12), "exactly-12ch");
    assert_eq!(truncate("thirteen-char", 12), "thirteen-...");
    assert_eq!(truncate("abcd", 3), "...");
    assert_eq!(truncate("", 0), "");
    assert_eq!(truncate("\u{e9}\u{e9}\u{e9}\u{e9}\u{e9}", 7), "\u{e9}\u{e9}...");
}

#[test]
fn characters_are_not_cut() {
    assert!(can_truncate("\u{e9}\u{e9}\u{e9}\u{e9}\u{e9}", 7));
    assert!(!can_truncate("\u{e9}\u{e9}\u{e9}\u{e9}\u{e9}", 8));
    assert!(can_truncate("\u{e9}\u{e9}\u{e9}\u{e9}\u{e9}", 10));
    assert!(!can_truncate("abc", 2));
    assert!(can_truncate("abcd", 3));
}

fn flow(namespace: &str, pod: &str) -> NetworkFlow {
    NetworkFlow {
        namespace: namespace.to_string(),
        pod_name: pod.to_string(),
        src_ip: "10.0.0.1".to_string(),
        dst_ip: "10.0.0.2".to_string(),
        src_port: 8080,
        dst_port: 443,
        protocol: "TCP".to_string(),
        direction: "egress".to_string(),
        bytes: 1536,
        packets: 12,
        first_seen_ns: 0,
        last_seen_ns: 0,
    }
}

fn reference_row(owner: &str, last: &str) -> String {
    format!(
        "{:<20} {:<15} {:>21} {:>21} {:>8} {:>9} {:>8}",
        owner, "TCP", "10.0.0.1:8080", "10.0.0.2:443", "egress", "1.5KB", last
    )
}

#[test]
fn flows_are_shown_as_rows() {
    assert_eq!(flow_row(&flow("default", "nginx")), reference_row("default/nginx", "12"));
    assert_eq!(
        flow_row(&flow("kube-system", "coredns-5d78c9869d-abcde")),
        reference_row("kube-system/cored...", "12")
    );
    assert!(can_show_owner("default", "nginx"));
    assert!(!can_show_owner("default", "\u{e9}\u{e9}\u{e9}\u{e9}\u{e9}\u{e9}\u{e9}"));
    assert!(!can_show_owner("\u{e9}\u{e9}\u{e9}\u{e9}\u{e9}\u{e9}\u{e9}\u{e9}\u{e9}\u{e9}", "pod"));
}

#[test]
fn packets_are_shown_as_rows() {
    let event = NetworkEvent {
        namespace: "default".to_string(),
        pod_name: "nginx".to_string(),
        src_ip: "10.0.0.1".to_string(),
        dst_ip: "10.0.0.2".to_string(),
        src_port: 1,
        dst_port: 65535,
        protocol: "UDP".to_string(),
        direction: "ingress".to_string(),
        bytes: 64,
        timestamp_ns: 0,
    };
    assert_eq!(
        event_row(&event, "12:34:56.789"),
        format!(
            "{:<20} {:<15} {:>21} {:>21} {:>8} {:>9} {:>7}",
            "default/nginx", "UDP", "10.0.0.1:1", "10.0.0.2:65535", "ingress", "64B", "12:34:56.789"
        )
    );
}

#[test]
fn answers_are_shown_as_tables() {
    assert_eq!(flows_report(&vec![]), vec!["No flows found."]);
    let report = flows_report(&vec![flow("a", "x"), flow("b", "y")]);
    assert_eq!(
        report,
        vec![
            format!(
                "{:<20} {:<15} {:>21} {:>21} {:>8} {:>9} {:>8}",
                "NAMESPACE/POD", "PROTOCOL", "SOURCE", "DESTINATION", "DIR", "BYTES", "PACKETS"
            ),
            "-".repeat(110),
            reference_row("a/x", "12"),
            reference_row("b/y", "12"),
        ]
    );
}

#[test]
fn traces_are_announced() {
    let heading = format!(
        "{:<20} {:<15} {:>21} {:>21} {:>8} {:>9} {:>7}",
        "NAMESPACE/POD", "PROTOCOL", "SOURCE", "DESTINATION", "DIR", "BYTES", "TIME"
    );
    assert_eq!(
        trace_heading("localhost:9090", &vec![]),
        vec![
            "Streaming network events from localhost:9090...".to_string(),
            heading.clone(),
            "-".repeat(110),
        ]
    );
    assert_eq!(
        trace_heading("n:1", &vec!["a".to_string(), "b".to_string()])[0],
        "Streaming network events from n:1 (namespaces: a, b)..."
    );
}

#[test]
fn status_is_shown_line_by_line() {
    let mut status = AgentStatus {
        node_name: "node-1".to_string(),
        version: "0.1.0".to_string(),
        healthy: true,
        health_message: "OK".to_string(),
        events_processed: 10,
        events_dropped: 2,
        pods_tracked: 3,
        active_flows: 4,
        uptime_seconds: 65,
    };
    assert_eq!(
        status_report(&status),
        vec![
            "Agent Status".to_string(),
            "-".repeat(40),
            "Node:             node-1".to_string(),
            "Version:          0.1.0".to_string(),
            "Health:           OK".to_string(),
            "Health Message:   OK".to_string(),
            "Uptime:           65s".to_string(),
            "Events Processed: 10".to_string(),
            "Events Dropped:   2".to_string(),
            "Pods Tracked:     3".to_string(),
            "Active Flows:     4".to_string(),
        ]
    );
    status.healthy = false;
    status.uptime_seconds = i64::MIN;
    let lines = status_report(&status);
    assert_eq!(lines[4], "Health:           UNHEALTHY");
    assert_eq!(lines[6], "Uptime:           -9223372036854775808s");
}

#[test]
fn agents_are_reached_over_http() {
    assert_eq!(endpoint("localhost:9090"), "http://localhost:9090");
}

#[test]
fn traces_wait_for_the_rest_of_their_time() {
    let second = Some(1_000);
    assert_eq!(trace_wait(None, &Duration::from_secs(5)), None);
    assert_eq!(
        trace_wait(second, &Duration::from_millis(400)),
        Some(Duration::from_millis(600))
    );
    assert_eq!(trace_wait(second, &Duration::from_secs(1)), Some(Duration::from_millis(0)));
    assert_eq!(trace_wait(second, &Duration::from_secs(9)), Some(Duration::from_millis(0)));
}

#[test]
fn traces_act_on_what_they_meet() {
    let early = Duration::from_millis(999);
    let late = Duration::from_millis(1_000);
    let limit = Some(1_000);
    assert_eq!(trace_action(limit, &early, TraceSignal::Packet), TraceAction::Show);
    assert_eq!(trace_action(None, &late, TraceSignal::Packet), TraceAction::Show);
    assert_eq!(trace_action(limit, &late, TraceSignal::Packet), TraceAction::TellTimeIsUp);
    assert_eq!(trace_action(limit, &early, TraceSignal::Failed), TraceAction::TellFailure);
    assert_eq!(trace_action(limit, &late, TraceSignal::Failed), TraceAction::TellTimeIsUp);
    assert_eq!(trace_action(limit, &late, TraceSignal::TimedOut), TraceAction::TellTimeIsUp);
    assert_eq!(trace_action(limit, &late, TraceSignal::Ended), TraceAction::Stop);
    assert_eq!(trace_action(None, &early, TraceSignal::Ended), TraceAction::Stop);
}
