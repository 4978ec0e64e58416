use orb8::config::{parse_env, AgentConfig, EnvSettings};
use orb8::time::Duration;

#[test]
fn test_defaults() {
    let config = AgentConfig::default();
    assert_eq!(config.grpc_port, 9090);
    assert_eq!(config.health_port, 9091);
    assert_eq!(config.max_flows, 100_000);
    assert_eq!(config.flow_timeout, Duration::from_secs(30));
    assert_eq!(config.max_pod_cache_entries, 10_000);
    assert_eq!(config.broadcast_channel_size, 1_000);
    assert_eq!(config.poll_interval, Duration::from_millis(100));
    assert_eq!(config.max_batch_size, 1_024);
    assert_eq!(config.shutdown_timeout, Duration::from_secs(10));
    assert_eq!(config.expiration_interval, Duration::from_secs(10));
    assert_eq!(config.max_query_limit, 10_000);
}

#[test]
fn test_from_env_uses_defaults_when_unset() {
    let config = AgentConfig::from_env(&EnvSettings::default());
    assert_eq!(config.grpc_port, 9090);
    assert_eq!(config.max_flows, 100_000);
}

#[test]
fn test_parse_env_with_invalid_value() {
    let setting = Some("not_a_number".to_string());
    let result = parse_env(&setting, u16::MAX as u64, 42) as u16;
    assert_eq!(result, 42);
}

#[test]
fn test_parse_env_with_valid_value() {
    let setting = Some("8080".to_string());
    let result = parse_env(&setting, u16::MAX as u64, 9090) as u16;
    assert_eq!(result, 8080);
}

#[test]
fn test_log_config_does_not_panic() {
    let config = AgentConfig::default();
    config.log_config();
}

#[test]
fn nothing_set_makes_the_defaults() {
    let config = AgentConfig::from_env(&EnvSettings::default());
    assert_eq!(config, AgentConfig::default());
}

#[test]
fn every_setting_is_read() {
    let settings = EnvSettings {
        grpc_port: Some("1".to_string()),
        health_port: Some("2".to_string()),
        max_flows: Some("3".to_string()),
        flow_timeout_secs: Some("4".to_string()),
        max_pod_cache: Some("5".to_string()),
        broadcast_channel_size: Some("6".to_string()),
        poll_interval_ms: Some("7".to_string()),
        max_batch_size: Some("8".to_string()),
        shutdown_timeout_secs: Some("9".to_string()),
        expiration_interval_secs: Some("10".to_string()),
        max_query_limit: Some("11".to_string()),
    };
    let config = AgentConfig::from_env(&settings);
    assert_eq!(config.grpc_port, 1);
    assert_eq!(config.health_port, 2);
    assert_eq!(config.max_flows, 3);
    assert_eq!(config.flow_timeout, Duration::from_secs(4));
    assert_eq!(config.max_pod_cache_entries, 5);
    assert_eq!(config.broadcast_channel_size, 6);
    assert_eq!(config.poll_interval, Duration::from_millis(7));
    assert_eq!(config.max_batch_size, 8);
    assert_eq!(config.shutdown_timeout, Duration::from_secs(9));
    assert_eq!(config.expiration_interval, Duration::from_secs(10));
    assert_eq!(config.max_query_limit, 11);
}

#[test]
fn malformed_setting_counts_as_absent() {
    for text in ["", " 80", "80 ", "-1", "65536", "0x50", "8.0", "+"] {
        let settings =
            EnvSettings { grpc_port: Some(text.to_string()), ..EnvSettings::default() };
        assert_eq!(AgentConfig::from_env(&settings), AgentConfig::default(), "{}", text);
        assert!(text.parse::<u16>().is_err());
    }
}

#[test]
fn settings_are_read_like_numbers() {
    for text in ["+80", "0080", "65535", "0"] {
        let expected: u16 = text.parse().unwrap();
        assert_eq!(parse_env(&Some(text.to_string()), u16::MAX as u64, 1), expected as u64);
    }
    assert_eq!(parse_env(&None, u16::MAX as u64, 7), 7);
    assert_eq!(parse_env(&Some("18446744073709551615".to_string()), u64::MAX, 7), u64::MAX);
    assert_eq!(parse_env(&Some("18446744073709551616".to_string()), u64::MAX, 7), 7);
}

#[test]
fn configuration_is_told_line_by_line() {
    let lines = AgentConfig::default().log_config();
    let text = lines.join("\n");
    for part in ["9090", "9091", "100000", "30s", "10000", "1000", "100ms", "1024", "10s"] {
        assert!(text.contains(part), "{}", part);
    }
}
