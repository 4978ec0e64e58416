//! The agent's configuration, read from settings that may be absent or
//! malformed.
use crate::text;
use crate::text::{parse_unsigned, push_decimal};
use crate::time;
use crate::time::Duration;
use vstd::prelude::*;

verus! {

/// The configuration of the agent.
#[derive(Clone, Copy, Debug, PartialEq, Eq, Structural)]
pub struct AgentConfig {
    pub grpc_port: u16,
    pub health_port: u16,
    pub max_flows: usize,
    pub flow_timeout: Duration,
    pub max_pod_cache_entries: usize,
    pub broadcast_channel_size: usize,
    pub poll_interval: Duration,
    pub max_batch_size: usize,
    pub shutdown_timeout: Duration,
    pub expiration_interval: Duration,
    pub max_query_limit: usize,
}

/// The values of the agent's environment variables, as far as they are set.
#[derive(Debug, Default)]
pub struct EnvSettings {
    /// `ORB8_GRPC_PORT`
    pub grpc_port: Option<String>,
    /// `ORB8_HEALTH_PORT`
    pub health_port: Option<String>,
    /// `ORB8_MAX_FLOWS`
    pub max_flows: Option<String>,
    /// `ORB8_FLOW_TIMEOUT_SECS`
    pub flow_timeout_secs: Option<String>,
    /// `ORB8_MAX_POD_CACHE`
    pub max_pod_cache: Option<String>,
    /// `ORB8_BROADCAST_CHANNEL_SIZE`
    pub broadcast_channel_size: Option<String>,
    /// `ORB8_POLL_INTERVAL_MS`
    pub poll_interval_ms: Option<String>,
    /// `ORB8_MAX_BATCH_SIZE`
    pub max_batch_size: Option<String>,
    /// `ORB8_SHUTDOWN_TIMEOUT_SECS`
    pub shutdown_timeout_secs: Option<String>,
    /// `ORB8_EXPIRATION_INTERVAL_SECS`
    pub expiration_interval_secs: Option<String>,
    /// `ORB8_MAX_QUERY_LIMIT`
    pub max_query_limit: Option<String>,
}

/// The number that a setting stands for: what it writes, if it is set and
/// writes an unsigned number of at most `max`, and `default` otherwise.
pub open spec fn setting_value(setting: Option<String>, max: nat, default: nat) -> nat {
    match setting {
        Some(val) => match text::parsed_unsigned(val@, max) {
            Some(n) => n,
            None => default,
        },
        None => default,
    }
}

/// A span of whole seconds.
pub open spec fn seconds(n: nat) -> Duration {
    Duration { nanos: (n * 1_000_000_000) as u128 }
}

/// A span of whole milliseconds.
pub open spec fn milliseconds(n: nat) -> Duration {
    Duration { nanos: (n * 1_000_000) as u128 }
}

/// The configuration that applies where nothing is set.
pub open spec fn default_config() -> AgentConfig {
    AgentConfig {
        grpc_port: 9090,
        health_port: 9091,
        max_flows: 100_000,
        flow_timeout: seconds(30),
        max_pod_cache_entries: 10_000,
        broadcast_channel_size: 1_000,
        poll_interval: milliseconds(100),
        max_batch_size: 1_024,
        shutdown_timeout: seconds(10),
        expiration_interval: seconds(10),
        max_query_limit: 10_000,
    }
}

/// The configuration that some settings make.
pub open spec fn config_from(settings: EnvSettings) -> AgentConfig {
    let word = u64::MAX as nat;
    let size = usize::MAX as nat;
    let port = u16::MAX as nat;
    AgentConfig {
        grpc_port: setting_value(settings.grpc_port, port, 9090) as u16,
        health_port: setting_value(settings.health_port, port, 9091) as u16,
        max_flows: setting_value(settings.max_flows, size, 100_000) as usize,
        flow_timeout: seconds(setting_value(settings.flow_timeout_secs, word, 30)),
        max_pod_cache_entries: setting_value(settings.max_pod_cache, size, 10_000) as usize,
        broadcast_channel_size: setting_value(
            settings.broadcast_channel_size,
            size,
            1_000,
        ) as usize,
        poll_interval: milliseconds(setting_value(settings.poll_interval_ms, word, 100)),
        max_batch_size: setting_value(settings.max_batch_size, size, 1_024) as usize,
        shutdown_timeout: seconds(setting_value(settings.shutdown_timeout_secs, word, 10)),
        expiration_interval: seconds(setting_value(settings.expiration_interval_secs, word, 10)),
        max_query_limit: setting_value(settings.max_query_limit, size, 10_000) as usize,
    }
}

/// The number that a setting stands for.
pub fn parse_env(setting: &Option<String>, max: u64, default: u64) -> (r: u64)
    ensures
        r == setting_value(*setting, max as nat, default as nat),
        default <= max ==> r <= max,
{
    match setting {
        Some(val) => match parse_unsigned(val.as_str(), max) {
            Some(parsed) => parsed,
            None => default,
        },
        None => default,
    }
}

/// A setting that is a port number.
fn port_setting(setting: &Option<String>, default: u16) -> (r: u16)
    ensures
        r == setting_value(*setting, u16::MAX as nat, default as nat),
{
    parse_env(setting, u16::MAX as u64, default as u64) as u16
}

/// A setting that is a number of things in memory.
fn size_setting(setting: &Option<String>, default: usize) -> (r: usize)
    ensures
        r == setting_value(*setting, usize::MAX as nat, default as nat),
{
    parse_env(setting, usize::MAX as u64, default as u64) as usize
}

/// A setting that is a number of seconds or milliseconds.
fn span_setting(setting: &Option<String>, default: u64) -> (r: u64)
    ensures
        r == setting_value(*setting, u64::MAX as nat, default as nat),
{
    parse_env(setting, u64::MAX, default)
}

impl AgentConfig {
    /// The configuration that the environment makes, with the default for
    /// every setting that is absent or malformed.
    pub fn from_env(settings: &EnvSettings) -> (r: Self)
        ensures
            r == config_from(*settings),
    {
        AgentConfig {
            grpc_port: port_setting(&settings.grpc_port, 9090),
            health_port: port_setting(&settings.health_port, 9091),
            max_flows: size_setting(&settings.max_flows, 100_000),
            flow_timeout: Duration::from_secs(span_setting(&settings.flow_timeout_secs, 30)),
            max_pod_cache_entries: size_setting(&settings.max_pod_cache, 10_000),
            broadcast_channel_size: size_setting(&settings.broadcast_channel_size, 1_000),
            poll_interval: Duration::from_millis(span_setting(&settings.poll_interval_ms, 100)),
            max_batch_size: size_setting(&settings.max_batch_size, 1_024),
            shutdown_timeout: Duration::from_secs(
                span_setting(&settings.shutdown_timeout_secs, 10),
            ),
            expiration_interval: Duration::from_secs(
                span_setting(&settings.expiration_interval_secs, 10),
            ),
            max_query_limit: size_setting(&settings.max_query_limit, 10_000),
        }
    }

    /// The lines that report the configuration.
    pub fn log_config(&self) -> (r: Vec<String>)
        ensures
            text::texts(r@) == config_lines(*self),
    {
        let mut lines: Vec<String> = Vec::new();
        lines.push("Agent configuration:".to_owned());
        assert(text::texts(lines@) =~= seq!["Agent configuration:"@]);
        push_number(&mut lines, "  gRPC port: ", self.grpc_port as u64);
        push_number(&mut lines, "  Health port: ", self.health_port as u64);
        push_number(&mut lines, "  Max flows: ", self.max_flows as u64);
        push_span(&mut lines, "  Flow timeout: ", &self.flow_timeout);
        push_number(&mut lines, "  Max pod cache entries: ", self.max_pod_cache_entries as u64);
        push_number(&mut lines, "  Broadcast channel size: ", self.broadcast_channel_size as u64);
        push_span(&mut lines, "  Poll interval: ", &self.poll_interval);
        push_number(&mut lines, "  Max batch size: ", self.max_batch_size as u64);
        push_span(&mut lines, "  Shutdown timeout: ", &self.shutdown_timeout);
        push_span(&mut lines, "  Expiration interval: ", &self.expiration_interval);
        push_number(&mut lines, "  Max query limit: ", self.max_query_limit as u64);
        assert(text::texts(lines@) =~= config_lines(*self));
        lines
    }
}

/// A label with a number behind it.
pub open spec fn number_line(label: Seq<char>, n: nat) -> Seq<char> {
    label + text::decimal(n)
}

/// A label with a span of time behind it.
pub open spec fn span_line(label: Seq<char>, span: Duration) -> Seq<char> {
    label + time::span_text(span.nanos as nat)
}

/// The report on a configuration, line by line.
pub open spec fn config_lines(c: AgentConfig) -> Seq<Seq<char>> {
    seq![
        "Agent configuration:"@,
        number_line("  gRPC port: "@, c.grpc_port as nat),
        number_line("  Health port: "@, c.health_port as nat),
        number_line("  Max flows: "@, c.max_flows as nat),
        span_line("  Flow timeout: "@, c.flow_timeout),
        number_line("  Max pod cache entries: "@, c.max_pod_cache_entries as nat),
        number_line("  Broadcast channel size: "@, c.broadcast_channel_size as nat),
        span_line("  Poll interval: "@, c.poll_interval),
        number_line("  Max batch size: "@, c.max_batch_size as nat),
        span_line("  Shutdown timeout: "@, c.shutdown_timeout),
        span_line("  Expiration interval: "@, c.expiration_interval),
        number_line("  Max query limit: "@, c.max_query_limit as nat),
    ]
}

/// Appends a line with a number.
fn push_number(lines: &mut Vec<String>, label: &str, n: u64)
    ensures
        text::texts(final(lines)@) == text::texts(old(lines)@).push(
            number_line(label@, n as nat),
        ),
{
    let mut line: String = label.to_owned();
    push_decimal(&mut line, n as u128);
    lines.push(line);
    assert(text::texts(lines@) =~= text::texts(old(lines)@).push(number_line(label@, n as nat)));
}

/// Appends a line with a span of time.
fn push_span(lines: &mut Vec<String>, label: &str, span: &Duration)
    ensures
        text::texts(final(lines)@) == text::texts(old(lines)@).push(span_line(label@, *span)),
{
    let mut line: String = label.to_owned();
    let value: String = span.describe();
    line.append(value.as_str());
    lines.push(line);
    assert(text::texts(lines@) =~= text::texts(old(lines)@).push(span_line(label@, *span)));
}

impl Default for AgentConfig {
    fn default() -> (r: Self)
        ensures
            r == default_config(),
    {
        AgentConfig {
            grpc_port: 9090,
            health_port: 9091,
            max_flows: 100_000,
            flow_timeout: Duration::from_secs(30),
            max_pod_cache_entries: 10_000,
            broadcast_channel_size: 1_000,
            poll_interval: Duration::from_millis(100),
            max_batch_size: 1_024,
            shutdown_timeout: Duration::from_secs(10),
            expiration_interval: Duration::from_secs(10),
            max_query_limit: 10_000,
        }
    }
}

/// Where no variable is set, the environment makes the default configuration.
pub proof fn law_nothing_set_makes_the_defaults(settings: EnvSettings)
    requires
        settings.grpc_port is None,
        settings.health_port is None,
        settings.max_flows is None,
        settings.flow_timeout_secs is None,
        settings.max_pod_cache is None,
        settings.broadcast_channel_size is None,
        settings.poll_interval_ms is None,
        settings.max_batch_size is None,
        settings.shutdown_timeout_secs is None,
        settings.expiration_interval_secs is None,
        settings.max_query_limit is None,
    ensures
        config_from(settings) == default_config(),
{
}

/// A malformed setting counts as one that is absent, and a well-formed one
/// overrides the default.
pub proof fn law_malformed_setting_counts_as_absent(val: String, max: nat, default: nat)
    ensures
        text::parsed_unsigned(val@, max) is None ==> setting_value(Some(val), max, default)
            == setting_value(None, max, default),
        text::parsed_unsigned(val@, max) matches Some(n) ==> setting_value(Some(val), max, default)
            == n,
{
}

/// A number that is written in decimal is taken as it is, where it fits.
pub proof fn law_written_number_is_taken(val: String, n: nat, max: nat, default: nat)
    requires
        val@ == text::decimal(n),
        n <= max,
    ensures
        setting_value(Some(val), max, default) == n,
{
    text::law_decimal_is_read_back(n, max);
}

/// Whether a setting of at most `max` makes `value`, and `default` where it is
/// absent or malformed.
pub open spec fn makes(setting: Option<String>, max: int, default: int, value: int) -> bool {
    &&& setting is None ==> value == default
    &&& setting matches Some(val) ==> {
        &&& text::parsed_unsigned(val@, max as nat) is None ==> value == default
        &&& text::parsed_unsigned(val@, max as nat) matches Some(n) ==> value == n
    }
}

/// Each setting makes its own part of the configuration and no other, within
/// the range of the part and with the part's own default and unit.
pub proof fn law_each_setting_makes_its_part(settings: EnvSettings)
    ensures
        ({
            let c = config_from(settings);
            let size = usize::MAX as int;
            let word = u64::MAX as int;
            &&& makes(settings.grpc_port, 65_535, 9_090, c.grpc_port as int)
            &&& makes(settings.health_port, 65_535, 9_091, c.health_port as int)
            &&& makes(settings.max_flows, size, 100_000, c.max_flows as int)
            &&& makes(settings.max_pod_cache, size, 10_000, c.max_pod_cache_entries as int)
            &&& makes(
                settings.broadcast_channel_size,
                size,
                1_000,
                c.broadcast_channel_size as int,
            )
            &&& makes(settings.max_batch_size, size, 1_024, c.max_batch_size as int)
            &&& makes(settings.max_query_limit, size, 10_000, c.max_query_limit as int)
            &&& makes(
                settings.flow_timeout_secs,
                word,
                30,
                c.flow_timeout.nanos as int / 1_000_000_000,
            )
            &&& makes(
                settings.poll_interval_ms,
                word,
                100,
                c.poll_interval.nanos as int / 1_000_000,
            )
            &&& makes(
                settings.shutdown_timeout_secs,
                word,
                10,
                c.shutdown_timeout.nanos as int / 1_000_000_000,
            )
            &&& makes(
                settings.expiration_interval_secs,
                word,
                10,
                c.expiration_interval.nanos as int / 1_000_000_000,
            )
            &&& c.flow_timeout.nanos as int % 1_000_000_000 == 0
            &&& c.poll_interval.nanos as int % 1_000_000 == 0
            &&& c.shutdown_timeout.nanos as int % 1_000_000_000 == 0
            &&& c.expiration_interval.nanos as int % 1_000_000_000 == 0
        }),
{
}

/// The defaults, part by part.
pub proof fn law_defaults()
    ensures
        default_config().grpc_port == 9_090,
        default_config().health_port == 9_091,
        default_config().max_flows == 100_000,
        default_config().flow_timeout.nanos == 30_000_000_000,
        default_config().max_pod_cache_entries == 10_000,
        default_config().broadcast_channel_size == 1_000,
        default_config().poll_interval.nanos == 100_000_000,
        default_config().max_batch_size == 1_024,
        default_config().shutdown_timeout.nanos == 10_000_000_000,
        default_config().expiration_interval.nanos == 10_000_000_000,
        default_config().max_query_limit == 10_000,
{
}

/// The report on a configuration has a heading and a line for each part, which
/// ends with the part's value.
pub proof fn law_report_tells_every_part(c: AgentConfig)
    ensures
        ({
            let lines = config_lines(c);
            &&& lines.len() == 12
            &&& lines[0] == "Agent configuration:"@
            &&& lines[1] == "  gRPC port: "@ + text::decimal(c.grpc_port as nat)
            &&& lines[2] == "  Health port: "@ + text::decimal(c.health_port as nat)
            &&& lines[3] == "  Max flows: "@ + text::decimal(c.max_flows as nat)
            &&& lines[4] == "  Flow timeout: "@ + time::span_text(c.flow_timeout.nanos as nat)
            &&& lines[5] == "  Max pod cache entries: "@ + text::decimal(
                c.max_pod_cache_entries as nat,
            )
            &&& lines[6] == "  Broadcast channel size: "@ + text::decimal(
                c.broadcast_channel_size as nat,
            )
            &&& lines[7] == "  Poll interval: "@ + time::span_text(c.poll_interval.nanos as nat)
            &&& lines[8] == "  Max batch size: "@ + text::decimal(c.max_batch_size as nat)
            &&& lines[9] == "  Shutdown timeout: "@ + time::span_text(
                c.shutdown_timeout.nanos as nat,
            )
            &&& lines[10] == "  Expiration interval: "@ + time::span_text(
                c.expiration_interval.nanos as nat,
            )
            &&& lines[11] == "  Max query limit: "@ + text::decimal(c.max_query_limit as nat)
        }),
{
}

} // verus!
