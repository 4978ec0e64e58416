//! What the command line client reads and shows.
use crate::service::{AgentStatus, NetworkEvent, NetworkFlow};
use crate::text;
use crate::text::{
    has_suffix, join, parse_unsigned, push_decimal, push_padded_left, push_padded_right,
    push_repeated, trim, trim_suffixes,
};
use crate::time::Duration;
use vstd::prelude::*;

verus! {

/// Whether `s` can be shown in `max_len` bytes: it is short enough, or there
/// is room for an ellipsis behind whole characters.
pub open spec fn fits(s: Seq<char>, max_len: nat) -> bool {
    let bytes = vstd::utf8::encode_utf8(s);
    bytes.len() <= max_len || (max_len >= 3 && vstd::utf8::is_char_boundary(bytes, max_len - 3))
}

/// `s` where it takes at most `max_len` bytes, and otherwise its beginning
/// with an ellipsis.
pub open spec fn truncated(s: Seq<char>, max_len: nat) -> Seq<char> {
    let bytes = vstd::utf8::encode_utf8(s);
    if bytes.len() <= max_len {
        s
    } else {
        vstd::utf8::decode_utf8(bytes.take(max_len - 3)) + "..."@
    }
}

/// Whether a text can be shown in a number of bytes.
pub fn can_truncate(s: &str, max_len: usize) -> (r: bool)
    ensures
        r == fits(s@, max_len as nat),
{
    s.as_bytes().len() <= max_len || (max_len >= 3 && s.is_char_boundary(max_len - 3))
}

/// Shows a text in at most `max_len` bytes.
pub fn truncate(s: &str, max_len: usize) -> (r: String)
    requires
        fits(s@, max_len as nat),
    ensures
        r@ == truncated(s@, max_len as nat),
{
    if s.as_bytes().len() <= max_len {
        s.to_owned()
    } else {
        let (head, _tail) = s.split_at(max_len - 3);
        proof {
            let bytes = vstd::utf8::encode_utf8(s@);
            assert(bytes.subrange(0, max_len - 3) =~= bytes.take(max_len - 3));
            vstd::utf8::encode_utf8_decode_utf8(head@);
        }
        let mut r: String = head.to_owned();
        r.append("...");
        r
    }
}

/// `num / den`, rounded to the nearest whole number, and to the even one where
/// two are equally near.
pub open spec fn nearest(num: nat, den: nat) -> nat {
    let down = num / den;
    let rest = num % den;
    if 2 * rest > den || (2 * rest == den && down % 2 == 1) {
        down + 1
    } else {
        down
    }
}

/// Divides and rounds to the nearest whole number.
fn divide_nearest(num: u128, den: u128) -> (r: u128)
    requires
        0 < den <= 0x1_0000_0000,
    ensures
        r == nearest(num as nat, den as nat),
{
    let down: u128 = num / den;
    let rest: u128 = num % den;
    if den > 1 {
        assert(down < num || num == 0) by (nonlinear_arith)
            requires
                down == num / den,
                den > 1,
        ;
    }
    if 2 * rest > den || (2 * rest == den && down % 2 == 1) {
        down + 1
    } else {
        down
    }
}

/// The least power-of-two multiple of `unit` by which `n` can be counted in 53
/// bits.
pub open spec fn precision_from(n: nat, unit: nat) -> nat
    decreases n - unit,
{
    if n < 0x20_0000_0000_0000 * unit || unit == 0 {
        unit
    } else {
        precision_from(n, 2 * unit)
    }
}

/// The distance between neighbouring numbers of 53 significant bits at `n`.
pub open spec fn precision(n: nat) -> nat {
    precision_from(n, 1)
}

/// `n` with 53 significant bits, rounded to the nearest such number.
pub open spec fn in_double_precision(n: nat) -> nat {
    nearest(n, precision(n)) * precision(n)
}

/// Rounds a number to 53 significant bits.
fn to_double_precision(n: u64) -> (r: u128)
    ensures
        r == in_double_precision(n as nat),
        r <= 0x1_0000_0000_0000_0000,
{
    let mut unit: u128 = 1;
    let mut limit: u128 = 0x20_0000_0000_0000;
    let wide: u128 = n as u128;
    while wide >= limit
        invariant
            wide == n,
            unit == 1 || unit == 2 || unit == 4 || unit == 8 || unit == 16 || unit == 32 || unit == 64
                || unit == 128 || unit == 256 || unit == 512 || unit == 1024 || unit == 2048,
            limit == 0x20_0000_0000_0000 * unit,
            precision_from(wide as nat, unit as nat) == precision_from(wide as nat, 1),
        decreases 0x1_0000_0000_0000_0000 - limit,
    {
        unit = unit * 2;
        limit = limit * 2;
    }
    let count: u128 = divide_nearest(wide, unit);
    assert(wide / unit < 0x20_0000_0000_0000) by (nonlinear_arith)
        requires
            wide < 0x20_0000_0000_0000 * unit,
            unit > 0,
    ;
    assert(count * unit <= 0x1_0000_0000_0000_0000) by (nonlinear_arith)
        requires
            count <= 0x20_0000_0000_0000,
            unit <= 2048,
    ;
    count * unit
}

/// An amount of `n` units of `size` bytes each, to one decimal.
pub open spec fn amount_text(bytes: nat, size: nat) -> Seq<char> {
    let tenths = nearest(10 * bytes, size);
    text::decimal(tenths / 10) + "."@ + text::decimal(tenths % 10)
}

/// A number of bytes, in the largest unit that it reaches.
pub open spec fn bytes_text(bytes: nat) -> Seq<char> {
    if bytes < 0x400 {
        text::decimal(bytes) + "B"@
    } else if bytes < 0x10_0000 {
        amount_text(bytes, 0x400) + "KB"@
    } else if bytes < 0x4000_0000 {
        amount_text(bytes, 0x10_0000) + "MB"@
    } else {
        amount_text(in_double_precision(bytes), 0x4000_0000) + "GB"@
    }
}

/// Appends an amount to one decimal.
fn push_amount(out: &mut String, bytes: u128, size: u128)
    requires
        bytes <= 0x1_0000_0000_0000_0000,
        0 < size <= 0x4000_0000,
    ensures
        final(out)@ == old(out)@ + amount_text(bytes as nat, size as nat),
{
    let tenths: u128 = divide_nearest(10 * bytes, size);
    push_decimal(out, tenths / 10);
    out.append(".");
    push_decimal(out, tenths % 10);
    assert(out@ =~= old(out)@ + amount_text(bytes as nat, size as nat));
}

/// Shows a number of bytes, to one decimal of the largest unit that it
/// reaches. Beyond 53 significant bits the number is rounded first.
pub fn format_bytes(bytes: u64) -> (r: String)
    ensures
        r@ == bytes_text(bytes as nat),
{
    let mut r: String = String::new();
    if bytes < 0x400 {
        push_decimal(&mut r, bytes as u128);
        r.append("B");
    } else if bytes < 0x10_0000 {
        push_amount(&mut r, bytes as u128, 0x400);
        r.append("KB");
    } else if bytes < 0x4000_0000 {
        push_amount(&mut r, bytes as u128, 0x10_0000);
        r.append("MB");
    } else {
        push_amount(&mut r, to_double_precision(bytes), 0x4000_0000);
        r.append("GB");
    }
    assert(r@ =~= bytes_text(bytes as nat));
    r
}

/// Why a duration is not accepted.
#[derive(Debug, Clone, Copy, PartialEq, Eq, Structural)]
pub enum DurationError {
    /// It ends in no known unit.
    InvalidFormat,
    /// What stands before the unit is no number.
    InvalidNumber,
}

impl DurationError {
    /// What is said about the duration.
    pub fn message(&self) -> (r: &'static str)
        ensures
            r@ == (match *self {
                DurationError::InvalidFormat => "Invalid duration format. Use: 30s, 5m, 1h, 500ms"@,
                DurationError::InvalidNumber => "Invalid duration number"@,
            }),
    {
        match *self {
            DurationError::InvalidFormat => "Invalid duration format. Use: 30s, 5m, 1h, 500ms",
            DurationError::InvalidNumber => "Invalid duration number",
        }
    }
}

/// The number of milliseconds in the unit that `s` ends with, and what stands
/// before it.
pub open spec fn duration_parts(s: Seq<char>) -> Option<(Seq<char>, nat)> {
    if text::ends_with(s, "ms"@) {
        Some((text::without_suffixes(s, "ms"@), 1))
    } else if text::ends_with(s, "s"@) {
        Some((text::without_suffixes(s, "s"@), 1_000))
    } else if text::ends_with(s, "m"@) {
        Some((text::without_suffixes(s, "m"@), 60_000))
    } else if text::ends_with(s, "h"@) {
        Some((text::without_suffixes(s, "h"@), 3_600_000))
    } else {
        None
    }
}

/// The milliseconds that a duration writes, or why it is not accepted.
pub open spec fn duration_millis(s: Seq<char>) -> Result<nat, DurationError> {
    match duration_parts(text::trimmed(s)) {
        None => Err(DurationError::InvalidFormat),
        Some((digits, unit)) => match text::parsed_unsigned(digits, u64::MAX as nat) {
            None => Err(DurationError::InvalidNumber),
            Some(value) => Ok(value * unit),
        },
    }
}

/// Splits a duration into its number and its unit.
fn split_duration(s: &str) -> (r: Result<(u64, u64), DurationError>)
    ensures
        match r {
            Ok((value, unit)) => {
                &&& 1 <= unit <= 3_600_000
                &&& duration_millis(s@) == Ok::<nat, DurationError>(value as nat * unit as nat)
            },
            Err(e) => duration_millis(s@) == Err::<nat, DurationError>(e),
        },
{
    proof {
        reveal_strlit("ms");
        reveal_strlit("s");
        reveal_strlit("m");
        reveal_strlit("h");
    }
    let s: &str = trim(s);
    let (digits, unit): (&str, u64) = if has_suffix(s, "ms") {
        (trim_suffixes(s, "ms"), 1)
    } else if has_suffix(s, "s") {
        (trim_suffixes(s, "s"), 1_000)
    } else if has_suffix(s, "m") {
        (trim_suffixes(s, "m"), 60_000)
    } else if has_suffix(s, "h") {
        (trim_suffixes(s, "h"), 3_600_000)
    } else {
        return Err(DurationError::InvalidFormat);
    };
    match parse_unsigned(digits, u64::MAX) {
        Some(value) => Ok((value, unit)),
        None => Err(DurationError::InvalidNumber),
    }
}

/// Whether the milliseconds of a duration can be counted, if it is accepted.
pub fn can_count_duration(s: &str) -> (r: bool)
    ensures
        r == (duration_millis(s@) matches Ok(millis) ==> millis <= u64::MAX),
{
    match split_duration(s) {
        Ok((value, unit)) => {
            let limit: u64 = u64::MAX / unit;
            proof {
                assert(value <= limit <==> value * unit <= u64::MAX) by (nonlinear_arith)
                    requires
                        limit == u64::MAX / unit,
                        unit > 0,
                ;
            }
            value <= limit
        },
        Err(_) => true,
    }
}

/// Reads a duration, a number with the unit `ms`, `s`, `m` or `h`, as
/// milliseconds.
pub fn parse_duration(s: &str) -> (r: Result<u64, DurationError>)
    requires
        duration_millis(s@) matches Ok(millis) ==> millis <= u64::MAX,
    ensures
        match r {
            Ok(millis) => duration_millis(s@) == Ok::<nat, DurationError>(millis as nat),
            Err(e) => duration_millis(s@) == Err::<nat, DurationError>(e),
        },
{
    match split_duration(s) {
        Ok((value, unit)) => Ok(value * unit),
        Err(e) => Err(e),
    }
}

/// Whether the time of a trace is up, where it may run for `limit`
/// milliseconds. The time is counted in 64 bits.
pub open spec fn time_is_up(limit: Option<u64>, elapsed: Duration) -> bool {
    limit matches Some(max) && (elapsed.nanos / 1_000_000) % 0x1_0000_0000_0000_0000 >= max
}

/// Tests whether the time of a trace is up.
pub fn duration_reached(limit: Option<u64>, elapsed: &Duration) -> (r: bool)
    ensures
        r == time_is_up(limit, *elapsed),
{
    match limit {
        Some(max) => elapsed.as_millis() % 0x1_0000_0000_0000_0000 >= max as u128,
        None => false,
    }
}

/// How long a trace waits for its next packet: for as long as it may still run,
/// and without end where it has no limit.
pub open spec fn wait_of(limit: Option<u64>, elapsed: Duration) -> Option<Duration> {
    match limit {
        Some(max) => Some(
            Duration {
                nanos: (if max * 1_000_000 > elapsed.nanos {
                    max * 1_000_000 - elapsed.nanos
                } else {
                    0
                }) as u128,
            },
        ),
        None => None,
    }
}

/// How long a trace waits for its next packet.
pub fn trace_wait(limit: Option<u64>, elapsed: &Duration) -> (r: Option<Duration>)
    ensures
        r == wait_of(limit, *elapsed),
{
    match limit {
        Some(max) => {
            let end: u128 = max as u128 * 1_000_000;
            if end > elapsed.nanos {
                Some(Duration { nanos: end - elapsed.nanos })
            } else {
                Some(Duration { nanos: 0 })
            }
        },
        None => None,
    }
}

/// What a trace meets.
#[derive(Debug, Clone, Copy, PartialEq, Eq, Structural)]
pub enum TraceSignal {
    /// A packet came.
    Packet,
    /// The stream of packets failed.
    Failed,
    /// The stream of packets ended.
    Ended,
    /// Nothing came while the trace waited.
    TimedOut,
}

/// What a trace does next.
#[derive(Debug, Clone, Copy, PartialEq, Eq, Structural)]
pub enum TraceAction {
    /// Show the packet and wait for the next.
    Show,
    /// Tell that the stream failed, and stop.
    TellFailure,
    /// Tell that the time is up, and stop.
    TellTimeIsUp,
    /// Stop.
    Stop,
}

/// What a trace does on a signal. What comes when the time is up is not shown.
pub open spec fn action_on(
    limit: Option<u64>,
    elapsed: Duration,
    signal: TraceSignal,
) -> TraceAction {
    match signal {
        TraceSignal::Ended => TraceAction::Stop,
        TraceSignal::TimedOut => TraceAction::TellTimeIsUp,
        TraceSignal::Packet => if time_is_up(limit, elapsed) {
            TraceAction::TellTimeIsUp
        } else {
            TraceAction::Show
        },
        TraceSignal::Failed => if time_is_up(limit, elapsed) {
            TraceAction::TellTimeIsUp
        } else {
            TraceAction::TellFailure
        },
    }
}

/// Decides what a trace does on a signal.
pub fn trace_action(limit: Option<u64>, elapsed: &Duration, signal: TraceSignal) -> (r: TraceAction)
    ensures
        r == action_on(limit, *elapsed, signal),
{
    match signal {
        TraceSignal::Ended => TraceAction::Stop,
        TraceSignal::TimedOut => TraceAction::TellTimeIsUp,
        TraceSignal::Packet => {
            if duration_reached(limit, elapsed) {
                TraceAction::TellTimeIsUp
            } else {
                TraceAction::Show
            }
        },
        TraceSignal::Failed => {
            if duration_reached(limit, elapsed) {
                TraceAction::TellTimeIsUp
            } else {
                TraceAction::TellFailure
            }
        },
    }
}

/// A trace with a limit ends in time: once it has waited for as long as it may,
/// its time is up, and then nothing is shown whatever it meets.
pub proof fn law_trace_ends_in_time(
    max: u64,
    elapsed: Duration,
    later: Duration,
    signal: TraceSignal,
)
    requires
        later.nanos >= elapsed.nanos + wait_of(Some(max), elapsed)->0.nanos,
        later.nanos / 1_000_000 <= u64::MAX,
    ensures
        time_is_up(Some(max), later),
        action_on(Some(max), later, signal) == TraceAction::TellTimeIsUp || action_on(
            Some(max),
            later,
            signal,
        ) == TraceAction::Stop,
{
}

/// The address that an agent is reached at.
pub fn endpoint(agent: &str) -> (r: String)
    ensures
        r@ == "http://"@ + agent@,
{
    let mut r: String = "http://".to_owned();
    r.append(agent);
    r
}

/// A number with its sign.
pub open spec fn signed_text(n: int) -> Seq<char> {
    if n < 0 {
        "-"@ + text::decimal((-n) as nat)
    } else {
        text::decimal(n as nat)
    }
}

/// An address with a port.
pub open spec fn socket_text(ip: Seq<char>, port: nat) -> Seq<char> {
    ip + ":"@ + text::decimal(port)
}

/// The namespace and pod of a row, shortened.
pub open spec fn owner_text(namespace: Seq<char>, pod_name: Seq<char>) -> Seq<char> {
    truncated(namespace + "/"@ + truncated(pod_name, 12), 20)
}

/// Whether namespace and pod can be shortened for a row.
pub open spec fn owner_fits(namespace: Seq<char>, pod_name: Seq<char>) -> bool {
    fits(pod_name, 12) && fits(namespace + "/"@ + truncated(pod_name, 12), 20)
}

/// The first six columns of a row.
pub open spec fn columns(
    owner: Seq<char>,
    protocol: Seq<char>,
    source: Seq<char>,
    destination: Seq<char>,
    direction: Seq<char>,
    bytes: Seq<char>,
) -> Seq<char> {
    text::padded_right(owner, 20) + " "@ + text::padded_right(protocol, 15) + " "@
        + text::padded_left(source, 21) + " "@ + text::padded_left(destination, 21) + " "@
        + text::padded_left(direction, 8) + " "@ + text::padded_left(bytes, 9) + " "@
}

/// The heading of a table whose last column has the given title and width.
pub open spec fn heading_text(title: Seq<char>, width: nat) -> Seq<char> {
    columns("NAMESPACE/POD"@, "PROTOCOL"@, "SOURCE"@, "DESTINATION"@, "DIR"@, "BYTES"@)
        + text::padded_left(title, width)
}

/// Appends an address with a port.
fn socket(ip: &str, port: u32) -> (r: String)
    ensures
        r@ == socket_text(ip@, port as nat),
{
    let mut r: String = ip.to_owned();
    r.append(":");
    push_decimal(&mut r, port as u128);
    r
}

/// The namespace and pod of a row before they are shortened.
fn joint_owner(namespace: &str, pod_name: &str) -> (r: String)
    requires
        fits(pod_name@, 12),
    ensures
        r@ == namespace@ + "/"@ + truncated(pod_name@, 12),
{
    let mut r: String = namespace.to_owned();
    r.append("/");
    r.append(truncate(pod_name, 12).as_str());
    r
}

/// Whether namespace and pod can be shortened for a row.
pub fn can_show_owner(namespace: &str, pod_name: &str) -> (r: bool)
    ensures
        r == owner_fits(namespace@, pod_name@),
{
    can_truncate(pod_name, 12) && can_truncate(joint_owner(namespace, pod_name).as_str(), 20)
}

/// The namespace and pod of a row.
fn owner(namespace: &str, pod_name: &str) -> (r: String)
    requires
        owner_fits(namespace@, pod_name@),
    ensures
        r@ == owner_text(namespace@, pod_name@),
{
    truncate(joint_owner(namespace, pod_name).as_str(), 20)
}

/// Writes the first six columns of a row.
fn write_columns(
    owner: &str,
    protocol: &str,
    source: &str,
    destination: &str,
    direction: &str,
    bytes: &str,
) -> (r: String)
    ensures
        r@ == columns(owner@, protocol@, source@, destination@, direction@, bytes@),
{
    let mut r: String = String::new();
    push_padded_right(&mut r, owner, 20);
    r.append(" ");
    push_padded_right(&mut r, protocol, 15);
    r.append(" ");
    push_padded_left(&mut r, source, 21);
    r.append(" ");
    push_padded_left(&mut r, destination, 21);
    r.append(" ");
    push_padded_left(&mut r, direction, 8);
    r.append(" ");
    push_padded_left(&mut r, bytes, 9);
    r.append(" ");
    assert(r@ =~= columns(owner@, protocol@, source@, destination@, direction@, bytes@));
    r
}

/// Writes the heading of a table.
fn heading(title: &str, width: usize) -> (r: String)
    ensures
        r@ == heading_text(title@, width as nat),
{
    let mut r: String = write_columns(
        "NAMESPACE/POD",
        "PROTOCOL",
        "SOURCE",
        "DESTINATION",
        "DIR",
        "BYTES",
    );
    push_padded_left(&mut r, title, width);
    r
}

/// Draws a line.
fn rule(width: usize) -> (r: String)
    ensures
        r@ == text::repeated('-', width as nat),
{
    proof {
        reveal_strlit("-");
    }
    let mut r: String = String::new();
    push_repeated(&mut r, "-", width);
    assert(r@ =~= text::repeated('-', width as nat));
    r
}

/// The row of a flow.
pub open spec fn flow_text(flow: NetworkFlow) -> Seq<char> {
    columns(
        owner_text(flow.namespace@, flow.pod_name@),
        flow.protocol@,
        socket_text(flow.src_ip@, flow.src_port as nat),
        socket_text(flow.dst_ip@, flow.dst_port as nat),
        flow.direction@,
        bytes_text(flow.bytes as nat),
    ) + text::padded_left(text::decimal(flow.packets as nat), 8)
}

/// Shows a flow as a row.
pub fn flow_row(flow: &NetworkFlow) -> (r: String)
    requires
        owner_fits(flow.namespace@, flow.pod_name@),
    ensures
        r@ == flow_text(*flow),
{
    let mut packets: String = String::new();
    push_decimal(&mut packets, flow.packets as u128);
    assert(packets@ =~= text::decimal(flow.packets as nat));
    let mut r: String = write_columns(
        owner(flow.namespace.as_str(), flow.pod_name.as_str()).as_str(),
        flow.protocol.as_str(),
        socket(flow.src_ip.as_str(), flow.src_port).as_str(),
        socket(flow.dst_ip.as_str(), flow.dst_port).as_str(),
        flow.direction.as_str(),
        format_bytes(flow.bytes).as_str(),
    );
    push_padded_left(&mut r, packets.as_str(), 8);
    r
}

/// The row of a packet that came at a time of day.
pub open spec fn event_text(event: NetworkEvent, time: Seq<char>) -> Seq<char> {
    columns(
        owner_text(event.namespace@, event.pod_name@),
        event.protocol@,
        socket_text(event.src_ip@, event.src_port as nat),
        socket_text(event.dst_ip@, event.dst_port as nat),
        event.direction@,
        bytes_text(event.bytes as nat),
    ) + text::padded_left(time, 7)
}

/// Shows a packet as a row.
pub fn event_row(event: &NetworkEvent, time: &str) -> (r: String)
    requires
        owner_fits(event.namespace@, event.pod_name@),
    ensures
        r@ == event_text(*event, time@),
{
    let mut r: String = write_columns(
        owner(event.namespace.as_str(), event.pod_name.as_str()).as_str(),
        event.protocol.as_str(),
        socket(event.src_ip.as_str(), event.src_port).as_str(),
        socket(event.dst_ip.as_str(), event.dst_port).as_str(),
        event.direction.as_str(),
        format_bytes(event.bytes as u64).as_str(),
    );
    push_padded_left(&mut r, time, 7);
    r
}

/// What a trace of the given namespaces, or of all where none are given, is
/// announced as.
pub open spec fn trace_text(agent: Seq<char>, namespaces: Seq<Seq<char>>) -> Seq<char> {
    "Streaming network events from "@ + agent + (if namespaces.len() == 0 {
        Seq::empty()
    } else {
        " (namespaces: "@ + text::joined(namespaces, ", "@) + ")"@
    }) + "..."@
}

/// What stands above the rows of a trace.
pub fn trace_heading(agent: &str, namespaces: &Vec<String>) -> (r: Vec<String>)
    ensures
        text::texts(r@) == seq![
            trace_text(agent@, text::texts(namespaces@)),
            heading_text("TIME"@, 7),
            text::repeated('-', 110),
        ],
{
    let mut first: String = "Streaming network events from ".to_owned();
    first.append(agent);
    if namespaces.len() > 0 {
        first.append(" (namespaces: ");
        first.append(join(namespaces, ", ").as_str());
        first.append(")");
    }
    first.append("...");
    assert(first@ =~= trace_text(agent@, text::texts(namespaces@)));
    let mut r: Vec<String> = Vec::new();
    r.push(first);
    r.push(heading("TIME", 7));
    r.push(rule(110));
    assert(text::texts(r@) =~= seq![
        trace_text(agent@, text::texts(namespaces@)),
        heading_text("TIME"@, 7),
        text::repeated('-', 110),
    ]);
    r
}

/// What is shown of an answer to a question for flows.
pub open spec fn flow_lines(flows: Seq<NetworkFlow>) -> Seq<Seq<char>> {
    if flows.len() == 0 {
        seq!["No flows found."@]
    } else {
        seq![heading_text("PACKETS"@, 8), text::repeated('-', 110)] + flows.map_values(
            |flow: NetworkFlow| flow_text(flow),
        )
    }
}

/// Shows an answer to a question for flows.
pub fn flows_report(flows: &Vec<NetworkFlow>) -> (r: Vec<String>)
    requires
        forall|i: int|
            0 <= i < flows.len() ==> owner_fits(
                (#[trigger] flows@[i]).namespace@,
                flows@[i].pod_name@,
            ),
    ensures
        text::texts(r@) == flow_lines(flows@),
{
    let mut r: Vec<String> = Vec::new();
    let ghost wanted = flow_lines(flows@);
    if flows.len() == 0 {
        r.push("No flows found.".to_owned());
        assert(text::texts(r@) =~= wanted);
        return r;
    }
    r.push(heading("PACKETS", 8));
    r.push(rule(110));
    assert(text::texts(r@) =~= wanted.take(2));
    let mut i: usize = 0;
    while i < flows.len()
        invariant
            i <= flows.len(),
            flows.len() > 0,
            wanted == flow_lines(flows@),
            text::texts(r@) == wanted.take(i + 2),
            forall|k: int|
                0 <= k < flows.len() ==> owner_fits(
                    (#[trigger] flows@[k]).namespace@,
                    flows@[k].pod_name@,
                ),
        decreases flows.len() - i,
    {
        let ghost before = r@;
        r.push(flow_row(&flows[i]));
        i += 1;
        assert(text::texts(r@) =~= text::texts(before).push(wanted[i + 1]));
        assert(wanted.take(i + 2) =~= wanted.take(i + 1).push(wanted[i + 1]));
    }
    assert(wanted.take(wanted.len() as int) =~= wanted);
    r
}

/// What is shown of the state of an agent.
pub open spec fn status_lines(status: AgentStatus) -> Seq<Seq<char>> {
    seq![
        "Agent Status"@,
        text::repeated('-', 40),
        "Node:             "@ + status.node_name@,
        "Version:          "@ + status.version@,
        "Health:           "@ + (if status.healthy {
            "OK"@
        } else {
            "UNHEALTHY"@
        }),
        "Health Message:   "@ + status.health_message@,
        "Uptime:           "@ + signed_text(status.uptime_seconds as int) + "s"@,
        "Events Processed: "@ + text::decimal(status.events_processed as nat),
        "Events Dropped:   "@ + text::decimal(status.events_dropped as nat),
        "Pods Tracked:     "@ + text::decimal(status.pods_tracked as nat),
        "Active Flows:     "@ + text::decimal(status.active_flows as nat),
    ]
}

/// A label with a text behind it.
fn labelled(label: &str, value: &str) -> (r: String)
    ensures
        r@ == label@ + value@,
{
    let mut r: String = label.to_owned();
    r.append(value);
    r
}

/// A label with a number behind it.
fn counted(label: &str, value: u64) -> (r: String)
    ensures
        r@ == label@ + text::decimal(value as nat),
{
    let mut r: String = label.to_owned();
    push_decimal(&mut r, value as u128);
    r
}

/// Writes the time that an agent has run for.
fn uptime(seconds: i64) -> (r: String)
    ensures
        r@ == "Uptime:           "@ + signed_text(seconds as int) + "s"@,
{
    let mut r: String = "Uptime:           ".to_owned();
    if seconds < 0 {
        r.append("-");
        push_decimal(&mut r, (-(seconds as i128)) as u128);
    } else {
        push_decimal(&mut r, seconds as u128);
    }
    r.append("s");
    assert(r@ =~= "Uptime:           "@ + signed_text(seconds as int) + "s"@);
    r
}

/// Shows the state of an agent.
pub fn status_report(status: &AgentStatus) -> (r: Vec<String>)
    ensures
        text::texts(r@) == status_lines(*status),
{
    let mut r: Vec<String> = Vec::new();
    r.push("Agent Status".to_owned());
    r.push(rule(40));
    r.push(labelled("Node:             ", status.node_name.as_str()));
    r.push(labelled("Version:          ", status.version.as_str()));
    r.push(
        labelled(
            "Health:           ",
            if status.healthy {
                "OK"
            } else {
                "UNHEALTHY"
            },
        ),
    );
    r.push(labelled("Health Message:   ", status.health_message.as_str()));
    r.push(uptime(status.uptime_seconds));
    r.push(counted("Events Processed: ", status.events_processed));
    r.push(counted("Events Dropped:   ", status.events_dropped));
    r.push(counted("Pods Tracked:     ", status.pods_tracked as u64));
    r.push(counted("Active Flows:     ", status.active_flows as u64));
    assert(text::texts(r@) =~= status_lines(*status));
    r
}

/// The encoding of two texts in a row is that of the one and then the other.
proof fn lemma_encoding_of_concatenation(a: Seq<char>, b: Seq<char>)
    ensures
        vstd::utf8::encode_utf8(a + b) == vstd::utf8::encode_utf8(a) + vstd::utf8::encode_utf8(b),
    decreases a.len(),
{
    if a.len() == 0 {
        assert(a + b =~= b);
        assert(vstd::utf8::encode_utf8(a) + vstd::utf8::encode_utf8(b) =~= vstd::utf8::encode_utf8(
            b,
        ));
    } else {
        lemma_encoding_of_concatenation(a.drop_first(), b);
        assert((a + b).drop_first() =~= a.drop_first() + b);
        assert(vstd::utf8::encode_utf8(a + b) =~= vstd::utf8::encode_utf8(a)
            + vstd::utf8::encode_utf8(b));
    }
}

/// A shortened text takes at most as many bytes as it may.
pub proof fn law_truncated_text_is_short(s: Seq<char>, max_len: nat)
    requires
        fits(s, max_len),
    ensures
        vstd::utf8::encode_utf8(truncated(s, max_len)).len() <= max_len,
{
    let bytes = vstd::utf8::encode_utf8(s);
    if bytes.len() > max_len {
        let head = bytes.take(max_len - 3);
        vstd::utf8::encode_utf8_valid_utf8(s);
        vstd::utf8::valid_utf8_split(bytes, max_len - 3);
        assert(head =~= bytes.subrange(0, max_len - 3));
        vstd::utf8::decode_utf8_encode_utf8(head);
        lemma_encoding_of_concatenation(vstd::utf8::decode_utf8(head), "..."@);
        reveal_strlit("...");
        vstd::utf8::is_ascii_chars_encode_utf8("..."@);
    }
}

/// A shortened text begins as the text does.
pub proof fn law_truncated_text_is_a_beginning(s: Seq<char>, max_len: nat)
    requires
        fits(s, max_len),
    ensures
        truncated(s, max_len) == s || exists|n: int|
            0 <= n <= s.len() && truncated(s, max_len) == #[trigger] s.take(n) + "..."@,
{
    let bytes = vstd::utf8::encode_utf8(s);
    if bytes.len() > max_len {
        let head = bytes.take(max_len - 3);
        vstd::utf8::encode_utf8_valid_utf8(s);
        vstd::utf8::encode_utf8_decode_utf8(s);
        vstd::utf8::decode_utf8_split(bytes, max_len - 3);
        assert(head =~= bytes.subrange(0, max_len - 3));
        let n = vstd::utf8::decode_utf8(head).len() as int;
        assert(s.take(n) =~= vstd::utf8::decode_utf8(head));
    }
}

/// An amount that is shown to one decimal is off by at most half of that
/// decimal.
pub proof fn law_shown_amount_is_near(bytes: nat, size: nat)
    requires
        size > 0,
    ensures
        2 * (10 * bytes) <= 2 * (nearest(10 * bytes, size) * size) + size,
        2 * (nearest(10 * bytes, size) * size) <= 2 * (10 * bytes) + size,
{
    let num = 10 * bytes;
    let down = num / size;
    let rest = num % size;
    assert(num == down * size + rest) by (nonlinear_arith)
        requires
            down == num / size,
            rest == num % size,
            size > 0,
    ;
    assert((down + 1) * size == down * size + size) by (nonlinear_arith);
    assert(rest < size) by (nonlinear_arith)
        requires
            rest == num % size,
            size > 0,
    ;
}

/// The suffix of a unit of so many milliseconds.
pub open spec fn unit_suffix(unit: nat) -> Seq<char> {
    if unit == 1 {
        "ms"@
    } else if unit == 1_000 {
        "s"@
    } else if unit == 60_000 {
        "m"@
    } else {
        "h"@
    }
}

/// A number that is written with a unit is read as so many of that unit.
pub proof fn law_duration_is_read_back(value: nat, unit: nat)
    requires
        value <= u64::MAX,
        unit == 1 || unit == 1_000 || unit == 60_000 || unit == 3_600_000,
    ensures
        duration_millis(text::decimal(value) + unit_suffix(unit)) == Ok::<nat, DurationError>(
            value * unit,
        ),
{
    reveal_strlit("ms");
    reveal_strlit("s");
    reveal_strlit("m");
    reveal_strlit("h");
    let digits = text::decimal(value);
    let suffix = unit_suffix(unit);
    let s = digits + suffix;
    let n = s.len() as int;
    text::lemma_decimal_digits(value);
    text::law_decimal_is_read_back(value, u64::MAX as nat);
    assert(text::is_digit(digits[0]));
    assert(text::is_digit(digits[digits.len() - 1]));
    assert(s[0] == digits[0]);
    assert(s[n - 1] == suffix[suffix.len() - 1]);
    assert(text::trimmed(s) =~= s);
    assert(s.take(n - suffix.len()) =~= digits);
    assert(s.skip(n - suffix.len()) =~= suffix);
    assert(text::ends_with(s, suffix));
    if suffix.len() == 1 {
        assert(s[n - 2] == digits[digits.len() - 1]);
        assert(s.skip(n - 2)[0] == s[n - 2]);
        assert(!text::ends_with(s, "ms"@));
        assert(s.skip(n - 1)[0] == s[n - 1]);
    }
    if digits.len() >= suffix.len() {
        let end = digits.skip(digits.len() - suffix.len());
        assert(end[suffix.len() - 1] == digits[digits.len() - 1]);
    }
    assert(!text::ends_with(digits, suffix));
    reveal_with_fuel(text::without_suffixes, 2);
    assert(text::without_suffixes(s, suffix) == digits);
}

/// A trace does not end early: as long as it has run for less than its limit
/// the time is not up, so a packet is shown and a failure is told; without a
/// limit the time is never up. From the limit on the time is up.
pub proof fn law_trace_does_not_end_early(max: u64, elapsed: Duration)
    requires
        elapsed.nanos / 1_000_000 <= u64::MAX,
    ensures
        elapsed.nanos < max * 1_000_000 ==> {
            &&& !time_is_up(Some(max), elapsed)
            &&& action_on(Some(max), elapsed, TraceSignal::Packet) == TraceAction::Show
            &&& action_on(Some(max), elapsed, TraceSignal::Failed) == TraceAction::TellFailure
        },
        elapsed.nanos >= max * 1_000_000 ==> {
            &&& time_is_up(Some(max), elapsed)
            &&& action_on(Some(max), elapsed, TraceSignal::Packet) == TraceAction::TellTimeIsUp
            &&& action_on(Some(max), elapsed, TraceSignal::Failed) == TraceAction::TellTimeIsUp
        },
        !time_is_up(None, elapsed),
        action_on(None, elapsed, TraceSignal::Packet) == TraceAction::Show,
        action_on(None, elapsed, TraceSignal::Failed) == TraceAction::TellFailure,
{
}

/// The end of the stream ends a trace without a word, and a wait in which
/// nothing came ends it because its time is up, whatever the limit.
pub proof fn law_trace_ends_with_its_stream(limit: Option<u64>, elapsed: Duration)
    ensures
        action_on(limit, elapsed, TraceSignal::Ended) == TraceAction::Stop,
        action_on(limit, elapsed, TraceSignal::TimedOut) == TraceAction::TellTimeIsUp,
{
}

/// A trace waits for exactly what is left of its time, and without end where it
/// has no limit.
pub proof fn law_trace_waits_for_what_is_left(max: u64, elapsed: Duration)
    ensures
        wait_of(None, elapsed) is None,
        wait_of(Some(max), elapsed) is Some,
        elapsed.nanos <= max * 1_000_000 ==> wait_of(Some(max), elapsed)->0.nanos + elapsed.nanos
            == max * 1_000_000,
        elapsed.nanos >= max * 1_000_000 ==> wait_of(Some(max), elapsed)->0.nanos == 0,
{
}

/// A text that takes no more bytes than it may is shown whole; a longer one is
/// shown in exactly as many bytes as it may, the last three of which are dots.
pub proof fn law_truncation_uses_its_room(s: Seq<char>, max_len: nat)
    ensures
        vstd::utf8::encode_utf8(s).len() <= max_len ==> fits(s, max_len) && truncated(s, max_len)
            == s,
        vstd::utf8::encode_utf8(s).len() > max_len && fits(s, max_len) ==> {
            &&& vstd::utf8::encode_utf8(truncated(s, max_len)).len() == max_len
            &&& text::ends_with(truncated(s, max_len), "..."@)
            &&& max_len >= 3
        },
        vstd::utf8::encode_utf8(s).len() > max_len && max_len < 3 ==> !fits(s, max_len),
        max_len >= 3 && vstd::utf8::is_char_boundary(vstd::utf8::encode_utf8(s), max_len - 3)
            ==> fits(s, max_len),
{
    let bytes = vstd::utf8::encode_utf8(s);
    if bytes.len() > max_len && fits(s, max_len) {
        let head = bytes.take(max_len - 3);
        vstd::utf8::encode_utf8_valid_utf8(s);
        vstd::utf8::valid_utf8_split(bytes, max_len - 3);
        assert(head =~= bytes.subrange(0, max_len - 3));
        vstd::utf8::decode_utf8_encode_utf8(head);
        lemma_encoding_of_concatenation(vstd::utf8::decode_utf8(head), "..."@);
        reveal_strlit("...");
        vstd::utf8::is_ascii_chars_encode_utf8("..."@);
        text::law_beginnings_and_ends(vstd::utf8::decode_utf8(head), "..."@, "..."@);
    }
}

/// A text of ASCII characters is cut by characters: its beginning and three
/// dots, so many in all as it may have.
pub proof fn law_ascii_is_cut_by_characters(s: Seq<char>, max_len: nat)
    requires
        forall|i: int| 0 <= i < s.len() ==> '\0' <= #[trigger] s[i] <= '\u{7f}',
        max_len >= 3,
    ensures
        fits(s, max_len),
        s.len() <= max_len ==> truncated(s, max_len) == s,
        s.len() > max_len ==> truncated(s, max_len) == s.take(max_len - 3) + "..."@,
{
    let bytes = vstd::utf8::encode_utf8(s);
    vstd::utf8::is_ascii_chars_encode_utf8(s);
    if s.len() > max_len {
        let n = max_len - 3;
        let head = s.take(n);
        let tail = s.skip(n);
        assert(head + tail =~= s);
        lemma_encoding_of_concatenation(head, tail);
        assert(vstd::utf8::is_ascii_chars(head)) by {
            assert forall|i: int| 0 <= i < head.len() implies '\0' <= #[trigger] head[i]
                <= '\u{7f}' by {
                assert(head[i] == s[i]);
            }
        }
        vstd::utf8::is_ascii_chars_encode_utf8(head);
        assert(bytes.take(n) =~= vstd::utf8::encode_utf8(head));
        vstd::utf8::encode_utf8_valid_utf8(s);
        vstd::utf8::encode_utf8_valid_utf8(tail);
        vstd::utf8::encode_utf8_decode_utf8(head);
        lemma_boundary_behind_prefix(head, tail);
    }
}

/// The encoding of a text has a character boundary behind that of each of its
/// beginnings.
proof fn lemma_boundary_behind_prefix(head: Seq<char>, tail: Seq<char>)
    ensures
        vstd::utf8::is_char_boundary(
            vstd::utf8::encode_utf8(head + tail),
            vstd::utf8::encode_utf8(head).len() as int,
        ),
    decreases head.len(),
{
    let all = head + tail;
    let bytes = vstd::utf8::encode_utf8(all);
    vstd::utf8::encode_utf8_valid_utf8(all);
    if head.len() > 0 {
        lemma_boundary_behind_prefix(head.drop_first(), tail);
        lemma_encoding_of_concatenation(head, tail);
        assert(all.drop_first() =~= head.drop_first() + tail);
        vstd::utf8::encode_utf8_first_scalar(all);
        let first = vstd::utf8::encode_scalar(all[0] as u32);
        assert(bytes == first + vstd::utf8::encode_utf8(all.drop_first()));
        assert(vstd::utf8::pop_first_scalar(bytes) =~= vstd::utf8::encode_utf8(all.drop_first()));
    }
}

/// Rounding goes to the nearest whole number, and to an even one where two are
/// equally near.
pub proof fn law_rounding_is_to_the_nearest(num: nat, den: nat)
    requires
        den > 0,
    ensures
        2 * num <= 2 * (nearest(num, den) * den) + den,
        2 * (nearest(num, den) * den) <= 2 * num + den,
        2 * num == 2 * (nearest(num, den) * den) + den || 2 * (nearest(num, den) * den) == 2 * num
            + den ==> nearest(num, den) % 2 == 0,
{
    let down = num / den;
    let rest = num % den;
    assert(num == down * den + rest && rest < den) by (nonlinear_arith)
        requires
            down == num / den,
            rest == num % den,
            den > 0,
    ;
    assert((down + 1) * den == down * den + den) by (nonlinear_arith);
}

proof fn lemma_precision(n: nat, unit: nat)
    requires
        unit > 0,
    ensures
        precision_from(n, unit) >= unit,
        n < 0x20_0000_0000_0000 * precision_from(n, unit),
        precision_from(n, unit) == unit || n >= 0x10_0000_0000_0000 * precision_from(n, unit),
        exists|k: nat| precision_from(n, unit) == unit * #[trigger] vstd::arithmetic::power2::pow2(k),
    decreases n - unit,
{
    if n < 0x20_0000_0000_0000 * unit {
        vstd::arithmetic::power2::lemma2_to64();
        assert(unit * vstd::arithmetic::power2::pow2(0) == unit);
    } else {
        lemma_precision(n, 2 * unit);
        let p = precision_from(n, 2 * unit);
        let k = choose|k: nat| p == (2 * unit) * #[trigger] vstd::arithmetic::power2::pow2(k);
        vstd::arithmetic::power2::lemma_pow2_unfold(k + 1);
        let q = vstd::arithmetic::power2::pow2(k) as int;
        assert((2 * unit) * q == unit * (2 * q)) by (nonlinear_arith);
        assert(p == unit * vstd::arithmetic::power2::pow2(k + 1));
    }
}

/// Numbers of up to 53 bits are kept as they are. A greater one goes to the
/// nearest multiple, the even one where two are equally near, of the power of
/// two by which it can be counted in 53 bits.
pub proof fn law_double_precision(n: nat)
    ensures
        n < 0x20_0000_0000_0000 ==> in_double_precision(n) == n,
        n >= 0x20_0000_0000_0000 ==> exists|k: nat|
            {
                let unit = #[trigger] vstd::arithmetic::power2::pow2(k);
                let r = in_double_precision(n);
                &&& 0x10_0000_0000_0000 * unit <= n < 0x20_0000_0000_0000 * unit
                &&& r % unit == 0
                &&& 2 * n <= 2 * r + unit
                &&& 2 * r <= 2 * n + unit
                &&& 2 * n == 2 * r + unit || 2 * r == 2 * n + unit ==> (r / unit) % 2 == 0
            },
{
    lemma_precision(n, 1);
    let unit = precision(n);
    law_rounding_is_to_the_nearest(n, unit);
    let k = choose|k: nat| precision_from(n, 1) == 1 * #[trigger] vstd::arithmetic::power2::pow2(k);
    assert(unit == vstd::arithmetic::power2::pow2(k));
    if n < 0x20_0000_0000_0000 {
        assert(unit == 1);
        assert(n / 1 == n && n % 1 == 0);
        assert(nearest(n, 1) == n);
        assert(n * 1 == n);
    } else {
        let count = nearest(n, unit);
        let r = in_double_precision(n);
        assert(r % unit == 0 && r / unit == count) by (nonlinear_arith)
            requires
                r == count * unit,
                unit > 0,
        ;
    }
}

/// Whether a text shows an amount to one decimal in units of `size` bytes: a
/// whole number, a point, one digit and the unit's name, the nearest that there
/// is.
pub open spec fn shows_amount(s: Seq<char>, bytes: nat, size: nat, name: Seq<char>) -> bool {
    exists|whole: nat, tenth: nat|
        {
            &&& s == #[trigger] text::decimal(whole) + "."@ + #[trigger] text::decimal(tenth) + name
            &&& tenth < 10
            &&& 2 * (10 * bytes) <= 2 * ((10 * whole + tenth) * size) + size
            &&& 2 * ((10 * whole + tenth) * size) <= 2 * (10 * bytes) + size
            &&& (2 * (10 * bytes) == 2 * ((10 * whole + tenth) * size) + size || 2 * ((10 * whole
                + tenth) * size) == 2 * (10 * bytes) + size) ==> tenth % 2 == 0
        }
}

proof fn lemma_amount_is_shown(bytes: nat, size: nat, name: Seq<char>)
    requires
        size > 0,
    ensures
        shows_amount(amount_text(bytes, size) + name, bytes, size, name),
{
    let tenths = nearest(10 * bytes, size);
    law_rounding_is_to_the_nearest(10 * bytes, size);
    let whole = tenths / 10;
    let tenth = tenths % 10;
    assert(10 * whole + tenth == tenths);
    assert(amount_text(bytes, size) + name == text::decimal(whole) + "."@ + text::decimal(tenth)
        + name);
}

/// Bytes are shown as they are below a kibibyte, and else to one decimal of the
/// largest unit, of kibibytes, mebibytes and gibibytes, that they reach.
pub proof fn law_bytes_are_shown_in_their_unit(bytes: nat)
    ensures
        bytes < 1_024 ==> bytes_text(bytes) == text::decimal(bytes) + "B"@,
        1_024 <= bytes < 1_048_576 ==> shows_amount(bytes_text(bytes), bytes, 1_024, "KB"@),
        1_048_576 <= bytes < 1_073_741_824 ==> shows_amount(
            bytes_text(bytes),
            bytes,
            1_048_576,
            "MB"@,
        ),
        1_073_741_824 <= bytes ==> shows_amount(
            bytes_text(bytes),
            in_double_precision(bytes),
            1_073_741_824,
            "GB"@,
        ),
        1_073_741_824 <= bytes < 0x20_0000_0000_0000 ==> shows_amount(
            bytes_text(bytes),
            bytes,
            1_073_741_824,
            "GB"@,
        ),
{
    lemma_amount_is_shown(bytes, 1_024, "KB"@);
    lemma_amount_is_shown(bytes, 1_048_576, "MB"@);
    lemma_amount_is_shown(in_double_precision(bytes), 1_073_741_824, "GB"@);
    law_double_precision(bytes);
}

/// Whether a unit's name is `suffix` and it is so many milliseconds.
pub open spec fn is_unit(suffix: Seq<char>, millis: nat) -> bool {
    ||| suffix == "ms"@ && millis == 1
    ||| suffix == "s"@ && millis == 1_000
    ||| suffix == "m"@ && millis == 60_000
    ||| suffix == "h"@ && millis == 3_600_000
}

/// By which characters a text ends in a unit.
proof fn lemma_ends_in_unit(s: Seq<char>)
    ensures
        text::ends_with(s, "ms"@) <==> s.len() >= 2 && s[s.len() - 2] == 'm' && s[s.len() - 1]
            == 's',
        text::ends_with(s, "s"@) <==> s.len() >= 1 && s[s.len() - 1] == 's',
        text::ends_with(s, "m"@) <==> s.len() >= 1 && s[s.len() - 1] == 'm',
        text::ends_with(s, "h"@) <==> s.len() >= 1 && s[s.len() - 1] == 'h',
{
    reveal_strlit("ms");
    reveal_strlit("s");
    reveal_strlit("m");
    reveal_strlit("h");
    let n = s.len() as int;
    if n >= 1 {
        let last = s.skip(n - 1);
        assert(last[0] == s[n - 1]);
        assert(last =~= seq![s[n - 1]]);
        assert("s"@ =~= seq!['s']);
        assert("m"@ =~= seq!['m']);
        assert("h"@ =~= seq!['h']);
        assert(seq!['s'][0] == 's' && seq!['m'][0] == 'm' && seq!['h'][0] == 'h');
    }
    if n >= 2 {
        let two = s.skip(n - 2);
        assert(two[0] == s[n - 2] && two[1] == s[n - 1]);
        assert(two =~= seq![s[n - 2], s[n - 1]]);
        assert("ms"@ =~= seq!['m', 's']);
        assert("ms"@[0] == 'm' && "ms"@[1] == 's');
    }
}

/// The unit of a duration is found.
proof fn lemma_unit_is_found(number: Seq<char>, suffix: Seq<char>, millis: nat)
    requires
        is_unit(suffix, millis),
        !text::ends_with(number, suffix),
        suffix == "s"@ ==> number.len() == 0 || number[number.len() - 1] != 'm',
    ensures
        duration_parts(number + suffix) == Some((number, millis)),
        suffix.len() > 0,
        !text::is_space(suffix[0]),
        !text::is_space(suffix[suffix.len() - 1]),
{
    let s = number + suffix;
    let n = s.len() as int;
    assert(suffix.len() > 0 && !text::is_space(suffix[0]) && !text::is_space(
        suffix[suffix.len() - 1],
    ) && (suffix == "s"@ ==> suffix.len() == 1 && suffix[0] == 's') && (suffix == "m"@
        ==> suffix.len() == 1 && suffix[0] == 'm') && (suffix == "h"@ ==> suffix.len() == 1
        && suffix[0] == 'h')) by {
        reveal_strlit("ms");
        reveal_strlit("s");
        reveal_strlit("m");
        reveal_strlit("h");
    }
    lemma_ends_in_unit(s);
    text::law_beginnings_and_ends(number, suffix, suffix);
    text::law_suffixes_are_removed(number, suffix);
    assert(text::without_suffixes(s, suffix) == number);
    assert(s[n - 1] == suffix[suffix.len() - 1]);
    if suffix.len() == 1 && number.len() > 0 {
        assert(s[n - 2] == number[number.len() - 1]);
    }
}

/// A duration is what stands before its unit, read as a number, times the unit;
/// what is no number there is refused as such. White space around it is passed
/// over.
pub proof fn law_duration_is_number_times_unit(
    before: Seq<char>,
    number: Seq<char>,
    suffix: Seq<char>,
    millis: nat,
    behind: Seq<char>,
)
    requires
        is_unit(suffix, millis),
        forall|i: int| 0 <= i < before.len() ==> text::is_space(#[trigger] before[i]),
        forall|i: int| 0 <= i < behind.len() ==> text::is_space(#[trigger] behind[i]),
        number.len() > 0 ==> !text::is_space(number[0]),
        !text::ends_with(number, suffix),
        suffix == "s"@ ==> number.len() == 0 || number[number.len() - 1] != 'm',
    ensures
        text::parsed_unsigned(number, u64::MAX as nat) matches Some(n) ==> duration_millis(
            before + (number + suffix) + behind,
        ) == Ok::<nat, DurationError>(n * millis),
        text::parsed_unsigned(number, u64::MAX as nat) is None ==> duration_millis(
            before + (number + suffix) + behind,
        ) == Err::<nat, DurationError>(DurationError::InvalidNumber),
{
    let s = number + suffix;
    lemma_unit_is_found(number, suffix, millis);
    assert(s[s.len() - 1] == suffix[suffix.len() - 1]);
    if number.len() > 0 {
        assert(s[0] == number[0]);
    } else {
        assert(s[0] == suffix[0]);
    }
    text::law_trimming_frees_the_middle(before, s, behind);
}

/// A duration that ends in none of the units is refused for its format.
pub proof fn law_duration_needs_a_unit(s: Seq<char>)
    requires
        s.len() > 0 ==> !text::is_space(s[0]) && !text::is_space(s[s.len() - 1]),
        s.len() > 0 ==> s[s.len() - 1] != 's' && s[s.len() - 1] != 'm' && s[s.len() - 1] != 'h',
    ensures
        duration_millis(s) == Err::<nat, DurationError>(DurationError::InvalidFormat),
{
    reveal_strlit("ms");
    reveal_strlit("s");
    reveal_strlit("m");
    reveal_strlit("h");
    let none = Seq::<char>::empty();
    text::law_trimming_frees_the_middle(none, s, none);
    assert(none + s + none =~= s);
    let n = s.len() as int;
    if n > 0 {
        assert(s.skip(n - 1)[0] == s[n - 1]);
        if n > 1 {
            assert(s.skip(n - 2)[1] == s[n - 1]);
        }
    }
}

/// Six texts of fixed widths, a space behind each.
proof fn lemma_row_of_fixed_widths(
    a: Seq<char>,
    b: Seq<char>,
    c: Seq<char>,
    d: Seq<char>,
    e: Seq<char>,
    f: Seq<char>,
)
    requires
        a.len() == 20,
        b.len() == 15,
        c.len() == 21,
        d.len() == 21,
        e.len() == 8,
        f.len() == 9,
    ensures
        ({
            let row = a + " "@ + b + " "@ + c + " "@ + d + " "@ + e + " "@ + f + " "@;
            &&& row.len() == 100
            &&& row.subrange(0, 20) == a
            &&& row.subrange(21, 36) == b
            &&& row.subrange(37, 58) == c
            &&& row.subrange(59, 80) == d
            &&& row.subrange(81, 89) == e
            &&& row.subrange(90, 99) == f
            &&& row[20] == ' ' && row[36] == ' ' && row[58] == ' ' && row[80] == ' ' && row[89]
                == ' ' && row[99] == ' '
        }),
{
    reveal_strlit(" ");
    let row = a + " "@ + b + " "@ + c + " "@ + d + " "@ + e + " "@ + f + " "@;
    assert(row.subrange(0, 20) =~= a);
    assert(row.subrange(21, 36) =~= b);
    assert(row.subrange(37, 58) =~= c);
    assert(row.subrange(59, 80) =~= d);
    assert(row.subrange(81, 89) =~= e);
    assert(row.subrange(90, 99) =~= f);
}

/// A cell at the left end of a column.
proof fn lemma_left_cell(row: Seq<char>, s: Seq<char>, lo: int, width: nat)
    requires
        0 <= lo,
        lo + width <= row.len(),
        s.len() <= width,
        row.subrange(lo, lo + width) == text::padded_right(s, width),
    ensures
        row.subrange(lo, lo + s.len()) == s,
        forall|i: int| lo + s.len() <= i < lo + width ==> #[trigger] row[i] == ' ',
{
    let cell = text::padded_right(s, width);
    text::law_padding_is_spaces(s, width);
    assert(forall|i: int| 0 <= i < s.len() ==> cell[i] == s[i]);
    assert forall|i: int| lo <= i < lo + width implies #[trigger] row[i] == cell[i - lo] by {
        assert(row.subrange(lo, lo + width)[i - lo] == row[i]);
    }
    assert(row.subrange(lo, lo + s.len()) =~= s);
}

/// A cell at the right end of a column.
proof fn lemma_right_cell(row: Seq<char>, s: Seq<char>, lo: int, width: nat)
    requires
        0 <= lo,
        lo + width <= row.len(),
        s.len() <= width,
        row.subrange(lo, lo + width) == text::padded_left(s, width),
    ensures
        row.subrange(lo + width - s.len(), lo + width) == s,
        forall|i: int| lo <= i < lo + width - s.len() ==> #[trigger] row[i] == ' ',
{
    let cell = text::padded_left(s, width);
    text::law_padding_is_spaces(s, width);
    assert(forall|i: int| 0 <= i < s.len() ==> cell[width - s.len() + i] == s[i]);
    assert forall|i: int| lo <= i < lo + width implies #[trigger] row[i] == cell[i - lo] by {
        assert(row.subrange(lo, lo + width)[i - lo] == row[i]);
    }
    assert(row.subrange(lo + width - s.len(), lo + width) =~= s);
}

/// Cells that are no wider than their columns stand where the columns are: the
/// first two at their left ends, the others at their right ends, with spaces
/// everywhere else.
pub proof fn law_cells_stand_in_their_columns(
    owner: Seq<char>,
    protocol: Seq<char>,
    source: Seq<char>,
    destination: Seq<char>,
    direction: Seq<char>,
    bytes: Seq<char>,
)
    requires
        owner.len() <= 20,
        protocol.len() <= 15,
        source.len() <= 21,
        destination.len() <= 21,
        direction.len() <= 8,
        bytes.len() <= 9,
    ensures
        ({
            let row = columns(owner, protocol, source, destination, direction, bytes);
            &&& row.len() == 100
            &&& row.subrange(0, owner.len() as int) == owner
            &&& row.subrange(21, 21int + protocol.len()) == protocol
            &&& row.subrange(58 - source.len(), 58) == source
            &&& row.subrange(80 - destination.len(), 80) == destination
            &&& row.subrange(89 - direction.len(), 89) == direction
            &&& row.subrange(99 - bytes.len(), 99) == bytes
            &&& forall|i: int|
                owner.len() <= i < 21 || 21 + protocol.len() <= i < 58 - source.len() || 58 <= i < 80
                    - destination.len() || 80 <= i < 89 - direction.len() || 89 <= i < 99
                    - bytes.len() || i == 99 ==> #[trigger] row[i] == ' '
        }),
{
    let row = columns(owner, protocol, source, destination, direction, bytes);
    text::law_padding_is_spaces(owner, 20);
    text::law_padding_is_spaces(protocol, 15);
    text::law_padding_is_spaces(source, 21);
    text::law_padding_is_spaces(destination, 21);
    text::law_padding_is_spaces(direction, 8);
    text::law_padding_is_spaces(bytes, 9);
    lemma_row_of_fixed_widths(
        text::padded_right(owner, 20),
        text::padded_right(protocol, 15),
        text::padded_left(source, 21),
        text::padded_left(destination, 21),
        text::padded_left(direction, 8),
        text::padded_left(bytes, 9),
    );
    lemma_left_cell(row, owner, 0, 20);
    lemma_left_cell(row, protocol, 21, 15);
    lemma_right_cell(row, source, 37, 21);
    lemma_right_cell(row, destination, 59, 21);
    lemma_right_cell(row, direction, 81, 8);
    lemma_right_cell(row, bytes, 90, 9);
}

/// Cells that fill their columns stand one behind the other, a space between
/// each two, and are shown whole.
pub proof fn law_wide_cells_are_shown_whole(
    owner: Seq<char>,
    protocol: Seq<char>,
    source: Seq<char>,
    destination: Seq<char>,
    direction: Seq<char>,
    bytes: Seq<char>,
)
    requires
        owner.len() >= 20,
        protocol.len() >= 15,
        source.len() >= 21,
        destination.len() >= 21,
        direction.len() >= 8,
        bytes.len() >= 9,
    ensures
        columns(owner, protocol, source, destination, direction, bytes) == owner + " "@ + protocol
            + " "@ + source + " "@ + destination + " "@ + direction + " "@ + bytes + " "@,
{
    text::law_padding_is_spaces(owner, 20);
    text::law_padding_is_spaces(protocol, 15);
    text::law_padding_is_spaces(source, 21);
    text::law_padding_is_spaces(destination, 21);
    text::law_padding_is_spaces(direction, 8);
    text::law_padding_is_spaces(bytes, 9);
}

/// A row of a flow: its namespace and pod, protocol, the two ends with their
/// ports, direction, bytes, and behind them, at the right end of eight columns,
/// its packets.
pub proof fn law_flow_row_shows_the_flow(flow: NetworkFlow)
    ensures
        flow_text(flow) == columns(
            truncated(flow.namespace@ + "/"@ + truncated(flow.pod_name@, 12), 20),
            flow.protocol@,
            flow.src_ip@ + ":"@ + text::decimal(flow.src_port as nat),
            flow.dst_ip@ + ":"@ + text::decimal(flow.dst_port as nat),
            flow.direction@,
            bytes_text(flow.bytes as nat),
        ) + text::padded_left(text::decimal(flow.packets as nat), 8),
        text::ends_with(flow_text(flow), text::decimal(flow.packets as nat)),
{
    let packets = text::decimal(flow.packets as nat);
    let head = columns(
        truncated(flow.namespace@ + "/"@ + truncated(flow.pod_name@, 12), 20),
        flow.protocol@,
        flow.src_ip@ + ":"@ + text::decimal(flow.src_port as nat),
        flow.dst_ip@ + ":"@ + text::decimal(flow.dst_port as nat),
        flow.direction@,
        bytes_text(flow.bytes as nat),
    );
    let row = flow_text(flow);
    assert(row == head + text::padded_left(packets, 8));
    assert(row.skip(row.len() - packets.len()) =~= packets);
}

/// A row of a packet: as that of a flow, with the packet's own bytes, and the
/// time of day at its end.
pub proof fn law_event_row_shows_the_packet(event: NetworkEvent, time: Seq<char>)
    ensures
        event_text(event, time) == columns(
            truncated(event.namespace@ + "/"@ + truncated(event.pod_name@, 12), 20),
            event.protocol@,
            event.src_ip@ + ":"@ + text::decimal(event.src_port as nat),
            event.dst_ip@ + ":"@ + text::decimal(event.dst_port as nat),
            event.direction@,
            bytes_text(event.bytes as nat),
        ) + text::padded_left(time, 7),
        text::ends_with(event_text(event, time), time),
{
    let row = event_text(event, time);
    assert(row.skip(row.len() - time.len()) =~= time);
}

/// A pod that fits is named with its namespace, whole; any is named in at most
/// twenty bytes.
pub proof fn law_owner_is_namespace_and_pod(namespace: Seq<char>, pod_name: Seq<char>)
    ensures
        vstd::utf8::encode_utf8(pod_name).len() <= 12 && vstd::utf8::encode_utf8(
            namespace + "/"@ + pod_name,
        ).len() <= 20 ==> owner_fits(namespace, pod_name) && owner_text(namespace, pod_name)
            == namespace + "/"@ + pod_name,
        owner_fits(namespace, pod_name) ==> vstd::utf8::encode_utf8(
            owner_text(namespace, pod_name),
        ).len() <= 20,
        owner_fits(namespace, pod_name) <==> fits(pod_name, 12) && fits(
            namespace + "/"@ + truncated(pod_name, 12),
            20,
        ),
{
    if owner_fits(namespace, pod_name) {
        law_truncated_text_is_short(namespace + "/"@ + truncated(pod_name, 12), 20);
    }
}

/// The answer to a question for flows is shown as a table with a row for each,
/// in order, below a heading and a line of a hundred and ten dashes, and in
/// words where there is none.
pub proof fn law_table_has_a_row_for_each_flow(flows: Seq<NetworkFlow>)
    ensures
        flows.len() == 0 ==> flow_lines(flows) == seq!["No flows found."@],
        flows.len() > 0 ==> {
            &&& flow_lines(flows).len() == flows.len() + 2
            &&& flow_lines(flows)[0] == columns(
                "NAMESPACE/POD"@,
                "PROTOCOL"@,
                "SOURCE"@,
                "DESTINATION"@,
                "DIR"@,
                "BYTES"@,
            ) + text::padded_left("PACKETS"@, 8)
            &&& flow_lines(flows)[1].len() == 110
            &&& forall|i: int| 0 <= i < 110 ==> #[trigger] flow_lines(flows)[1][i] == '-'
            &&& forall|i: int|
                0 <= i < flows.len() ==> #[trigger] flow_lines(flows)[i + 2] == flow_text(flows[i])
        },
        heading_text("TIME"@, 7) == columns(
            "NAMESPACE/POD"@,
            "PROTOCOL"@,
            "SOURCE"@,
            "DESTINATION"@,
            "DIR"@,
            "BYTES"@,
        ) + text::padded_left("TIME"@, 7),
{
}

/// A trace is announced with the agent that it comes from, and with the
/// namespaces that it is of where it is not of all.
pub proof fn law_trace_is_announced(agent: Seq<char>, namespaces: Seq<Seq<char>>)
    ensures
        namespaces.len() == 0 ==> trace_text(agent, namespaces) == "Streaming network events from "@
            + agent + "..."@,
        namespaces.len() > 0 ==> trace_text(agent, namespaces) == "Streaming network events from "@
            + agent + " (namespaces: "@ + text::joined(namespaces, ", "@) + ")..."@,
{
    reveal_strlit(")");
    reveal_strlit("...");
    reveal_strlit(")...");
    assert(")..."@ =~= ")"@ + "..."@);
    if namespaces.len() == 0 {
        assert(trace_text(agent, namespaces) =~= "Streaming network events from "@ + agent
            + "..."@);
    } else {
        assert(trace_text(agent, namespaces) =~= "Streaming network events from "@ + agent
            + " (namespaces: "@ + text::joined(namespaces, ", "@) + ")..."@);
    }
}

/// The state of an agent is shown below a heading and a line of forty dashes,
/// each part on a line of its own behind its label.
pub proof fn law_status_shows_every_part(status: AgentStatus)
    ensures
        ({
            let lines = status_lines(status);
            &&& lines.len() == 11
            &&& lines[0] == "Agent Status"@
            &&& lines[1].len() == 40
            &&& forall|i: int| 0 <= i < 40 ==> #[trigger] lines[1][i] == '-'
            &&& lines[2] == "Node:             "@ + status.node_name@
            &&& lines[3] == "Version:          "@ + status.version@
            &&& status.healthy ==> lines[4] == "Health:           "@ + "OK"@
            &&& !status.healthy ==> lines[4] == "Health:           "@ + "UNHEALTHY"@
            &&& lines[5] == "Health Message:   "@ + status.health_message@
            &&& status.uptime_seconds >= 0 ==> lines[6] == "Uptime:           "@ + text::decimal(
                status.uptime_seconds as nat,
            ) + "s"@
            &&& status.uptime_seconds < 0 ==> lines[6] == "Uptime:           "@ + ("-"@
                + text::decimal((-status.uptime_seconds) as nat)) + "s"@
            &&& lines[7] == "Events Processed: "@ + text::decimal(status.events_processed as nat)
            &&& lines[8] == "Events Dropped:   "@ + text::decimal(status.events_dropped as nat)
            &&& lines[9] == "Pods Tracked:     "@ + text::decimal(status.pods_tracked as nat)
            &&& lines[10] == "Active Flows:     "@ + text::decimal(status.active_flows as nat)
        }),
{
}

/// A unit that is written more than once counts once.
pub proof fn law_repeated_unit_counts_once(s: Seq<char>, suffix: Seq<char>, millis: nat)
    requires
        is_unit(suffix, millis),
        text::ends_with(s, suffix),
        suffix == "s"@ ==> !text::ends_with(s, "ms"@),
        !text::is_space(s[0]),
    ensures
        duration_millis(s + suffix) == duration_millis(s),
{
    let all = s + suffix;
    let n = s.len() as int;
    assert(suffix.len() > 0 && !text::is_space(suffix[suffix.len() - 1]) && (suffix == "ms"@
        ==> suffix.len() == 2 && suffix[0] == 'm' && suffix[1] == 's') && (suffix == "s"@
        ==> suffix.len() == 1 && suffix[0] == 's') && (suffix == "m"@ ==> suffix.len() == 1
        && suffix[0] == 'm') && (suffix == "h"@ ==> suffix.len() == 1 && suffix[0] == 'h')) by {
        reveal_strlit("ms");
        reveal_strlit("s");
        reveal_strlit("m");
        reveal_strlit("h");
    }
    assert(s.skip(n - suffix.len())[suffix.len() - 1] == s[n - 1]);
    assert(s[n - 1] == suffix[suffix.len() - 1]);
    assert(all[all.len() - 1] == suffix[suffix.len() - 1]);
    assert(all[0] == s[0]);
    if suffix.len() == 1 {
        assert(all[all.len() - 2] == s[n - 1]);
    } else {
        assert(all[all.len() - 2] == suffix[0]);
    }
    lemma_ends_in_unit(s);
    lemma_ends_in_unit(all);
    text::law_suffixes_are_removed(s, suffix);
    let none = Seq::<char>::empty();
    text::law_trimming_frees_the_middle(none, s, none);
    assert(none + s + none =~= s);
    text::law_trimming_frees_the_middle(none, all, none);
    assert(none + all + none =~= all);
    assert(duration_parts(all) == duration_parts(s));
}

} // verus!
