//! What has to hold before probes are loaded, where they are attached, and
//! which of their reports are taken.
use crate::aggregator::NetworkFlowEvent;
use crate::text;
use crate::text::{
    cut_before, cut_behind, has_prefix, parse_unsigned, same_text, split_lines, split_words, trim,
};
use vstd::prelude::*;

verus! {

/// What `String::from_utf8` says of bytes that it refuses.
pub uninterp spec fn utf8_error_text(bytes: Seq<u8>) -> Seq<char>;

/// Calls `String::from_utf8`, which decodes bytes that are UTF-8 and refuses
/// all others with an error, here handed on as its text. Of the text nothing is
/// said but that the same bytes give the same.
#[verifier::external_body]
fn decode_utf8(bytes: Vec<u8>) -> (r: Result<String, String>)
    ensures
        r is Ok <==> vstd::utf8::valid_utf8(bytes@),
        r matches Ok(s) ==> s@ == vstd::utf8::decode_utf8(bytes@),
        r matches Err(e) ==> e@ == utf8_error_text(bytes@),
{
    match String::from_utf8(bytes) {
        Ok(s) => Ok(s),
        Err(e) => Err(format!("{}", e)),
    }
}

/// Why a kernel is not accepted.
#[derive(Debug)]
pub enum KernelError {
    /// The version is not UTF-8; with what the decoder says of it.
    NotUtf8(String),
    /// The version has no minor part.
    Unparsed(String),
    /// The major part is no number.
    InvalidMajor,
    /// The minor part is no number.
    InvalidMinor,
    /// The kernel is older than probes need.
    TooOld(String),
}

/// The abstract value of a `KernelError`.
pub enum KernelFault {
    NotUtf8(Seq<char>),
    Unparsed(Seq<char>),
    InvalidMajor,
    InvalidMinor,
    TooOld(Seq<char>),
}

impl View for KernelError {
    type V = KernelFault;

    open spec fn view(&self) -> KernelFault {
        match self {
            KernelError::NotUtf8(s) => KernelFault::NotUtf8(s@),
            KernelError::Unparsed(s) => KernelFault::Unparsed(s@),
            KernelError::InvalidMajor => KernelFault::InvalidMajor,
            KernelError::InvalidMinor => KernelFault::InvalidMinor,
            KernelError::TooOld(s) => KernelFault::TooOld(s@),
        }
    }
}

/// Whether a kernel is new enough: version 5.8 or later.
pub open spec fn kernel_supported(major: nat, minor: nat) -> bool {
    major > 5 || (major == 5 && minor >= 8)
}

/// What is wrong with a kernel version, if anything. The major version is the
/// text before the first dot; the minor version follows, up to the next dot or
/// hyphen.
pub open spec fn kernel_fault(version: Seq<char>) -> Option<KernelFault> {
    if text::find_from(version, '.', 0) >= version.len() {
        Some(KernelFault::Unparsed(version))
    } else {
        let major = text::trimmed(text::before_char(version, '.'));
        let rest = text::before_char(text::behind_char(version, '.'), '.');
        let minor = text::trimmed(text::before_char(rest, '-'));
        let max = u32::MAX as nat;
        match (text::parsed_unsigned(major, max), text::parsed_unsigned(minor, max)) {
            (None, _) => Some(KernelFault::InvalidMajor),
            (Some(_), None) => Some(KernelFault::InvalidMinor),
            (Some(a), Some(b)) => if kernel_supported(a, b) {
                None
            } else {
                Some(KernelFault::TooOld(text::trimmed(version)))
            },
        }
    }
}

/// Whether `r` is the verdict on a kernel with this fault.
pub open spec fn is_verdict(r: Result<(), KernelError>, fault: Option<KernelFault>) -> bool {
    match r {
        Ok(_) => fault is None,
        Err(e) => fault == Some(e@),
    }
}

/// What is wrong with the bytes that a kernel reports as its version.
pub open spec fn report_fault(report: Seq<u8>) -> Option<KernelFault> {
    if vstd::utf8::valid_utf8(report) {
        kernel_fault(vstd::utf8::decode_utf8(report))
    } else {
        Some(KernelFault::NotUtf8(utf8_error_text(report)))
    }
}

/// Judges the version that the kernel reports as bytes.
pub fn check_kernel_version(report: Vec<u8>) -> (r: Result<(), KernelError>)
    ensures
        is_verdict(r, report_fault(report@)),
{
    match decode_utf8(report) {
        Ok(version) => check_version_text(version.as_str()),
        Err(e) => Err(KernelError::NotUtf8(e)),
    }
}

/// Judges a kernel version.
pub fn check_version_text(version: &str) -> (r: Result<(), KernelError>)
    ensures
        is_verdict(r, kernel_fault(version@)),
{
    let rest: &str = match cut_behind(version, '.') {
        Some(rest) => rest,
        None => {
            return Err(KernelError::Unparsed(version.to_owned()));
        },
    };
    let major: u64 = match parse_unsigned(trim(cut_before(version, '.')), u32::MAX as u64) {
        Some(n) => n,
        None => {
            return Err(KernelError::InvalidMajor);
        },
    };
    let minor_part: &str = cut_before(rest, '.');
    let minor: u64 = match parse_unsigned(trim(cut_before(minor_part, '-')), u32::MAX as u64) {
        Some(n) => n,
        None => {
            return Err(KernelError::InvalidMinor);
        },
    };
    if major < 5 || (major == 5 && minor < 8) {
        return Err(KernelError::TooOld(trim(version).to_owned()));
    }
    Ok(())
}

impl KernelError {
    /// What is said about the kernel.
    pub fn message(&self) -> (r: String)
        ensures
            r@ == (match self@ {
                KernelFault::NotUtf8(s) => s,
                KernelFault::Unparsed(s) => "Could not parse kernel version: "@ + s,
                KernelFault::InvalidMajor => "Invalid kernel major version"@,
                KernelFault::InvalidMinor => "Invalid kernel minor version"@,
                KernelFault::TooOld(s) => "Kernel "@ + s
                    + " is too old. eBPF requires kernel 5.8+ (5.15+ recommended)"@,
            }),
    {
        match self {
            KernelError::NotUtf8(s) => s.clone(),
            KernelError::Unparsed(s) => {
                let mut r: String = "Could not parse kernel version: ".to_owned();
                r.append(s.as_str());
                r
            },
            KernelError::InvalidMajor => "Invalid kernel major version".to_owned(),
            KernelError::InvalidMinor => "Invalid kernel minor version".to_owned(),
            KernelError::TooOld(s) => {
                let mut r: String = "Kernel ".to_owned();
                r.append(s.as_str());
                r.append(" is too old. eBPF requires kernel 5.8+ (5.15+ recommended)");
                r
            },
        }
    }
}

/// What deserves a warning though probes can be loaded.
#[derive(Debug, Clone, Copy, PartialEq, Eq, Structural)]
pub struct PreflightReport {
    /// The kernel offers no type information.
    pub btf_missing: bool,
    /// The agent does not run as root.
    pub unprivileged: bool,
}

/// Decides whether probes can be loaded. Only the kernel's version can forbid
/// it.
pub fn run_preflight_checks(kernel_report: Vec<u8>, btf_available: bool, euid: u32) -> (r: Result<
    PreflightReport,
    KernelError,
>)
    ensures
        match r {
            Ok(report) => {
                &&& report_fault(kernel_report@) is None
                &&& report == (PreflightReport {
                    btf_missing: !btf_available,
                    unprivileged: euid != 0,
                })
            },
            Err(e) => report_fault(kernel_report@) == Some(e@),
        },
{
    match check_kernel_version(kernel_report) {
        Ok(_) => Ok(PreflightReport { btf_missing: !btf_available, unprivileged: euid != 0 }),
        Err(e) => Err(e),
    }
}

/// The path that exists exactly where a network interface does.
pub fn interface_path(name: &str) -> (r: String)
    ensures
        r@ == "/sys/class/net/"@ + name@,
{
    let mut r: String = "/sys/class/net/".to_owned();
    r.append(name);
    r
}

/// Whether a line of the routing table is a default route that does not lead
/// to the loopback interface.
pub open spec fn is_default_route(line: Seq<char>) -> bool {
    let fields = text::words(line);
    fields.len() >= 2 && fields[1] == "00000000"@ && fields[0] != "lo"@
}

/// The interface of the first default route from line `i` on.
pub open spec fn default_route_from(lines: Seq<Seq<char>>, i: int) -> Option<Seq<char>>
    decreases lines.len() - i,
{
    if 0 <= i < lines.len() {
        if is_default_route(lines[i]) {
            Some(text::words(lines[i])[0])
        } else {
            default_route_from(lines, i + 1)
        }
    } else {
        None
    }
}

/// Whether `found` is the text that `wanted` holds.
pub open spec fn is_text(found: Option<String>, wanted: Option<Seq<char>>) -> bool {
    match found {
        Some(s) => wanted == Some(s@),
        None => wanted is None,
    }
}

/// The interface of the first default route in the kernel's routing table,
/// whose first line is a heading.
pub fn get_default_route_interface(route_content: &str) -> (r: Option<String>)
    ensures
        is_text(r, default_route_from(text::lines(route_content@), 1)),
{
    let lines: Vec<String> = split_lines(route_content);
    let ghost all = text::lines(route_content@);
    let mut i: usize = 1;
    while i < lines.len()
        invariant
            1 <= i,
            all == text::lines(route_content@),
            text::texts(lines@) == all,
            default_route_from(all, i as int) == default_route_from(all, 1),
        decreases lines.len() - i,
    {
        assert(all[i as int] == lines@[i as int]@);
        let fields: Vec<String> = split_words(lines[i].as_str());
        if fields.len() >= 2 {
            assert(text::texts(fields@)[0] == fields@[0]@);
            assert(text::texts(fields@)[1] == fields@[1]@);
            if same_text(fields[1].as_str(), "00000000") && !same_text(fields[0].as_str(), "lo") {
                return Some(fields[0].clone());
            }
        }
        i += 1;
    }
    None
}

/// The first of some names, from position `i` on, that a bridge made by Docker
/// has.
pub open spec fn docker_bridge_from(names: Seq<Seq<char>>, i: int) -> Option<Seq<char>>
    decreases names.len() - i,
{
    if 0 <= i < names.len() {
        if text::starts_with(names[i], "br-"@) {
            Some(names[i])
        } else {
            docker_bridge_from(names, i + 1)
        }
    } else {
        None
    }
}

/// The first of some interface names that a bridge made by Docker has.
pub fn find_docker_bridge(names: &Vec<String>) -> (r: Option<String>)
    ensures
        is_text(r, docker_bridge_from(text::texts(names@), 0)),
{
    let ghost all = text::texts(names@);
    let mut i: usize = 0;
    while i < names.len()
        invariant
            all == text::texts(names@),
            docker_bridge_from(all, i as int) == docker_bridge_from(all, 0),
        decreases names.len() - i,
    {
        assert(all[i as int] == names@[i as int]@);
        if has_prefix(names[i].as_str(), "br-") {
            return Some(names[i].clone());
        }
        i += 1;
    }
    None
}

/// What the machine shows of its network interfaces.
#[derive(Debug)]
pub struct InterfaceProbe {
    /// The interface of the default route.
    pub default_route: Option<String>,
    /// Whether `eth0` exists.
    pub eth0: bool,
    /// Whether `cni0` exists.
    pub cni0: bool,
    /// Whether `docker0` exists.
    pub docker0: bool,
    /// Whether `cbr0` exists.
    pub cbr0: bool,
    /// A bridge that Docker made.
    pub docker_bridge: Option<String>,
}

/// The interface that leads out of the node.
pub open spec fn primary_interfaces(probe: InterfaceProbe) -> Seq<Seq<char>> {
    match probe.default_route {
        Some(name) => seq![name@],
        None => if probe.eth0 {
            seq!["eth0"@]
        } else {
            Seq::empty()
        },
    }
}

/// The first container bridge that exists.
pub open spec fn container_bridges(probe: InterfaceProbe) -> Seq<Seq<char>> {
    if probe.cni0 {
        seq!["cni0"@]
    } else if probe.docker0 {
        seq!["docker0"@]
    } else if probe.cbr0 {
        seq!["cbr0"@]
    } else {
        Seq::empty()
    }
}

/// The interfaces that are monitored: the primary one, a container bridge, a
/// bridge that Docker made unless it is there already, and the loopback
/// interface where nothing else was found.
pub open spec fn monitored_interfaces(probe: InterfaceProbe) -> Seq<Seq<char>> {
    let found = primary_interfaces(probe) + container_bridges(probe);
    let all = match probe.docker_bridge {
        Some(name) => if found.contains(name@) {
            found
        } else {
            found.push(name@)
        },
        None => found,
    };
    if all.len() == 0 {
        seq!["lo"@]
    } else {
        all
    }
}

/// Chooses the interfaces that are monitored.
pub fn discover_interfaces(probe: &InterfaceProbe) -> (r: Vec<String>)
    ensures
        text::texts(r@) == monitored_interfaces(*probe),
{
    let mut interfaces: Vec<String> = Vec::new();
    assert(text::texts(interfaces@) =~= Seq::<Seq<char>>::empty());
    match &probe.default_route {
        Some(primary) => {
            interfaces.push(primary.clone());
        },
        None => {
            if probe.eth0 {
                interfaces.push("eth0".to_owned());
            }
        },
    }
    assert(text::texts(interfaces@) =~= primary_interfaces(*probe));
    if probe.cni0 {
        interfaces.push("cni0".to_owned());
    } else if probe.docker0 {
        interfaces.push("docker0".to_owned());
    } else if probe.cbr0 {
        interfaces.push("cbr0".to_owned());
    }
    let ghost found = primary_interfaces(*probe) + container_bridges(*probe);
    assert(text::texts(interfaces@) =~= found);
    if let Some(docker_bridge) = &probe.docker_bridge {
        if !text::contains_text(interfaces.as_slice(), docker_bridge.as_str()) {
            interfaces.push(docker_bridge.clone());
            assert(text::texts(interfaces@) =~= found.push(docker_bridge@));
        }
    }
    if interfaces.len() == 0 {
        interfaces.push("lo".to_owned());
        assert(text::texts(interfaces@) =~= seq!["lo"@]);
    }
    interfaces
}

/// The side of an interface that a probe watches.
#[derive(Debug, Clone, Copy, PartialEq, Eq, Structural)]
pub enum ProbeSide {
    Ingress,
    Egress,
}

impl ProbeSide {
    /// The name of the program that watches this side.
    pub open spec fn program(self) -> Seq<char> {
        match self {
            ProbeSide::Ingress => "network_probe"@,
            ProbeSide::Egress => "network_probe_egress"@,
        }
    }

    /// The name of the program that watches this side.
    pub fn program_name(self) -> (r: &'static str)
        ensures
            r@ == self.program(),
    {
        match self {
            ProbeSide::Ingress => "network_probe",
            ProbeSide::Egress => "network_probe_egress",
        }
    }
}

/// A step on the way to attached probes.
#[derive(Debug)]
pub enum AttachStep {
    /// Give an interface the queueing discipline that probes hook into.
    PrepareInterface(String),
    /// Load the program for a side.
    LoadProgram(ProbeSide),
    /// Attach the program for a side to an interface.
    AttachProgram(ProbeSide, String),
}

/// The abstract value of an `AttachStep`.
pub enum StepView {
    PrepareInterface(Seq<char>),
    LoadProgram(ProbeSide),
    AttachProgram(ProbeSide, Seq<char>),
}

impl View for AttachStep {
    type V = StepView;

    open spec fn view(&self) -> StepView {
        match self {
            AttachStep::PrepareInterface(s) => StepView::PrepareInterface(s@),
            AttachStep::LoadProgram(side) => StepView::LoadProgram(*side),
            AttachStep::AttachProgram(side, s) => StepView::AttachProgram(*side, s@),
        }
    }
}

/// The steps of a list.
pub open spec fn step_views(steps: Seq<AttachStep>) -> Seq<StepView> {
    steps.map_values(|s: AttachStep| s@)
}

/// The steps that load the program for a side and attach it everywhere.
pub open spec fn side_steps(side: ProbeSide, interfaces: Seq<Seq<char>>) -> Seq<StepView> {
    seq![StepView::LoadProgram(side)] + interfaces.map_values(
        |name: Seq<char>| StepView::AttachProgram(side, name),
    )
}

/// All steps to attached probes, in order.
pub open spec fn all_steps(interfaces: Seq<Seq<char>>) -> Seq<StepView> {
    interfaces.map_values(|name: Seq<char>| StepView::PrepareInterface(name)) + side_steps(
        ProbeSide::Ingress,
        interfaces,
    ) + side_steps(ProbeSide::Egress, interfaces)
}

/// Appends the steps for a side.
fn push_side(steps: &mut Vec<AttachStep>, side: ProbeSide, interfaces: &[String])
    ensures
        step_views(final(steps)@) == step_views(old(steps)@) + side_steps(
            side,
            text::texts(interfaces@),
        ),
{
    let ghost names = text::texts(interfaces@);
    let ghost wanted = side_steps(side, names);
    steps.push(AttachStep::LoadProgram(side));
    assert(step_views(steps@) =~= step_views(old(steps)@) + wanted.take(1));
    let mut i: usize = 0;
    while i < interfaces.len()
        invariant
            i <= interfaces.len(),
            names == text::texts(interfaces@),
            wanted == side_steps(side, names),
            step_views(steps@) == step_views(old(steps)@) + wanted.take(i + 1),
        decreases interfaces.len() - i,
    {
        let ghost before = steps@;
        steps.push(AttachStep::AttachProgram(side, interfaces[i].clone()));
        i += 1;
        assert(step_views(steps@) =~= step_views(before).push(wanted[i as int]));
        assert(wanted.take(i + 1) =~= wanted.take(i as int).push(wanted[i as int]));
        assert(step_views(steps@) =~= step_views(old(steps)@) + wanted.take(i + 1));
    }
    assert(wanted.take(wanted.len() as int) =~= wanted);
}

/// The steps that attach probes to interfaces: first every interface is
/// prepared, and then the programs are loaded and attached everywhere, the one
/// for incoming packets first.
pub fn attach_steps(interfaces: &[String]) -> (r: Vec<AttachStep>)
    ensures
        step_views(r@) == all_steps(text::texts(interfaces@)),
{
    let ghost names = text::texts(interfaces@);
    let ghost first = names.map_values(|name: Seq<char>| StepView::PrepareInterface(name));
    let mut steps: Vec<AttachStep> = Vec::new();
    assert(step_views(steps@) =~= first.take(0));
    let mut i: usize = 0;
    while i < interfaces.len()
        invariant
            i <= interfaces.len(),
            names == text::texts(interfaces@),
            first == names.map_values(|name: Seq<char>| StepView::PrepareInterface(name)),
            step_views(steps@) == first.take(i as int),
        decreases interfaces.len() - i,
    {
        let ghost before = steps@;
        steps.push(AttachStep::PrepareInterface(interfaces[i].clone()));
        i += 1;
        assert(step_views(steps@) =~= step_views(before).push(first[i - 1]));
        assert(first.take(i as int) =~= first.take(i - 1).push(first[i - 1]));
        assert(step_views(steps@) =~= first.take(i as int));
    }
    assert(first.take(first.len() as int) =~= first);
    push_side(&mut steps, ProbeSide::Ingress, interfaces);
    push_side(&mut steps, ProbeSide::Egress, interfaces);
    assert(step_views(steps@) =~= all_steps(names));
    steps
}

impl AttachStep {
    /// Whether the agent gives up where this step fails. An interface that
    /// cannot be prepared or attached to is passed over; a program that cannot
    /// be loaded is not.
    pub fn failure_is_fatal(&self) -> (r: bool)
        ensures
            r == (self@ is LoadProgram),
    {
        match self {
            AttachStep::LoadProgram(_) => true,
            _ => false,
        }
    }
}

/// What to do with an item that was taken off the ring buffer.
#[derive(Debug, Clone, Copy, PartialEq, Eq, Structural)]
pub enum PollStep {
    /// Take the item as a packet.
    Take,
    /// Pass over an item of the wrong size.
    Skip,
}

/// Whether a batch of `collected` packets has room for another.
pub open spec fn has_room(collected: nat, max_batch_size: nat) -> bool {
    collected < max_batch_size
}

/// What to do with an item.
pub open spec fn step_for(right_size: bool) -> PollStep {
    if right_size {
        PollStep::Take
    } else {
        PollStep::Skip
    }
}

/// The packets that are taken off a ring buffer behind those already taken.
/// An item of the wrong size is none.
pub open spec fn polled(
    taken: Seq<NetworkFlowEvent>,
    max_batch_size: nat,
    items: Seq<Option<NetworkFlowEvent>>,
) -> Seq<NetworkFlowEvent>
    decreases items.len(),
{
    if !has_room(taken.len(), max_batch_size) || items.len() == 0 {
        taken
    } else {
        match step_for(items[0] is Some) {
            PollStep::Take => polled(taken.push(items[0]->0), max_batch_size, items.skip(1)),
            PollStep::Skip => polled(taken, max_batch_size, items.skip(1)),
        }
    }
}

/// The items that a poll leaves on the ring buffer where `collected` packets
/// were already taken.
pub open spec fn left_behind(
    collected: nat,
    max_batch_size: nat,
    items: Seq<Option<NetworkFlowEvent>>,
) -> Seq<Option<NetworkFlowEvent>>
    decreases items.len(),
{
    if !has_room(collected, max_batch_size) || items.len() == 0 {
        items
    } else {
        match step_for(items[0] is Some) {
            PollStep::Take => left_behind(collected + 1, max_batch_size, items.skip(1)),
            PollStep::Skip => left_behind(collected, max_batch_size, items.skip(1)),
        }
    }
}

/// The packets among some items.
pub open spec fn packets(items: Seq<Option<NetworkFlowEvent>>) -> Seq<NetworkFlowEvent>
    decreases items.len(),
{
    if items.len() == 0 {
        Seq::empty()
    } else if items[0] is Some {
        seq![items[0]->0] + packets(items.skip(1))
    } else {
        packets(items.skip(1))
    }
}

/// The abstract value of an `EventBatch`.
pub struct BatchView {
    pub taken: Seq<NetworkFlowEvent>,
    pub max_batch_size: nat,
}

impl BatchView {
    /// Whether the batch has no more packets than it may.
    pub open spec fn bounded(self) -> bool {
        self.taken.len() <= self.max_batch_size
    }

    /// Whether there is room for another packet.
    pub open spec fn wants_more(self) -> bool {
        has_room(self.taken.len(), self.max_batch_size)
    }

    /// The batch after an item was offered to it.
    pub open spec fn with_item(self, item: Option<NetworkFlowEvent>) -> BatchView {
        match step_for(item is Some) {
            PollStep::Take => BatchView { taken: self.taken.push(item->0), ..self },
            PollStep::Skip => self,
        }
    }

    /// The batch after items were offered to it for as long as it had room.
    pub open spec fn with_items(self, items: Seq<Option<NetworkFlowEvent>>) -> BatchView
        decreases items.len(),
    {
        if !self.wants_more() || items.len() == 0 {
            self
        } else {
            self.with_item(items[0]).with_items(items.skip(1))
        }
    }
}

/// The packets that one poll takes off the ring buffer. As long as there is
/// room, and only then, an item is taken off the ring buffer and offered, so
/// that nothing is taken that has no place.
#[derive(Debug)]
pub struct EventBatch {
    events: Vec<NetworkFlowEvent>,
    max_batch_size: usize,
}

impl View for EventBatch {
    type V = BatchView;

    closed spec fn view(&self) -> BatchView {
        BatchView { taken: self.events@, max_batch_size: self.max_batch_size as nat }
    }
}

impl EventBatch {
    /// An empty batch for `max_batch_size` packets.
    pub fn new(max_batch_size: usize) -> (r: Self)
        ensures
            r@ == (BatchView { taken: Seq::empty(), max_batch_size: max_batch_size as nat }),
            r@.bounded(),
    {
        EventBatch { events: Vec::new(), max_batch_size }
    }

    /// Tests whether there is room for another packet.
    pub fn wants_more(&self) -> (r: bool)
        ensures
            r == self@.wants_more(),
    {
        self.events.len() < self.max_batch_size
    }

    /// Takes the packet of an item, where the item is one.
    pub fn offer(&mut self, item: Option<NetworkFlowEvent>)
        requires
            old(self)@.wants_more(),
        ensures
            final(self)@ == old(self)@.with_item(item),
            final(self)@.bounded(),
    {
        if let Some(event) = item {
            self.events.push(event);
        }
    }

    /// The packets that were taken, in order.
    pub fn into_events(self) -> (r: Vec<NetworkFlowEvent>)
        ensures
            r@ == self@.taken,
    {
        self.events
    }
}

/// Decides on an item of `item_len` bytes, where a packet has `event_size`.
pub fn poll_step(item_len: usize, event_size: usize) -> (r: PollStep)
    ensures
        r == step_for(item_len == event_size),
{
    if item_len == event_size {
        PollStep::Take
    } else {
        PollStep::Skip
    }
}

/// Some interface is always monitored.
pub proof fn law_some_interface_is_monitored(probe: InterfaceProbe)
    ensures
        monitored_interfaces(probe).len() > 0,
{
}

/// Every interface is prepared before any program is attached to it, and each
/// program is attached to every interface exactly once.
pub proof fn law_probes_cover_both_sides_of_all_interfaces(interfaces: Seq<Seq<char>>, i: int)
    requires
        0 <= i < interfaces.len(),
    ensures
        all_steps(interfaces).len() == 3 * interfaces.len() + 2,
        all_steps(interfaces)[i] == StepView::PrepareInterface(interfaces[i]),
        all_steps(interfaces)[interfaces.len() as int] == StepView::LoadProgram(ProbeSide::Ingress),
        all_steps(interfaces)[interfaces.len() + 1 + i] == StepView::AttachProgram(
            ProbeSide::Ingress,
            interfaces[i],
        ),
        all_steps(interfaces)[2 * interfaces.len() + 1int] == StepView::LoadProgram(ProbeSide::Egress),
        all_steps(interfaces)[2 * interfaces.len() + 2 + i] == StepView::AttachProgram(
            ProbeSide::Egress,
            interfaces[i],
        ),
{
}

/// A poll takes the packets in their order, up to the size of a batch, and
/// passes over items of the wrong size.
pub proof fn law_poll_takes_the_first_packets(
    taken: Seq<NetworkFlowEvent>,
    max_batch_size: nat,
    items: Seq<Option<NetworkFlowEvent>>,
)
    requires
        taken.len() <= max_batch_size,
    ensures
        polled(taken, max_batch_size, items) == taken + packets(items).take(
            if packets(items).len() <= max_batch_size - taken.len() {
                packets(items).len() as int
            } else {
                max_batch_size - taken.len()
            },
        ),
    decreases items.len(),
{
    let found = packets(items);
    let room = max_batch_size - taken.len();
    let n = if found.len() <= room {
        found.len() as int
    } else {
        room
    };
    if items.len() == 0 || room == 0 {
        assert(taken + found.take(n) =~= taken);
    } else if items[0] is Some {
        law_poll_takes_the_first_packets(taken.push(items[0]->0), max_batch_size, items.skip(1));
        assert(taken + found.take(n) =~= taken.push(items[0]->0) + packets(items.skip(1)).take(
            n - 1,
        ));
    } else {
        law_poll_takes_the_first_packets(taken, max_batch_size, items.skip(1));
    }
}

/// A batch that is offered the items of a ring buffer takes what a poll takes,
/// never more than it may, and is full where a poll leaves items.
pub proof fn law_batch_is_what_a_poll_takes(
    batch: BatchView,
    items: Seq<Option<NetworkFlowEvent>>,
)
    ensures
        batch.with_items(items).taken == polled(batch.taken, batch.max_batch_size, items),
        batch.with_items(items).max_batch_size == batch.max_batch_size,
        batch.bounded() ==> batch.with_items(items).bounded(),
        left_behind(batch.taken.len(), batch.max_batch_size, items).len() > 0
            ==> !batch.with_items(items).wants_more(),
    decreases items.len(),
{
    if batch.wants_more() && items.len() > 0 {
        law_batch_is_what_a_poll_takes(batch.with_item(items[0]), items.skip(1));
    }
}

proof fn lemma_packets_of_concatenation(
    a: Seq<Option<NetworkFlowEvent>>,
    b: Seq<Option<NetworkFlowEvent>>,
)
    ensures
        packets(a + b) == packets(a) + packets(b),
    decreases a.len(),
{
    if a.len() == 0 {
        assert(a + b =~= b);
        assert(packets(a) + packets(b) =~= packets(b));
    } else {
        lemma_packets_of_concatenation(a.skip(1), b);
        assert((a + b).skip(1) =~= a.skip(1) + b);
        assert(packets(a + b) =~= packets(a) + packets(b));
    }
}

/// A poll loses no packet: each one was taken or stays on the ring buffer, in
/// order. Something stays only where the batch is full.
pub proof fn law_poll_loses_no_packet(
    taken: Seq<NetworkFlowEvent>,
    max_batch_size: nat,
    items: Seq<Option<NetworkFlowEvent>>,
)
    ensures
        taken + packets(items) == polled(taken, max_batch_size, items) + packets(
            left_behind(taken.len(), max_batch_size, items),
        ),
        left_behind(taken.len(), max_batch_size, items).len() > 0 ==> polled(
            taken,
            max_batch_size,
            items,
        ).len() >= max_batch_size,
        left_behind(taken.len(), max_batch_size, items).is_suffix_of(items),
    decreases items.len(),
{
    if !has_room(taken.len(), max_batch_size) || items.len() == 0 {
        assert(items.skip(0) =~= items);
    } else if items[0] is Some {
        law_poll_loses_no_packet(taken.push(items[0]->0), max_batch_size, items.skip(1));
        assert(taken + packets(items) =~= taken.push(items[0]->0) + packets(items.skip(1)));
    } else {
        law_poll_loses_no_packet(taken, max_batch_size, items.skip(1));
    }
}

/// The next poll goes on where the last one stopped: with what came in between,
/// both together take the first packets of all, in order.
pub proof fn law_next_poll_goes_on(
    items: Seq<Option<NetworkFlowEvent>>,
    more: Seq<Option<NetworkFlowEvent>>,
    max_batch_size: nat,
    next_batch_size: nat,
)
    ensures
        ({
            let first = polled(Seq::empty(), max_batch_size, items);
            let left = left_behind(0, max_batch_size, items);
            let next = polled(Seq::empty(), next_batch_size, left + more);
            let all = packets(items + more);
            &&& (first + next).is_prefix_of(all)
            &&& next.len() == next_batch_size || first + next == all
        }),
{
    let none = Seq::<NetworkFlowEvent>::empty();
    let first = polled(none, max_batch_size, items);
    let left = left_behind(0, max_batch_size, items);
    let next = polled(none, next_batch_size, left + more);
    let all = packets(items + more);
    law_poll_loses_no_packet(none, max_batch_size, items);
    law_poll_takes_the_first_packets(none, next_batch_size, left + more);
    lemma_packets_of_concatenation(items, more);
    lemma_packets_of_concatenation(left, more);
    let rest = packets(left + more);
    assert(none + packets(items) =~= packets(items));
    assert(all =~= first + rest);
    assert(next =~= rest.take(next.len() as int));
    assert(first + next =~= all.take((first + next).len() as int));
    if next.len() != next_batch_size {
        assert(next =~= rest);
    }
}

proof fn lemma_decimal_is_bare(n: nat)
    ensures
        text::decimal(n).len() > 0,
        text::trimmed(text::decimal(n)) == text::decimal(n),
        forall|i: int|
            0 <= i < text::decimal(n).len() ==> #[trigger] text::decimal(n)[i] != '.'
                && text::decimal(n)[i] != '-' && !text::is_space(text::decimal(n)[i]),
{
    let d = text::decimal(n);
    text::law_numbers_are_written_shortest(n);
    let none = Seq::<char>::empty();
    assert('0' <= d[0] <= '9' && '0' <= d[d.len() - 1] <= '9');
    text::law_trimming_frees_the_middle(none, d, none);
    assert(none + d + none =~= d);
}

/// A kernel is accepted exactly from version 5.8 on, whatever its version says
/// behind the minor number, a dot, a hyphen or white space; an older one is
/// refused with its version.
pub proof fn law_kernels_from_5_8_are_accepted(major: nat, minor: nat, rest: Seq<char>)
    requires
        major <= u32::MAX,
        minor <= u32::MAX,
        rest.len() == 0 || rest[0] == '.' || rest[0] == '-' || (forall|i: int|
            0 <= i < rest.len() ==> text::is_space(#[trigger] rest[i])),
    ensures
        ({
            let version = text::decimal(major) + seq!['.'] + text::decimal(minor) + rest;
            &&& major >= 6 ==> kernel_fault(version) is None
            &&& major == 5 && minor >= 8 ==> kernel_fault(version) is None
            &&& major == 5 && minor <= 7 ==> kernel_fault(version) == Some(
                KernelFault::TooOld(text::trimmed(version)),
            )
            &&& major <= 4 ==> kernel_fault(version) == Some(
                KernelFault::TooOld(text::trimmed(version)),
            )
        }),
{
    let a = text::decimal(major);
    let b = text::decimal(minor);
    let version = a + seq!['.'] + b + rest;
    lemma_decimal_is_bare(major);
    lemma_decimal_is_bare(minor);
    text::law_decimal_is_read_back(major, u32::MAX as nat);
    text::law_decimal_is_read_back(minor, u32::MAX as nat);
    assert(version =~= a + seq!['.'] + (b + rest));
    text::law_text_is_cut_at_the_first(a, '.', b + rest);
    text::law_cut_goes_on_past_a_beginning(b, rest, '.');
    let tail = text::before_char(rest, '.');
    let part = b + tail;
    assert(text::before_char(b + rest, '.') == part);
    if rest.len() == 0 || rest[0] == '.' {
        assert(tail =~= Seq::<char>::empty());
        assert(part =~= b);
        text::law_text_is_cut_at_the_first(b, '-', rest);
    } else if rest[0] == '-' {
        let more = rest.skip(1);
        text::law_cut_goes_on_past_a_beginning(seq!['-'], more, '.');
        assert(rest =~= seq!['-'] + more);
        let y = text::before_char(more, '.');
        assert(part =~= b + seq!['-'] + y);
        text::law_text_is_cut_at_the_first(b, '-', y);
    } else {
        assert forall|i: int| 0 <= i < rest.len() implies #[trigger] rest[i] != '.' && rest[i]
            != '-' by {
            assert(text::is_space(rest[i]));
        }
        text::law_text_is_cut_at_the_first(rest, '.', rest);
        assert(tail == rest);
        assert forall|i: int| 0 <= i < part.len() implies #[trigger] part[i] != '-' by {
            if i < b.len() {
                assert(b[i] != '-');
            } else {
                assert(part[i] == rest[i - b.len()]);
            }
        }
        text::law_text_is_cut_at_the_first(part, '-', rest);
        let none = Seq::<char>::empty();
        text::law_trimming_frees_the_middle(none, b, rest);
        assert(none + b + rest =~= part);
    }
}

/// A version without a dot is not parsed; one whose part before the first dot
/// is no number has an invalid major version; and one whose part behind it, up
/// to a dot or hyphen, is none has an invalid minor version.
pub proof fn law_malformed_versions_are_refused(a: Seq<char>, b: Seq<char>, rest: Seq<char>)
    requires
        forall|i: int| 0 <= i < a.len() ==> #[trigger] a[i] != '.',
        forall|i: int| 0 <= i < b.len() ==> #[trigger] b[i] != '.' && b[i] != '-',
    ensures
        kernel_fault(a) == Some(KernelFault::Unparsed(a)),
        text::parsed_unsigned(text::trimmed(a), u32::MAX as nat) is None ==> kernel_fault(
            a + seq!['.'] + rest,
        ) == Some(KernelFault::InvalidMajor),
        text::parsed_unsigned(text::trimmed(a), u32::MAX as nat) is Some && text::parsed_unsigned(
            text::trimmed(b),
            u32::MAX as nat,
        ) is None ==> kernel_fault(a + seq!['.'] + b) == Some(KernelFault::InvalidMinor)
            && kernel_fault(a + seq!['.'] + b + seq!['.'] + rest) == Some(
            KernelFault::InvalidMinor,
        ),
{
    text::law_text_is_cut_at_the_first(a, '.', rest);
    text::law_text_is_cut_at_the_first(a, '.', b);
    text::law_text_is_cut_at_the_first(a, '.', b + seq!['.'] + rest);
    text::law_text_is_cut_at_the_first(b, '.', rest);
    text::law_text_is_cut_at_the_first(b, '-', rest);
    assert(a + seq!['.'] + b + seq!['.'] + rest =~= a + seq!['.'] + (b + seq!['.'] + rest));
}

/// What a kernel reports is judged by the text that it encodes; what encodes no
/// text is refused as such.
pub proof fn law_reports_are_judged_by_their_text(version: Seq<char>, report: Seq<u8>)
    ensures
        report_fault(vstd::utf8::encode_utf8(version)) == kernel_fault(version),
        !vstd::utf8::valid_utf8(report) ==> report_fault(report) == Some(
            KernelFault::NotUtf8(utf8_error_text(report)),
        ),
{
    vstd::utf8::encode_utf8_valid_utf8(version);
    vstd::utf8::encode_utf8_decode_utf8(version);
}

proof fn lemma_first_default_route(lines: Seq<Seq<char>>, i: int)
    requires
        0 <= i,
    ensures
        default_route_from(lines, i) is None ==> forall|j: int|
            i <= j < lines.len() ==> !is_default_route(#[trigger] lines[j]),
        default_route_from(lines, i) matches Some(name) ==> exists|j: int|
            {
                &&& i <= j < lines.len()
                &&& is_default_route(#[trigger] lines[j])
                &&& text::words(lines[j])[0] == name
                &&& forall|k: int| i <= k < j ==> !is_default_route(#[trigger] lines[k])
            },
    decreases lines.len() - i,
{
    if i < lines.len() && !is_default_route(lines[i]) {
        lemma_first_default_route(lines, i + 1);
    }
}

/// The default route is the first line below the heading whose second field is
/// all zeros and whose first, which names its interface, is not `lo`; where
/// there is no such line there is none.
pub proof fn law_default_route_is_the_first(lines: Seq<Seq<char>>)
    ensures
        default_route_from(lines, 1) is None ==> forall|j: int|
            1 <= j < lines.len() && text::words(#[trigger] lines[j]).len() >= 2 && text::words(
                lines[j],
            )[1] == "00000000"@ ==> text::words(lines[j])[0] == "lo"@,
        default_route_from(lines, 1) matches Some(name) ==> name != "lo"@ && exists|j: int|
            {
                &&& 1 <= j < lines.len()
                &&& text::words(#[trigger] lines[j]).len() >= 2
                &&& text::words(lines[j])[0] == name
                &&& text::words(lines[j])[1] == "00000000"@
                &&& forall|k: int|
                    1 <= k < j && text::words(#[trigger] lines[k]).len() >= 2 && text::words(
                        lines[k],
                    )[1] == "00000000"@ ==> text::words(lines[k])[0] == "lo"@
            },
{
    lemma_first_default_route(lines, 1);
    if default_route_from(lines, 1) is Some {
        let name = default_route_from(lines, 1)->0;
        let j = choose|j: int|
            {
                &&& 1 <= j < lines.len()
                &&& is_default_route(#[trigger] lines[j])
                &&& text::words(lines[j])[0] == name
                &&& forall|k: int| 1 <= k < j ==> !is_default_route(#[trigger] lines[k])
            };
        assert(text::words(lines[j]).len() >= 2);
    }
}

proof fn lemma_first_docker_bridge(names: Seq<Seq<char>>, i: int)
    requires
        0 <= i,
    ensures
        docker_bridge_from(names, i) is None ==> forall|j: int|
            i <= j < names.len() ==> !text::starts_with(#[trigger] names[j], "br-"@),
        docker_bridge_from(names, i) matches Some(name) ==> exists|j: int|
            {
                &&& i <= j < names.len()
                &&& #[trigger] names[j] == name
                &&& text::starts_with(name, "br-"@)
                &&& forall|k: int| i <= k < j ==> !text::starts_with(#[trigger] names[k], "br-"@)
            },
    decreases names.len() - i,
{
    if i < names.len() {
        if text::starts_with(names[i], "br-"@) {
            assert(names[i] == docker_bridge_from(names, i)->0);
        } else {
            lemma_first_docker_bridge(names, i + 1);
        }
    }
}

/// A bridge made by Docker is the first name that begins with `br-`.
pub proof fn law_docker_bridge_is_the_first(names: Seq<Seq<char>>)
    ensures
        docker_bridge_from(names, 0) is None ==> forall|j: int|
            0 <= j < names.len() ==> (#[trigger] names[j]).len() < 3 || names[j].take(3) != "br-"@,
        docker_bridge_from(names, 0) matches Some(name) ==> name.len() >= 3 && name.take(3)
            == "br-"@ && exists|j: int|
            {
                &&& 0 <= j < names.len()
                &&& #[trigger] names[j] == name
                &&& forall|k: int|
                    0 <= k < j ==> (#[trigger] names[k]).len() < 3 || names[k].take(3) != "br-"@
            },
{
    reveal_strlit("br-");
    lemma_first_docker_bridge(names, 0);
    if docker_bridge_from(names, 0) is Some {
        let name = docker_bridge_from(names, 0)->0;
        let j = choose|j: int|
            {
                &&& 0 <= j < names.len()
                &&& #[trigger] names[j] == name
                &&& text::starts_with(name, "br-"@)
                &&& forall|k: int| 0 <= k < j ==> !text::starts_with(#[trigger] names[k], "br-"@)
            };
        assert(names[j] == name);
    }
}

/// Every interface that was found is monitored: that of the default route, the
/// first existing of `cni0`, `docker0` and `cbr0`, and the bridge that Docker
/// made.
pub proof fn law_what_was_found_is_monitored(probe: InterfaceProbe)
    ensures
        probe.default_route matches Some(name) ==> monitored_interfaces(probe).contains(name@)
            && monitored_interfaces(probe)[0] == name@,
        probe.default_route is None && probe.eth0 ==> monitored_interfaces(probe).contains(
            "eth0"@,
        ) && monitored_interfaces(probe)[0] == "eth0"@,
        probe.cni0 ==> monitored_interfaces(probe).contains("cni0"@),
        !probe.cni0 && probe.docker0 ==> monitored_interfaces(probe).contains("docker0"@),
        !probe.cni0 && !probe.docker0 && probe.cbr0 ==> monitored_interfaces(probe).contains(
            "cbr0"@,
        ),
        probe.docker_bridge matches Some(name) ==> monitored_interfaces(probe).contains(name@),
{
    let m = monitored_interfaces(probe);
    let first = primary_interfaces(probe);
    let found = first + container_bridges(probe);
    if first.len() > 0 {
        assert(m[0] == first[0]);
    }
    if container_bridges(probe).len() > 0 {
        assert(m[first.len() as int] == container_bridges(probe)[0]);
    }
    if let Some(name) = probe.docker_bridge {
        if found.contains(name@) {
            let i = choose|i: int| 0 <= i < found.len() && found[i] == name@;
            assert(m[i] == name@);
        } else {
            assert(m[found.len() as int] == name@);
        }
    }
}

/// Nothing is monitored but what was found, each found thing once; `eth0`
/// stands in for a missing default route where it exists, and `lo` is monitored
/// alone where nothing was found.
pub proof fn law_nothing_else_is_monitored(probe: InterfaceProbe, i: int)
    requires
        0 <= i < monitored_interfaces(probe).len(),
    ensures
        ({
            let m = monitored_interfaces(probe);
            let primary = probe.default_route is Some || probe.eth0;
            let bridge = probe.cni0 || probe.docker0 || probe.cbr0;
            let others: int = (if primary {
                1int
            } else {
                0
            }) + (if bridge {
                1int
            } else {
                0
            });
            &&& {
                ||| probe.default_route is Some && m[i] == probe.default_route->0@
                ||| probe.default_route is None && probe.eth0 && m[i] == "eth0"@
                ||| probe.cni0 && m[i] == "cni0"@
                ||| !probe.cni0 && probe.docker0 && m[i] == "docker0"@
                ||| !probe.cni0 && !probe.docker0 && probe.cbr0 && m[i] == "cbr0"@
                ||| probe.docker_bridge is Some && m[i] == probe.docker_bridge->0@
                ||| !primary && !bridge && probe.docker_bridge is None && m[i] == "lo"@
            }
            &&& probe.docker_bridge is None && others > 0 ==> m.len() == others
            &&& probe.docker_bridge is None && others == 0 ==> m.len() == 1
            &&& probe.docker_bridge is Some ==> m.len() == others || m.len() == others + 1
            &&& probe.docker_bridge is Some && m.len() == others ==> exists|j: int|
                0 <= j < others && #[trigger] m[j] == probe.docker_bridge->0@
            &&& probe.docker_bridge is Some && m.len() == others + 1 ==> m[others]
                == probe.docker_bridge->0@ && forall|j: int|
                0 <= j < others ==> #[trigger] m[j] != probe.docker_bridge->0@
        }),
{
    let m = monitored_interfaces(probe);
    let found = primary_interfaces(probe) + container_bridges(probe);
    if let Some(name) = probe.docker_bridge {
        if found.contains(name@) {
            let j = choose|j: int| 0 <= j < found.len() && found[j] == name@;
            assert(m[j] == name@);
        } else {
            assert forall|j: int| 0 <= j < found.len() implies #[trigger] m[j] != name@ by {
                assert(m[j] == found[j]);
                assert(found.contains(found[j]));
            }
        }
    }
}

/// The programs of the two sides have names of their own.
pub proof fn law_programs_by_side()
    ensures
        ProbeSide::Ingress.program() == "network_probe"@,
        ProbeSide::Egress.program() == "network_probe_egress"@,
{
}

/// The packets among items are those items that are packets, one by one and in
/// order, however the items are parted.
pub proof fn law_packets_are_the_items_of_the_right_size(
    event: NetworkFlowEvent,
    a: Seq<Option<NetworkFlowEvent>>,
    b: Seq<Option<NetworkFlowEvent>>,
)
    ensures
        packets(Seq::<Option<NetworkFlowEvent>>::empty()) == Seq::<NetworkFlowEvent>::empty(),
        packets(seq![Some(event)]) == seq![event],
        packets(seq![None::<NetworkFlowEvent>]) == Seq::<NetworkFlowEvent>::empty(),
        packets(a + b) == packets(a) + packets(b),
        step_for(true) == PollStep::Take,
        step_for(false) == PollStep::Skip,
{
    let none = Seq::<Option<NetworkFlowEvent>>::empty();
    assert(packets(none) =~= Seq::<NetworkFlowEvent>::empty());
    assert(seq![Some(event)].skip(1) =~= none);
    assert(seq![None::<NetworkFlowEvent>].skip(1) =~= none);
    assert(packets(seq![Some(event)]) =~= seq![event]);
    lemma_packets_of_concatenation(a, b);
}

/// A batch takes a packet that it is offered as its last and keeps the others;
/// an item that is none changes nothing. It wants more exactly as long as it
/// has fewer packets than it may.
pub proof fn law_batch_grows_by_packets(batch: BatchView, event: NetworkFlowEvent)
    ensures
        batch.with_item(Some(event)).taken == batch.taken.push(event),
        batch.with_item(None).taken == batch.taken,
        batch.with_item(Some(event)).max_batch_size == batch.max_batch_size,
        batch.with_item(None).max_batch_size == batch.max_batch_size,
        batch.wants_more() <==> batch.taken.len() < batch.max_batch_size,
{
}

/// A version is judged by the two numbers before and behind its first dot, the
/// second up to the next dot or hyphen, with white space around them passed
/// over.
pub proof fn law_versions_are_judged_by_two_numbers(
    a: Seq<char>,
    b: Seq<char>,
    rest: Seq<char>,
    major: nat,
    minor: nat,
)
    requires
        forall|i: int| 0 <= i < a.len() ==> #[trigger] a[i] != '.',
        forall|i: int| 0 <= i < b.len() ==> #[trigger] b[i] != '.' && b[i] != '-',
        rest.len() == 0 || rest[0] == '.' || rest[0] == '-',
        text::parsed_unsigned(text::trimmed(a), u32::MAX as nat) == Some(major),
        text::parsed_unsigned(text::trimmed(b), u32::MAX as nat) == Some(minor),
    ensures
        ({
            let version = a + seq!['.'] + b + rest;
            &&& major > 5 || (major == 5 && minor > 7) ==> kernel_fault(version) is None
            &&& major < 5 || (major == 5 && minor < 8) ==> kernel_fault(version) == Some(
                KernelFault::TooOld(text::trimmed(version)),
            )
        }),
{
    let version = a + seq!['.'] + b + rest;
    assert(version =~= a + seq!['.'] + (b + rest));
    text::law_text_is_cut_at_the_first(a, '.', b + rest);
    text::law_cut_goes_on_past_a_beginning(b, rest, '.');
    let part = b + text::before_char(rest, '.');
    assert(text::before_char(b + rest, '.') == part);
    if rest.len() > 0 && rest[0] == '-' {
        let more = rest.skip(1);
        text::law_cut_goes_on_past_a_beginning(seq!['-'], more, '.');
        assert(rest =~= seq!['-'] + more);
        let y = text::before_char(more, '.');
        assert(part =~= b + seq!['-'] + y);
        text::law_text_is_cut_at_the_first(b, '-', y);
    } else {
        assert(part =~= b);
        text::law_text_is_cut_at_the_first(b, '-', rest);
    }
}

/// A verdict accepts exactly a version without a fault, and refuses any other
/// with its fault.
pub proof fn law_verdict_tells_the_fault(r: Result<(), KernelError>, fault: Option<KernelFault>)
    requires
        is_verdict(r, fault),
    ensures
        r is Ok <==> fault is None,
        r matches Err(e) ==> fault == Some(e@),
{
}

/// A text that is wanted is found, and none is found where none is wanted.
pub proof fn law_text_is_the_wanted_one(found: Option<String>, wanted: Option<Seq<char>>)
    requires
        is_text(found, wanted),
    ensures
        found is Some <==> wanted is Some,
        found matches Some(s) ==> s@ == wanted->0,
{
}

/// The steps of a list stand in its order.
pub proof fn law_steps_are_those_of_the_list(steps: Seq<AttachStep>)
    ensures
        step_views(steps).len() == steps.len(),
        forall|i: int| 0 <= i < steps.len() ==> #[trigger] step_views(steps)[i] == steps[i]@,
{
}

} // verus!
