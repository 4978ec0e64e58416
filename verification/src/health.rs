//! What the agent knows of its own condition.
use crate::text;
use crate::text::{join, push_decimal};
use vstd::prelude::*;

verus! {

/// The condition of the agent: which parts work, which tables are full, and
/// how often something had to be given up.
#[derive(Debug)]
pub struct HealthState {
    probes_attached: bool,
    k8s_watcher_connected: bool,
    flow_table_at_capacity: bool,
    pod_cache_at_capacity: bool,
    broadcast_drops: u64,
    flow_evictions: u64,
    pod_cache_evictions: u64,
}

/// The abstract value of a `HealthState`.
pub struct HealthView {
    pub probes_attached: bool,
    pub k8s_watcher_connected: bool,
    pub flow_table_at_capacity: bool,
    pub pod_cache_at_capacity: bool,
    pub broadcast_drops: u64,
    pub flow_evictions: u64,
    pub pod_cache_evictions: u64,
}

impl View for HealthState {
    type V = HealthView;

    closed spec fn view(&self) -> HealthView {
        HealthView {
            probes_attached: self.probes_attached,
            k8s_watcher_connected: self.k8s_watcher_connected,
            flow_table_at_capacity: self.flow_table_at_capacity,
            pod_cache_at_capacity: self.pod_cache_at_capacity,
            broadcast_drops: self.broadcast_drops,
            flow_evictions: self.flow_evictions,
            pod_cache_evictions: self.pod_cache_evictions,
        }
    }
}

/// A counter after `n` more occurrences; it starts over at zero behind
/// `u64::MAX`.
pub open spec fn counted(counter: u64, n: u64) -> u64 {
    ((counter + n) % 0x1_0000_0000_0000_0000) as u64
}

/// The texts of `first` and, where `more` holds, of `issue` behind them.
pub open spec fn with_issue(first: Seq<Seq<char>>, more: bool, issue: Seq<char>) -> Seq<Seq<char>> {
    if more {
        first.push(issue)
    } else {
        first
    }
}

impl HealthView {
    /// The condition of an agent that has just started.
    pub open spec fn initial() -> HealthView {
        HealthView {
            probes_attached: false,
            k8s_watcher_connected: false,
            flow_table_at_capacity: false,
            pod_cache_at_capacity: false,
            broadcast_drops: 0,
            flow_evictions: 0,
            pod_cache_evictions: 0,
        }
    }

    /// Whether the agent can serve: probes are attached.
    pub open spec fn ready(self) -> bool {
        self.probes_attached
    }

    /// Whether the agent works as it should: probes are attached and the flow
    /// table has room.
    pub open spec fn healthy(self) -> bool {
        self.probes_attached && !self.flow_table_at_capacity
    }

    /// What is wrong, in the order in which it is reported.
    pub open spec fn issues(self) -> Seq<Seq<char>> {
        let a = with_issue(Seq::empty(), !self.probes_attached, "probes not attached"@);
        let b = with_issue(a, self.flow_table_at_capacity, "flow table at capacity"@);
        let c = with_issue(b, !self.k8s_watcher_connected, "k8s watcher disconnected"@);
        with_issue(c, self.pod_cache_at_capacity, "pod cache at capacity"@)
    }

    /// The counters as text.
    pub open spec fn counters_text(self) -> Seq<char> {
        "; broadcast_drops="@ + text::decimal(self.broadcast_drops as nat) + ", flow_evictions="@
            + text::decimal(self.flow_evictions as nat) + ", pod_cache_evictions="@ + text::decimal(
            self.pod_cache_evictions as nat,
        )
    }

    /// The one-line report: `OK` where nothing is wrong, with the counters if
    /// one of them is not zero; the issues behind their severity otherwise.
    pub open spec fn message(self) -> Seq<char> {
        if self.issues().len() == 0 {
            if self.broadcast_drops > 0 || self.flow_evictions > 0 || self.pod_cache_evictions > 0 {
                "OK"@ + self.counters_text()
            } else {
                "OK"@
            }
        } else if self.healthy() {
            "DEGRADED"@ + ": "@ + text::joined(self.issues(), "; "@)
        } else {
            "UNHEALTHY"@ + ": "@ + text::joined(self.issues(), "; "@)
        }
    }
}

/// Appends an issue to a list of them where it applies.
fn add_issue(issues: &mut Vec<String>, applies: bool, issue: &str)
    ensures
        text::texts(final(issues)@) == with_issue(text::texts(old(issues)@), applies, issue@),
{
    if applies {
        issues.push(issue.to_owned());
        assert(text::texts(issues@) =~= text::texts(old(issues)@).push(issue@));
    }
}

impl HealthState {
    /// The condition of an agent that has just started.
    pub fn new() -> (r: Self)
        ensures
            r@ == HealthView::initial(),
    {
        HealthState {
            probes_attached: false,
            k8s_watcher_connected: false,
            flow_table_at_capacity: false,
            pod_cache_at_capacity: false,
            broadcast_drops: 0,
            flow_evictions: 0,
            pod_cache_evictions: 0,
        }
    }

    /// Whether the agent works as it should.
    pub fn is_healthy(&self) -> (r: bool)
        ensures
            r == self@.healthy(),
    {
        self.probes_attached && !self.flow_table_at_capacity
    }

    /// Whether the agent can serve.
    pub fn is_ready(&self) -> (r: bool)
        ensures
            r == self@.ready(),
    {
        self.probes_attached
    }

    /// Whether anything is wrong.
    pub fn has_issues(&self) -> (r: bool)
        ensures
            r == (self@.issues().len() > 0),
    {
        !self.probes_attached || self.flow_table_at_capacity || !self.k8s_watcher_connected
            || self.pod_cache_at_capacity
    }

    /// The one-line report on the condition.
    pub fn health_message(&self) -> (r: String)
        ensures
            r@ == self@.message(),
    {
        let mut issues: Vec<String> = Vec::new();
        assert(text::texts(issues@) =~= Seq::<Seq<char>>::empty());
        add_issue(&mut issues, !self.probes_attached, "probes not attached");
        add_issue(&mut issues, self.flow_table_at_capacity, "flow table at capacity");
        add_issue(&mut issues, !self.k8s_watcher_connected, "k8s watcher disconnected");
        add_issue(&mut issues, self.pod_cache_at_capacity, "pod cache at capacity");
        assert(text::texts(issues@) == self@.issues());

        let mut msg: String = String::new();
        if issues.len() == 0 {
            msg.append("OK");
            assert(msg@ =~= "OK"@);
            if self.broadcast_drops > 0 || self.flow_evictions > 0 || self.pod_cache_evictions > 0 {
                msg.append("; broadcast_drops=");
                push_decimal(&mut msg, self.broadcast_drops as u128);
                msg.append(", flow_evictions=");
                push_decimal(&mut msg, self.flow_evictions as u128);
                msg.append(", pod_cache_evictions=");
                push_decimal(&mut msg, self.pod_cache_evictions as u128);
            }
        } else {
            if self.is_healthy() {
                msg.append("DEGRADED");
            } else {
                msg.append("UNHEALTHY");
            }
            msg.append(": ");
            let all: String = join(&issues, "; ");
            msg.append(all.as_str());
        }
        assert(msg@ =~= self@.message());
        msg
    }

    /// Records whether the probes are attached.
    pub fn set_probes_attached(&mut self, val: bool)
        ensures
            final(self)@ == (HealthView { probes_attached: val, ..old(self)@ }),
    {
        self.probes_attached = val;
    }

    /// Records whether the pod watcher has a connection.
    pub fn set_k8s_watcher_connected(&mut self, val: bool)
        ensures
            final(self)@ == (HealthView { k8s_watcher_connected: val, ..old(self)@ }),
    {
        self.k8s_watcher_connected = val;
    }

    /// Records whether the flow table is at capacity.
    pub fn set_flow_table_at_capacity(&mut self, val: bool)
        ensures
            final(self)@ == (HealthView { flow_table_at_capacity: val, ..old(self)@ }),
    {
        self.flow_table_at_capacity = val;
    }

    /// Records whether the pod cache is at capacity.
    pub fn set_pod_cache_at_capacity(&mut self, val: bool)
        ensures
            final(self)@ == (HealthView { pod_cache_at_capacity: val, ..old(self)@ }),
    {
        self.pod_cache_at_capacity = val;
    }

    /// Counts an event that no subscriber received.
    pub fn inc_broadcast_drops(&mut self)
        ensures
            final(self)@ == (HealthView {
                broadcast_drops: counted(old(self)@.broadcast_drops, 1),
                ..old(self)@
            }),
    {
        self.broadcast_drops = self.broadcast_drops.wrapping_add(1);
    }

    /// Counts flows that were evicted.
    pub fn inc_flow_evictions(&mut self, count: u64)
        ensures
            final(self)@ == (HealthView {
                flow_evictions: counted(old(self)@.flow_evictions, count),
                ..old(self)@
            }),
    {
        self.flow_evictions = self.flow_evictions.wrapping_add(count);
    }

    /// Counts a pod that found no room in the cache.
    pub fn inc_pod_cache_evictions(&mut self)
        ensures
            final(self)@ == (HealthView {
                pod_cache_evictions: counted(old(self)@.pod_cache_evictions, 1),
                ..old(self)@
            }),
    {
        self.pod_cache_evictions = self.pod_cache_evictions.wrapping_add(1);
    }

    /// How many events no subscriber received.
    pub fn broadcast_drops(&self) -> (r: u64)
        ensures
            r == self@.broadcast_drops,
    {
        self.broadcast_drops
    }

    /// How many flows were evicted.
    pub fn flow_evictions(&self) -> (r: u64)
        ensures
            r == self@.flow_evictions,
    {
        self.flow_evictions
    }

    /// How many pods found no room in the cache.
    pub fn pod_cache_evictions(&self) -> (r: u64)
        ensures
            r == self@.pod_cache_evictions,
    {
        self.pod_cache_evictions
    }
}

impl Default for HealthState {
    fn default() -> (r: Self)
        ensures
            r@ == HealthView::initial(),
    {
        HealthState::new()
    }
}

/// A healthy agent is ready.
pub proof fn law_healthy_is_ready(h: HealthView)
    ensures
        h.healthy() ==> h.ready(),
{
}

/// The report tells the severity by its first word: `UNHEALTHY` exactly for an
/// agent that is not healthy, `DEGRADED` exactly for a healthy one that has an
/// issue, and `OK` exactly for one that has none.
pub proof fn law_message_tells_severity(h: HealthView)
    ensures
        text::starts_with(h.message(), "UNHEALTHY"@) <==> !h.healthy(),
        text::starts_with(h.message(), "DEGRADED"@) <==> h.healthy() && h.issues().len() > 0,
        text::starts_with(h.message(), "OK"@) <==> h.issues().len() == 0,
{
    reveal_strlit("UNHEALTHY");
    reveal_strlit("DEGRADED");
    reveal_strlit("OK");
    let m = h.message();
    if h.issues().len() == 0 {
        assert(h.healthy());
        assert(m.take(2) =~= "OK"@);
        assert(m[0] == 'O');
        assert("UNHEALTHY"@[0] == 'U');
        assert("DEGRADED"@[0] == 'D');
        assert(text::starts_with(m, "UNHEALTHY"@) ==> m.take(9)[0] == 'U');
        assert(text::starts_with(m, "DEGRADED"@) ==> m.take(8)[0] == 'D');
    } else if h.healthy() {
        assert(m.take(8) =~= "DEGRADED"@);
        assert(m[0] == "DEGRADED"@[0]);
        assert(text::starts_with(m, "UNHEALTHY"@) ==> m.take(9)[0] == 'U');
        assert(text::starts_with(m, "OK"@) ==> m.take(2)[0] == 'O');
    } else {
        assert(m.take(9) =~= "UNHEALTHY"@);
        assert(m[0] == "UNHEALTHY"@[0]);
        assert(text::starts_with(m, "DEGRADED"@) ==> m.take(8)[0] == 'D');
        assert(text::starts_with(m, "OK"@) ==> m.take(2)[0] == 'O');
    }
}

/// An agent is healthy exactly where probes are attached and the flow table is
/// not full, and ready exactly where probes are attached.
pub proof fn law_condition_is_probes_and_table(h: HealthView)
    ensures
        h.ready() <==> h.probes_attached,
        h.healthy() <==> h.probes_attached && !h.flow_table_at_capacity,
{
}

/// Each thing that is wrong is named, once, in a fixed order, and nothing else.
pub proof fn law_each_issue_is_named(h: HealthView)
    ensures
        h.issues().contains("probes not attached"@) <==> !h.probes_attached,
        h.issues().contains("flow table at capacity"@) <==> h.flow_table_at_capacity,
        h.issues().contains("k8s watcher disconnected"@) <==> !h.k8s_watcher_connected,
        h.issues().contains("pod cache at capacity"@) <==> h.pod_cache_at_capacity,
        h.issues().len() == (if h.probes_attached {
            0int
        } else {
            1
        }) + (if h.flow_table_at_capacity {
            1int
        } else {
            0
        }) + (if h.k8s_watcher_connected {
            0int
        } else {
            1
        }) + (if h.pod_cache_at_capacity {
            1int
        } else {
            0
        }),
        !h.probes_attached ==> h.issues()[0] == "probes not attached"@,
        h.pod_cache_at_capacity ==> h.issues().last() == "pod cache at capacity"@,
        h.flow_table_at_capacity && !h.k8s_watcher_connected ==> h.issues().index_of(
            "flow table at capacity"@,
        ) < h.issues().index_of("k8s watcher disconnected"@),
{
    reveal_strlit("probes not attached");
    reveal_strlit("flow table at capacity");
    reveal_strlit("k8s watcher disconnected");
    reveal_strlit("pod cache at capacity");
    let p = "probes not attached"@;
    let f = "flow table at capacity"@;
    let k = "k8s watcher disconnected"@;
    let c = "pod cache at capacity"@;
    assert(p[0] == 'p' && p[1] == 'r');
    assert(f[0] == 'f');
    assert(k[0] == 'k');
    assert(c[0] == 'p' && c[1] == 'o');
    let none = Seq::<Seq<char>>::empty();
    let a = with_issue(none, !h.probes_attached, p);
    let b = with_issue(a, h.flow_table_at_capacity, f);
    let d = with_issue(b, !h.k8s_watcher_connected, k);
    let all = h.issues();
    if !h.probes_attached {
        assert(all[0] == p);
    }
    if h.flow_table_at_capacity {
        assert(all[a.len() as int] == f);
    }
    if !h.k8s_watcher_connected {
        assert(all[b.len() as int] == k);
    }
    if h.pod_cache_at_capacity {
        assert(all[d.len() as int] == c);
    }
    if h.flow_table_at_capacity && !h.k8s_watcher_connected {
        assert(all.contains(f) && all.contains(k));
        let i = all.index_of(f);
        let j = all.index_of(k);
        assert(0 <= i < all.len() && all[i] == f);
        assert(0 <= j < all.len() && all[j] == k);
    }
}

/// The report is `OK` where nothing is wrong, with the three counters behind it
/// where one has counted anything; else it is the severity and what is wrong.
pub proof fn law_report_tells_what_is_wrong(h: HealthView)
    ensures
        ({
            let quiet = h.broadcast_drops == 0 && h.flow_evictions == 0 && h.pod_cache_evictions
                == 0;
            let fine = h.probes_attached && h.k8s_watcher_connected && !h.flow_table_at_capacity
                && !h.pod_cache_at_capacity;
            &&& fine && quiet ==> h.message() == "OK"@
            &&& fine && !quiet ==> h.message() == "OK"@ + "; broadcast_drops="@ + text::decimal(
                h.broadcast_drops as nat,
            ) + ", flow_evictions="@ + text::decimal(h.flow_evictions as nat)
                + ", pod_cache_evictions="@ + text::decimal(h.pod_cache_evictions as nat)
            &&& !fine && h.probes_attached && !h.flow_table_at_capacity ==> h.message()
                == "DEGRADED: "@ + text::joined(h.issues(), "; "@)
            &&& !h.probes_attached || h.flow_table_at_capacity ==> h.message() == "UNHEALTHY: "@
                + text::joined(h.issues(), "; "@)
        }),
{
    reveal_strlit("DEGRADED");
    reveal_strlit("UNHEALTHY");
    reveal_strlit(": ");
    reveal_strlit("DEGRADED: ");
    reveal_strlit("UNHEALTHY: ");
    assert("DEGRADED"@ + ": "@ =~= "DEGRADED: "@);
    assert("UNHEALTHY"@ + ": "@ =~= "UNHEALTHY: "@);
    let quiet = h.broadcast_drops == 0 && h.flow_evictions == 0 && h.pod_cache_evictions == 0;
    if h.issues().len() == 0 && !quiet {
        assert(h.message() =~= "OK"@ + "; broadcast_drops="@ + text::decimal(
            h.broadcast_drops as nat,
        ) + ", flow_evictions="@ + text::decimal(h.flow_evictions as nat) + ", pod_cache_evictions="@
            + text::decimal(h.pod_cache_evictions as nat));
    }
}

/// A counter grows by what is counted, and starts over behind its greatest
/// value.
pub proof fn law_counters_add_up(counter: u64, n: u64)
    ensures
        counter + n <= u64::MAX ==> counted(counter, n) == counter + n,
        counter + n > u64::MAX ==> counted(counter, n) + u64::MAX + 1 == counter + n,
{
}

/// An agent that has just started has no probes, no connection, room in its
/// tables, and has counted nothing.
pub proof fn law_agent_starts_empty()
    ensures
        !HealthView::initial().probes_attached,
        !HealthView::initial().k8s_watcher_connected,
        !HealthView::initial().flow_table_at_capacity,
        !HealthView::initial().pod_cache_at_capacity,
        HealthView::initial().broadcast_drops == 0,
        HealthView::initial().flow_evictions == 0,
        HealthView::initial().pod_cache_evictions == 0,
{
}

} // verus!
