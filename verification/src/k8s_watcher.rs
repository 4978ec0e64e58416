//! What the agent does with news of pods, and when it asks for them again.
use crate::health::{HealthState, HealthView};
use crate::pod_cache::{CacheView, PodCache, PodMetadata, PodView};
use crate::time;
use crate::time::{clock_subsec_nanos, Duration};
use vstd::prelude::*;

verus! {

/// A container as the cluster reports it.
#[derive(Debug)]
pub struct ContainerStatus {
    pub name: String,
    pub container_id: Option<String>,
    /// The cgroup that this container of this pod was found to run in.
    pub cgroup_id: Option<u64>,
}

/// The state of a pod as the cluster reports it.
#[derive(Debug)]
pub struct PodStatus {
    /// The pod's address, where it has one of version 4.
    pub pod_ip: Option<u32>,
    pub containers: Vec<ContainerStatus>,
}

/// A pod as the cluster reports it.
#[derive(Debug)]
pub struct PodObject {
    pub namespace: Option<String>,
    pub name: Option<String>,
    pub uid: Option<String>,
    pub status: Option<PodStatus>,
}

/// A piece of news from the cluster.
#[derive(Debug)]
pub enum WatchEvent {
    /// A pod was added or changed.
    Apply(PodObject),
    /// A pod that was there when the watch began.
    InitApply(PodObject),
    /// A pod was deleted.
    Delete(PodObject),
    /// The watch begins.
    Init,
    /// All pods that were there when the watch began have been reported.
    InitDone,
}

/// The text of an optional field, or `default` where it is absent.
pub open spec fn text_or(field: Option<String>, default: Seq<char>) -> Seq<char> {
    match field {
        Some(s) => s@,
        None => default,
    }
}

/// The text of an optional field, or `default` where it is absent.
fn owned_or(field: &Option<String>, default: &str) -> (r: String)
    ensures
        r@ == text_or(*field, default@),
{
    match field {
        Some(s) => s.clone(),
        None => default.to_owned(),
    }
}

impl PodObject {
    /// The identifier of the pod; empty where it has none.
    pub open spec fn uid_text(self) -> Seq<char> {
        text_or(self.uid, ""@)
    }

    /// The cache entry of a container of this pod.
    pub open spec fn entry(
        self,
        container_name: Seq<char>,
        container_id: Seq<char>,
        pod_ip: Option<u32>,
    ) -> PodView {
        PodView {
            namespace: text_or(self.namespace, "default"@),
            pod_name: text_or(self.name, "unknown"@),
            pod_uid: self.uid_text(),
            container_name,
            container_id,
            pod_ip,
        }
    }

    /// The cache entry of a container of this pod.
    fn metadata(&self, container_name: String, container_id: String, pod_ip: Option<u32>) -> (r:
        PodMetadata)
        ensures
            r@ == self.entry(container_name@, container_id@, pod_ip),
    {
        PodMetadata {
            namespace: owned_or(&self.namespace, "default"),
            pod_name: owned_or(&self.name, "unknown"),
            pod_uid: owned_or(&self.uid, ""),
            container_name,
            container_id,
            pod_ip,
        }
    }
}

/// The cache and the agent's condition.
pub struct WatchState {
    pub cache: CacheView,
    pub health: HealthView,
}

impl WatchState {
    /// The state after an entry was offered under its address.
    pub open spec fn offered_by_ip(self, entry: PodView) -> WatchState {
        WatchState {
            cache: self.cache.with_ip_entry(entry),
            health: self.cache.health_with_ip_entry(entry, self.health),
        }
    }

    /// The state after an entry was offered under its cgroup and its address.
    pub open spec fn stored(self, cgroup_id: u64, entry: PodView) -> WatchState {
        WatchState {
            cache: self.cache.with_entry(cgroup_id, entry),
            health: self.cache.health_with_entry(cgroup_id, entry, self.health),
        }
    }

    /// The state after the first `n` containers of a pod were offered. A
    /// container without an identifier or without a known cgroup is passed
    /// over.
    pub open spec fn with_containers(self, pod: PodObject, status: PodStatus, n: int) -> WatchState
        decreases n,
    {
        if n <= 0 {
            self
        } else {
            let before = self.with_containers(pod, status, n - 1);
            let container = status.containers@[n - 1];
            match (container.container_id, container.cgroup_id) {
                (Some(id), Some(cgroup_id)) => before.stored(
                    cgroup_id,
                    pod.entry(container.name@, id@, status.pod_ip),
                ),
                _ => before,
            }
        }
    }

    /// The state after a pod was added or changed. A pod without an identifier
    /// or without a status changes nothing. The pod itself is offered under its
    /// address first, with no container.
    pub open spec fn with_pod(self, pod: PodObject) -> WatchState {
        if pod.uid_text().len() == 0 {
            self
        } else {
            match pod.status {
                Some(status) => {
                    let known = if status.pod_ip is Some {
                        self.offered_by_ip(pod.entry(Seq::empty(), Seq::empty(), status.pod_ip))
                    } else {
                        self
                    };
                    known.with_containers(pod, status, status.containers@.len() as int)
                },
                None => self,
            }
        }
    }

    /// The state after the first `n` of some pods were added or changed.
    pub open spec fn with_pods(self, pods: Seq<PodObject>, n: int) -> WatchState
        decreases n,
    {
        if n <= 0 {
            self
        } else {
            self.with_pods(pods, n - 1).with_pod(pods[n - 1])
        }
    }

    /// The state after a pod was deleted. A pod without an identifier changes
    /// nothing.
    pub open spec fn without_pod(self, pod: PodObject) -> WatchState {
        if pod.uid_text().len() == 0 {
            self
        } else {
            WatchState {
                cache: self.cache.without_pod(pod.uid_text()),
                health: self.cache.health_without_pod(pod.uid_text(), self.health),
            }
        }
    }

    /// The state with a connection to the cluster or without one.
    pub open spec fn connected(self, val: bool) -> WatchState {
        WatchState { health: HealthView { k8s_watcher_connected: val, ..self.health }, ..self }
    }

    /// The state after a piece of news.
    pub open spec fn after(self, event: WatchEvent) -> WatchState {
        match event {
            WatchEvent::Apply(pod) => self.with_pod(pod),
            WatchEvent::InitApply(pod) => self.with_pod(pod),
            WatchEvent::Delete(pod) => self.without_pod(pod),
            WatchEvent::Init => self,
            WatchEvent::InitDone => self.connected(true),
        }
    }
}

/// The state that a cache and a condition make.
pub open spec fn state_of(cache: PodCache, health: HealthState) -> WatchState {
    WatchState { cache: cache@, health: health@ }
}

/// Takes in a pod that was added or changed.
pub fn handle_pod_apply(cache: &mut PodCache, health: &mut HealthState, pod: &PodObject)
    ensures
        state_of(*final(cache), *final(health)) == state_of(*old(cache), *old(health)).with_pod(
            *pod,
        ),
        old(cache)@.bounded() ==> final(cache)@.bounded(),
{
    proof {
        reveal_strlit("");
    }
    let ghost pre = state_of(*old(cache), *old(health));
    let pod_uid: String = owned_or(&pod.uid, "");
    if pod_uid.as_str().is_empty() {
        return ;
    }
    let status: &PodStatus = match &pod.status {
        Some(s) => s,
        None => {
            return ;
        },
    };
    if status.pod_ip.is_some() {
        let metadata: PodMetadata = pod.metadata(String::new(), String::new(), status.pod_ip);
        cache.insert_by_ip(health, metadata);
    }
    let ghost known = state_of(*cache, *health);
    let mut i: usize = 0;
    while i < status.containers.len()
        invariant
            i <= status.containers.len(),
            state_of(*cache, *health) == known.with_containers(*pod, *status, i as int),
            old(cache)@.bounded() ==> cache@.bounded(),
        decreases status.containers.len() - i,
    {
        let container: &ContainerStatus = &status.containers[i];
        match (&container.container_id, &container.cgroup_id) {
            (Some(container_id), Some(cgroup_id)) => {
                let metadata: PodMetadata = pod.metadata(
                    container.name.clone(),
                    container_id.clone(),
                    status.pod_ip,
                );
                cache.insert(health, *cgroup_id, metadata);
            },
            _ => {},
        }
        i += 1;
    }
}

/// Takes in a pod that was deleted.
pub fn handle_pod_delete(cache: &mut PodCache, health: &mut HealthState, pod: &PodObject)
    ensures
        state_of(*final(cache), *final(health)) == state_of(*old(cache), *old(health)).without_pod(
            *pod,
        ),
        old(cache)@.bounded() ==> final(cache)@.bounded(),
{
    proof {
        reveal_strlit("");
    }
    let pod_uid: String = owned_or(&pod.uid, "");
    if !pod_uid.as_str().is_empty() {
        cache.remove_pod(health, pod_uid.as_str());
    }
}

/// Takes in a piece of news.
pub fn handle_watch_event(cache: &mut PodCache, health: &mut HealthState, event: &WatchEvent)
    ensures
        state_of(*final(cache), *final(health)) == state_of(*old(cache), *old(health)).after(
            *event,
        ),
        old(cache)@.bounded() ==> final(cache)@.bounded(),
{
    match event {
        WatchEvent::Apply(pod) => handle_pod_apply(cache, health, pod),
        WatchEvent::InitApply(pod) => handle_pod_apply(cache, health, pod),
        WatchEvent::Delete(pod) => handle_pod_delete(cache, health, pod),
        WatchEvent::Init => {},
        WatchEvent::InitDone => health.set_k8s_watcher_connected(true),
    }
}

/// Takes in a full list of pods, which shows that there is a connection.
pub fn resync_all(cache: &mut PodCache, health: &mut HealthState, pods: &Vec<PodObject>)
    ensures
        state_of(*final(cache), *final(health)) == state_of(*old(cache), *old(health)).with_pods(
            pods@,
            pods@.len() as int,
        ).connected(true),
        old(cache)@.bounded() ==> final(cache)@.bounded(),
{
    let ghost pre = state_of(*old(cache), *old(health));
    let mut i: usize = 0;
    while i < pods.len()
        invariant
            i <= pods.len(),
            state_of(*cache, *health) == pre.with_pods(pods@, i as int),
            old(cache)@.bounded() ==> cache@.bounded(),
        decreases pods.len() - i,
    {
        handle_pod_apply(cache, health, &pods[i]);
        i += 1;
    }
    health.set_k8s_watcher_connected(true);
}

/// The number of milliseconds that jitter stays below: a quarter of those in
/// `backoff`, as far as they fit a `u64`.
pub open spec fn jitter_bound(backoff: Duration) -> int {
    backoff.nanos as int / 1_000_000 / 4 % 0x1_0000_0000_0000_0000
}

/// The jitter that a reading of the wall clock makes.
pub open spec fn jitter(backoff: Duration, subsec_nanos: u32) -> int {
    if jitter_bound(backoff) == 0 {
        0
    } else {
        subsec_nanos as int % jitter_bound(backoff)
    }
}

/// The milliseconds by which a wait of `backoff` is drawn out, made from the
/// nanoseconds within the second that the wall clock shows.
pub fn jitter_from(backoff: Duration, subsec_nanos: u32) -> (r: u64)
    ensures
        r == jitter(backoff, subsec_nanos),
{
    let quarter: u128 = backoff.as_millis() / 4;
    let max_jitter: u64 = (quarter % 0x1_0000_0000_0000_0000) as u64;
    if max_jitter == 0 {
        0
    } else {
        subsec_nanos as u64 % max_jitter
    }
}

/// The milliseconds by which a wait of `backoff` is drawn out at the moment of
/// the call.
pub fn jitter_millis(backoff: Duration) -> (r: u64)
    ensures
        exists|subsec_nanos: u32|
            subsec_nanos < 1_000_000_000 && r == #[trigger] jitter(backoff, subsec_nanos),
{
    let subsec_nanos: u32 = clock_subsec_nanos();
    jitter_from(backoff, subsec_nanos)
}

/// What happened to the watch.
#[derive(Debug, Clone, Copy)]
pub enum WatchSignal {
    /// The agent is shutting down.
    Cancelled,
    /// The stream of news ended; `cancelled` tells whether the agent is
    /// shutting down.
    StreamEnded { cancelled: bool },
    /// The stream of news broke while the wall clock showed `subsec_nanos`
    /// nanoseconds within the second.
    StreamFailed { subsec_nanos: u32 },
    /// The wait is over; `cancelled` tells whether the agent is shutting down.
    WaitOver { cancelled: bool },
}

/// What the watcher does next.
#[derive(Debug, Clone, Copy, PartialEq, Eq, Structural)]
pub enum WatchAction {
    /// End.
    Stop,
    /// Wait, and report when that is over.
    Wait(Duration),
    /// List all pods, take them in, and watch anew.
    Resync,
}

/// When to connect again: at once after a stream that ended, after a wait that
/// grows from failure to failure otherwise.
#[derive(Debug)]
pub struct PodWatcher {
    pub backoff_min: Duration,
    pub backoff_max: Duration,
    pub backoff: Duration,
}

/// The wait behind a failure, before jitter, where the last one was `backoff`.
pub open spec fn next_backoff(backoff: Duration, backoff_max: Duration) -> Duration {
    if backoff.nanos * 2 < backoff_max.nanos {
        Duration { nanos: (backoff.nanos * 2) as u128 }
    } else {
        backoff_max
    }
}

impl PodWatcher {
    /// Whether a signal can be dealt with: the spans that it asks for can be
    /// represented.
    pub open spec fn can_take(self, signal: WatchSignal) -> bool {
        match signal {
            WatchSignal::StreamFailed { subsec_nanos } => self.backoff.nanos + jitter(
                self.backoff,
                subsec_nanos,
            ) * 1_000_000 <= time::MAX_NANOS,
            WatchSignal::WaitOver { cancelled } => cancelled || self.backoff.nanos * 2
                <= time::MAX_NANOS,
            _ => true,
        }
    }

    /// What the watcher does on a signal.
    pub open spec fn action(self, signal: WatchSignal) -> WatchAction {
        match signal {
            WatchSignal::Cancelled => WatchAction::Stop,
            WatchSignal::StreamEnded { cancelled } => if cancelled {
                WatchAction::Stop
            } else {
                WatchAction::Resync
            },
            WatchSignal::StreamFailed { subsec_nanos } => WatchAction::Wait(
                Duration {
                    nanos: (self.backoff.nanos + jitter(self.backoff, subsec_nanos)
                        * 1_000_000) as u128,
                },
            ),
            WatchSignal::WaitOver { cancelled } => if cancelled {
                WatchAction::Stop
            } else {
                WatchAction::Resync
            },
        }
    }

    /// The wait that the next failure brings, before jitter.
    pub open spec fn backoff_after(self, signal: WatchSignal) -> Duration {
        match signal {
            WatchSignal::StreamEnded { .. } => self.backoff_min,
            WatchSignal::WaitOver { cancelled: false } => next_backoff(
                self.backoff,
                self.backoff_max,
            ),
            _ => self.backoff,
        }
    }

    /// A watcher whose waits begin at `backoff_min` and end at `backoff_max`.
    pub fn new(backoff_min: Duration, backoff_max: Duration) -> (r: Self)
        ensures
            r == (PodWatcher { backoff_min, backoff_max, backoff: backoff_min }),
    {
        PodWatcher { backoff_min, backoff_max, backoff: backoff_min }
    }

    /// Whether a signal can be dealt with.
    pub fn can_handle(&self, signal: WatchSignal) -> (r: bool)
        ensures
            r == self.can_take(signal),
    {
        match signal {
            WatchSignal::StreamFailed { subsec_nanos } => {
                let extra: u128 = jitter_from(self.backoff, subsec_nanos) as u128 * 1_000_000;
                extra <= time::MAX_NANOS && self.backoff.nanos <= time::MAX_NANOS - extra
            },
            WatchSignal::WaitOver { cancelled } => cancelled || self.backoff.nanos
                <= time::MAX_NANOS / 2,
            _ => true,
        }
    }

    /// Decides on a signal.
    pub fn handle(&mut self, health: &mut HealthState, signal: WatchSignal) -> (r: WatchAction)
        requires
            old(self).can_take(signal),
        ensures
            r == old(self).action(signal),
            *final(self) == (PodWatcher { backoff: old(self).backoff_after(signal), ..*old(self) }),
            final(health)@ == (if signal is StreamFailed {
                HealthView { k8s_watcher_connected: false, ..old(health)@ }
            } else {
                old(health)@
            }),
    {
        match signal {
            WatchSignal::Cancelled => WatchAction::Stop,
            WatchSignal::StreamEnded { cancelled } => {
                self.backoff = self.backoff_min;
                if cancelled {
                    WatchAction::Stop
                } else {
                    WatchAction::Resync
                }
            },
            WatchSignal::StreamFailed { subsec_nanos } => {
                health.set_k8s_watcher_connected(false);
                let jitter_ms: u64 = jitter_from(self.backoff, subsec_nanos);
                let extra: Duration = Duration::from_millis(jitter_ms);
                WatchAction::Wait(Duration { nanos: self.backoff.nanos + extra.nanos })
            },
            WatchSignal::WaitOver { cancelled } => {
                if cancelled {
                    return WatchAction::Stop;
                }
                let doubled: u128 = self.backoff.nanos * 2;
                self.backoff = if doubled < self.backoff_max.nanos {
                    Duration { nanos: doubled }
                } else {
                    self.backoff_max
                };
                WatchAction::Resync
            },
        }
    }
}

/// Jitter draws a wait out by less than a quarter.
pub proof fn law_jitter_is_below_a_quarter(backoff: Duration, subsec_nanos: u32)
    ensures
        0 <= jitter(backoff, subsec_nanos),
        jitter(backoff, subsec_nanos) * 1_000_000 * 4 <= backoff.nanos,
        jitter_bound(backoff) > 0 ==> jitter(backoff, subsec_nanos) < jitter_bound(backoff),
{
    let q = backoff.nanos as int / 1_000_000 / 4;
    assert(q % 0x1_0000_0000_0000_0000 <= q);
    if jitter_bound(backoff) > 0 {
        let j = jitter(backoff, subsec_nanos);
        let b = jitter_bound(backoff);
        let n = subsec_nanos as int;
        assert(0 <= n % b < b) by (nonlinear_arith)
            requires
                b > 0,
        ;
    }
}

/// The wait after `n` failures in a row.
pub open spec fn backoff_after_failures(first: Duration, backoff_max: Duration, n: nat) -> Duration
    decreases n,
{
    if n == 0 {
        first
    } else {
        next_backoff(backoff_after_failures(first, backoff_max, (n - 1) as nat), backoff_max)
    }
}

/// From failure to failure the wait doubles until it reaches its limit, where
/// it stays.
pub proof fn law_backoff_doubles_up_to_its_limit(first: Duration, backoff_max: Duration, n: nat)
    requires
        first.nanos <= backoff_max.nanos,
        backoff_max.representable(),
    ensures
        backoff_after_failures(first, backoff_max, n).nanos == (if first.nanos * vstd::arithmetic::power2::pow2(n)
            < backoff_max.nanos {
            first.nanos * vstd::arithmetic::power2::pow2(n)
        } else {
            backoff_max.nanos as int
        }),
    decreases n,
{
    vstd::arithmetic::power2::lemma2_to64();
    if n > 0 {
        let m = (n - 1) as nat;
        law_backoff_doubles_up_to_its_limit(first, backoff_max, m);
        vstd::arithmetic::power2::lemma_pow2_unfold(n);
        let f = first.nanos as int;
        let p = vstd::arithmetic::power2::pow2(m) as int;
        assert(f * (2 * p) == 2 * (f * p)) by (nonlinear_arith);
        assert(0 <= f * p) by (nonlinear_arith)
            requires
                f >= 0,
                p >= 0,
        ;
        assert(first.nanos * vstd::arithmetic::power2::pow2(n) == 2 * (f * p));
    } else {
        assert(first.nanos * vstd::arithmetic::power2::pow2(0) == first.nanos);
    }
}

/// No wait is longer than the longer of the two limits, before jitter.
pub proof fn law_backoff_stays_within_its_limits(watcher: PodWatcher, signal: WatchSignal)
    requires
        watcher.backoff.nanos <= watcher.backoff_min.nanos || watcher.backoff.nanos
            <= watcher.backoff_max.nanos,
    ensures
        watcher.backoff_after(signal).nanos <= watcher.backoff_min.nanos || watcher.backoff_after(
            signal,
        ).nanos <= watcher.backoff_max.nanos,
{
}

/// Whether the address `ip` leads to a pod.
pub open spec fn leads_to(cache: CacheView, ip: u32, pod: PodObject) -> bool {
    &&& cache.by_ip.contains_key(ip as u64)
    &&& cache.by_ip[ip as u64].namespace == text_or(pod.namespace, "default"@)
    &&& cache.by_ip[ip as u64].pod_name == text_or(pod.name, "unknown"@)
    &&& cache.by_ip[ip as u64].pod_uid == pod.uid_text()
}

proof fn lemma_containers_keep_the_address(
    state: WatchState,
    pod: PodObject,
    status: PodStatus,
    ip: u32,
    n: int,
)
    requires
        status.pod_ip == Some(ip),
        leads_to(state.cache, ip, pod),
    ensures
        leads_to(state.with_containers(pod, status, n).cache, ip, pod),
    decreases n,
{
    if n > 0 {
        lemma_containers_keep_the_address(state, pod, status, ip, n - 1);
    }
}

/// Once a pod was taken in, its address leads to it, if the address was known
/// or there was room for it.
pub proof fn law_address_leads_to_its_pod(
    state: WatchState,
    pod: PodObject,
    status: PodStatus,
    ip: u32,
)
    requires
        pod.uid_text().len() > 0,
        pod.status == Some(status),
        status.pod_ip == Some(ip),
        state.cache.takes_ip(ip),
    ensures
        leads_to(state.with_pod(pod).cache, ip, pod),
{
    let known = state.offered_by_ip(pod.entry(Seq::empty(), Seq::empty(), status.pod_ip));
    lemma_containers_keep_the_address(known, pod, status, ip, status.containers@.len() as int);
}

/// A pod that was deleted has no entry left, whatever was known of it before.
pub proof fn law_deleted_pod_has_no_entry(state: WatchState, pod: PodObject, key: u64)
    requires
        pod.uid_text().len() > 0,
    ensures
        state.without_pod(pod).cache.by_ip.contains_key(key) ==> state.without_pod(
            pod,
        ).cache.by_ip[key].pod_uid != pod.uid_text(),
        state.without_pod(pod).cache.by_cgroup.contains_key(key) ==> state.without_pod(
            pod,
        ).cache.by_cgroup[key].pod_uid != pod.uid_text(),
{
}

proof fn lemma_containers_grow_the_cgroups(
    state: WatchState,
    pod: PodObject,
    status: PodStatus,
    n: int,
)
    requires
        state.cache.by_cgroup.dom().finite(),
        n >= 0,
    ensures
        state.with_containers(pod, status, n).cache.by_cgroup.dom().finite(),
        state.with_containers(pod, status, n).cache.by_cgroup.len() <= state.cache.by_cgroup.len()
            + n,
        state.with_containers(pod, status, n).cache.max_entries == state.cache.max_entries,
        forall|g: u64| #[trigger]
            state.cache.by_cgroup.dom().contains(g) ==> state.with_containers(
                pod,
                status,
                n,
            ).cache.by_cgroup.dom().contains(g),
    decreases n,
{
    if n > 0 {
        lemma_containers_grow_the_cgroups(state, pod, status, n - 1);
        let before = state.with_containers(pod, status, n - 1);
        let container = status.containers@[n - 1];
        if let (Some(id), Some(g)) = (container.container_id, container.cgroup_id) {
            if before.cache.by_cgroup.contains_key(g) {
                assert(before.cache.by_cgroup.dom().insert(g) =~= before.cache.by_cgroup.dom());
            }
        }
    }
}

proof fn lemma_container_is_kept(
    state: WatchState,
    pod: PodObject,
    status: PodStatus,
    i: int,
    n: int,
)
    requires
        0 <= i < n <= status.containers@.len(),
        status.containers@[i].container_id is Some,
        status.containers@[i].cgroup_id is Some,
        state.with_containers(pod, status, i).cache.takes_cgroup(
            status.containers@[i].cgroup_id->0,
        ),
        forall|j: int|
            i < j < n ==> (#[trigger] status.containers@[j]).container_id is None
                || status.containers@[j].cgroup_id != status.containers@[i].cgroup_id,
    ensures
        ({
            let c = status.containers@[i];
            let found = state.with_containers(pod, status, n).cache.by_cgroup;
            &&& found.contains_key(c.cgroup_id->0)
            &&& found[c.cgroup_id->0] == pod.entry(c.name@, c.container_id->0@, status.pod_ip)
        }),
    decreases n,
{
    if n > i + 1 {
        lemma_container_is_kept(state, pod, status, i, n - 1);
        assert(status.containers@[n - 1].container_id is None || status.containers@[n
            - 1].cgroup_id != status.containers@[i].cgroup_id);
    }
}

proof fn lemma_containers_touch_their_keys(
    state: WatchState,
    pod: PodObject,
    status: PodStatus,
    n: int,
    key: u64,
)
    requires
        0 <= n <= status.containers@.len(),
    ensures
        ({
            let post = state.with_containers(pod, status, n).cache;
            &&& post.max_entries == state.cache.max_entries
            &&& (forall|j: int|
                0 <= j < n ==> (#[trigger] status.containers@[j]).cgroup_id != Some(key)) ==> {
                &&& post.by_cgroup.dom().contains(key) <==> state.cache.by_cgroup.dom().contains(
                    key,
                )
                &&& state.cache.by_cgroup.dom().contains(key) ==> post.by_cgroup[key]
                    == state.cache.by_cgroup[key]
            }
            &&& (status.pod_ip is None || status.pod_ip->0 as u64 != key) ==> {
                &&& post.by_ip.dom().contains(key) <==> state.cache.by_ip.dom().contains(key)
                &&& state.cache.by_ip.dom().contains(key) ==> post.by_ip[key]
                    == state.cache.by_ip[key]
            }
        }),
    decreases n,
{
    if n > 0 {
        lemma_containers_touch_their_keys(state, pod, status, n - 1, key);
    }
}

/// After the news that a pod was added or changed, its address leads to it,
/// with its namespace, name and identifier, where the address was known or
/// there was room for one more, whoever had the address before.
pub proof fn law_news_give_the_address_to_the_pod(
    state: WatchState,
    event: WatchEvent,
    pod: PodObject,
    status: PodStatus,
    uid: String,
    ip: u32,
)
    requires
        event == WatchEvent::Apply(pod) || event == WatchEvent::InitApply(pod),
        pod.uid == Some(uid),
        uid@.len() > 0,
        pod.status == Some(status),
        status.pod_ip == Some(ip),
        state.cache.by_ip.dom().contains(ip as u64) || state.cache.by_ip.len()
            < state.cache.max_entries,
    ensures
        ({
            let found = state.after(event).cache.by_ip;
            &&& found.dom().contains(ip as u64)
            &&& found[ip as u64].pod_uid == uid@
            &&& found[ip as u64].pod_ip == Some(ip)
            &&& pod.name matches Some(name) ==> found[ip as u64].pod_name == name@
            &&& pod.name is None ==> found[ip as u64].pod_name == "unknown"@
            &&& pod.namespace matches Some(namespace) ==> found[ip as u64].namespace == namespace@
            &&& pod.namespace is None ==> found[ip as u64].namespace == "default"@
        }),
{
    let entry = pod.entry(Seq::empty(), Seq::empty(), status.pod_ip);
    let known = state.offered_by_ip(entry);
    let n = status.containers@.len() as int;
    lemma_address_stays_the_pods(known, pod, status, ip, n);
}

proof fn lemma_address_stays_the_pods(
    state: WatchState,
    pod: PodObject,
    status: PodStatus,
    ip: u32,
    n: int,
)
    requires
        status.pod_ip == Some(ip),
        leads_to(state.cache, ip, pod),
        state.cache.by_ip[ip as u64].pod_ip == Some(ip),
    ensures
        leads_to(state.with_containers(pod, status, n).cache, ip, pod),
        state.with_containers(pod, status, n).cache.by_ip[ip as u64].pod_ip == Some(ip),
    decreases n,
{
    if n > 0 {
        lemma_address_stays_the_pods(state, pod, status, ip, n - 1);
    }
}

/// After the news that a pod was added or changed, a container of it that has
/// an identifier and a known cgroup is found under that cgroup, with its own
/// name and identifier and those of the pod, where the cgroup was known or
/// there was room for it and for the containers before it, unless a later
/// container of the pod came in the same cgroup.
pub proof fn law_news_give_the_cgroup_to_the_container(
    state: WatchState,
    event: WatchEvent,
    pod: PodObject,
    status: PodStatus,
    uid: String,
    i: int,
    container_id: String,
    cgroup_id: u64,
)
    requires
        event == WatchEvent::Apply(pod) || event == WatchEvent::InitApply(pod),
        pod.uid == Some(uid),
        uid@.len() > 0,
        pod.status == Some(status),
        0 <= i < status.containers@.len(),
        status.containers@[i].container_id == Some(container_id),
        status.containers@[i].cgroup_id == Some(cgroup_id),
        forall|j: int|
            i < j < status.containers@.len() ==> (
            #[trigger] status.containers@[j]).container_id is None
                || status.containers@[j].cgroup_id != Some(cgroup_id),
        state.cache.by_cgroup.dom().finite(),
        state.cache.by_cgroup.dom().contains(cgroup_id) || state.cache.by_cgroup.len() + i
            < state.cache.max_entries,
    ensures
        ({
            let found = state.after(event).cache.by_cgroup;
            &&& found.dom().contains(cgroup_id)
            &&& found[cgroup_id].container_name == status.containers@[i].name@
            &&& found[cgroup_id].container_id == container_id@
            &&& found[cgroup_id].pod_uid == uid@
            &&& found[cgroup_id].pod_ip == status.pod_ip
            &&& pod.name matches Some(name) ==> found[cgroup_id].pod_name == name@
            &&& pod.name is None ==> found[cgroup_id].pod_name == "unknown"@
            &&& pod.namespace matches Some(namespace) ==> found[cgroup_id].namespace == namespace@
            &&& pod.namespace is None ==> found[cgroup_id].namespace == "default"@
        }),
{
    let known = if status.pod_ip is Some {
        state.offered_by_ip(pod.entry(Seq::empty(), Seq::empty(), status.pod_ip))
    } else {
        state
    };
    lemma_containers_grow_the_cgroups(known, pod, status, i);
    assert(known.cache.by_cgroup.dom() == state.cache.by_cgroup.dom());
    if state.cache.by_cgroup.dom().contains(cgroup_id) {
        assert(known.cache.by_cgroup.dom().contains(cgroup_id));
        assert(known.with_containers(pod, status, i).cache.by_cgroup.dom().contains(cgroup_id));
    }
    assert(known.with_containers(pod, status, i).cache.takes_cgroup(cgroup_id));
    lemma_container_is_kept(known, pod, status, i, status.containers@.len() as int);
}

/// The news that a pod was added or changed touch no address but the pod's and
/// no cgroup but those of its containers.
pub proof fn law_news_touch_their_pod_only(
    state: WatchState,
    event: WatchEvent,
    pod: PodObject,
    key: u64,
)
    requires
        event == WatchEvent::Apply(pod) || event == WatchEvent::InitApply(pod),
    ensures
        ({
            let post = state.after(event).cache;
            &&& post.max_entries == state.cache.max_entries
            &&& pod.uid is None || pod.uid->0@.len() == 0 || pod.status is None ==> post
                == state.cache
            &&& (pod.status matches Some(status) ==> status.pod_ip is None || status.pod_ip->0 as u64
                != key) ==> {
                &&& post.by_ip.dom().contains(key) <==> state.cache.by_ip.dom().contains(key)
                &&& state.cache.by_ip.dom().contains(key) ==> post.by_ip[key]
                    == state.cache.by_ip[key]
            }
            &&& (pod.status matches Some(status) ==> forall|j: int|
                0 <= j < status.containers@.len() ==> (
                #[trigger] status.containers@[j]).cgroup_id != Some(key)) ==> {
                &&& post.by_cgroup.dom().contains(key) <==> state.cache.by_cgroup.dom().contains(
                    key,
                )
                &&& state.cache.by_cgroup.dom().contains(key) ==> post.by_cgroup[key]
                    == state.cache.by_cgroup[key]
            }
        }),
{
    reveal_strlit("");
    if let Some(status) = pod.status {
        let known = if status.pod_ip is Some {
            state.offered_by_ip(pod.entry(Seq::empty(), Seq::empty(), status.pod_ip))
        } else {
            state
        };
        lemma_containers_touch_their_keys(
            known,
            pod,
            status,
            status.containers@.len() as int,
            key,
        );
    }
}

proof fn lemma_containers_with_room_record_nothing(
    state: WatchState,
    pod: PodObject,
    status: PodStatus,
    n: int,
)
    requires
        0 <= n,
        state.cache.by_cgroup.dom().finite(),
        status.pod_ip matches Some(ip) ==> state.cache.by_ip.contains_key(ip as u64),
        state.cache.by_cgroup.len() + n <= state.cache.max_entries,
    ensures
        state.with_containers(pod, status, n).health == state.health,
        status.pod_ip matches Some(ip) ==> state.with_containers(
            pod,
            status,
            n,
        ).cache.by_ip.contains_key(ip as u64),
    decreases n,
{
    if n > 0 {
        lemma_containers_with_room_record_nothing(state, pod, status, n - 1);
        lemma_containers_grow_the_cgroups(state, pod, status, n - 1);
    }
}

/// The news that a pod was added or changed leave the agent's condition as it
/// is where there is room for all that they bring.
pub proof fn law_news_with_room_record_nothing(
    state: WatchState,
    event: WatchEvent,
    pod: PodObject,
    status: PodStatus,
)
    requires
        event == WatchEvent::Apply(pod) || event == WatchEvent::InitApply(pod),
        pod.status == Some(status),
        state.cache.by_cgroup.dom().finite(),
        status.pod_ip matches Some(ip) ==> state.cache.by_ip.dom().contains(ip as u64)
            || state.cache.by_ip.len() < state.cache.max_entries,
        state.cache.by_cgroup.len() + status.containers@.len() <= state.cache.max_entries,
    ensures
        state.after(event).health == state.health,
{
    let known = if status.pod_ip is Some {
        state.offered_by_ip(pod.entry(Seq::empty(), Seq::empty(), status.pod_ip))
    } else {
        state
    };
    lemma_containers_with_room_record_nothing(
        known,
        pod,
        status,
        status.containers@.len() as int,
    );
}

/// After the news that a pod was deleted no entry of it is left, every entry of
/// another pod is as it was, and none has come.
pub proof fn law_news_of_a_deletion_leave_nothing_of_the_pod(
    state: WatchState,
    pod: PodObject,
    uid: String,
    key: u64,
)
    requires
        pod.uid == Some(uid),
        uid@.len() > 0,
    ensures
        ({
            let post = state.after(WatchEvent::Delete(pod)).cache;
            &&& post.by_ip.dom().contains(key) <==> state.cache.by_ip.dom().contains(key)
                && state.cache.by_ip[key].pod_uid != uid@
            &&& post.by_cgroup.dom().contains(key) <==> state.cache.by_cgroup.dom().contains(key)
                && state.cache.by_cgroup[key].pod_uid != uid@
            &&& post.by_ip.dom().contains(key) ==> post.by_ip[key] == state.cache.by_ip[key]
            &&& post.by_cgroup.dom().contains(key) ==> post.by_cgroup[key]
                == state.cache.by_cgroup[key]
            &&& post.max_entries == state.cache.max_entries
        }),
{
}

/// Other news: a deletion without an identifier and the beginning of a watch
/// change nothing, and the end of its beginning tells of a connection.
pub proof fn law_other_news(state: WatchState, pod: PodObject)
    ensures
        pod.uid is None || pod.uid->0@.len() == 0 ==> state.after(WatchEvent::Delete(pod)) == state,
        state.after(WatchEvent::Init) == state,
        state.after(WatchEvent::InitDone).cache == state.cache,
        state.after(WatchEvent::InitDone).health.k8s_watcher_connected,
        state.after(WatchEvent::InitDone).health == (HealthView {
            k8s_watcher_connected: true,
            ..state.health
        }),
        !state.connected(false).health.k8s_watcher_connected,
{
    reveal_strlit("");
}

/// To take in a list of pods is to take in the news of each in turn.
pub proof fn law_resync_is_news_of_each_pod(state: WatchState, pods: Seq<PodObject>, n: int)
    requires
        0 <= n < pods.len(),
    ensures
        state.with_pods(pods, 0) == state,
        state.with_pods(pods, n + 1) == state.with_pods(pods, n).after(WatchEvent::Apply(pods[n])),
{
}

/// Jitter is read off the clock: it is the clock's nanoseconds as long as these
/// are below its bound, and starts over at each turn of the bound. The bound is
/// the number of whole milliseconds in a quarter of the wait.
pub proof fn law_jitter_follows_the_clock(backoff: Duration, subsec_nanos: u32, turn: u32)
    ensures
        backoff.nanos < 4_000_000 * 0x1_0000_0000_0000_0000 ==> 4_000_000 * jitter_bound(backoff)
            <= backoff.nanos < 4_000_000 * (jitter_bound(backoff) + 1),
        jitter_bound(backoff) == 0 ==> jitter(backoff, subsec_nanos) == 0,
        0 <= subsec_nanos < jitter_bound(backoff) ==> jitter(backoff, subsec_nanos)
            == subsec_nanos,
        turn - subsec_nanos == jitter_bound(backoff) ==> jitter(backoff, turn) == jitter(
            backoff,
            subsec_nanos,
        ),
{
    let b = jitter_bound(backoff);
    let n = subsec_nanos as int;
    if b > 0 {
        if n < b {
            assert(n % b == n) by (nonlinear_arith)
                requires
                    0 <= n < b,
            ;
        }
        assert((n + b) % b == n % b) by (nonlinear_arith)
            requires
                b > 0,
        ;
    }
}

/// What a watcher does: it stops whenever the agent shuts down; it lists all
/// pods at once after a stream that ended and after a wait that is over; and
/// after a failure it waits, for no less than the backoff and at most a quarter
/// more.
pub proof fn law_watcher_reconnects(watcher: PodWatcher, subsec_nanos: u32)
    requires
        watcher.backoff.nanos + watcher.backoff.nanos <= time::MAX_NANOS,
    ensures
        watcher.action(WatchSignal::Cancelled) == WatchAction::Stop,
        watcher.action(WatchSignal::StreamEnded { cancelled: true }) == WatchAction::Stop,
        watcher.action(WatchSignal::WaitOver { cancelled: true }) == WatchAction::Stop,
        watcher.action(WatchSignal::StreamEnded { cancelled: false }) == WatchAction::Resync,
        watcher.action(WatchSignal::WaitOver { cancelled: false }) == WatchAction::Resync,
        watcher.action(WatchSignal::StreamFailed { subsec_nanos }) matches WatchAction::Wait(span)
            && watcher.backoff.nanos <= span.nanos && 4 * span.nanos <= 5 * watcher.backoff.nanos
            && span.nanos == watcher.backoff.nanos + jitter(watcher.backoff, subsec_nanos)
            * 1_000_000,
        watcher.can_take(WatchSignal::StreamFailed { subsec_nanos }),
        watcher.can_take(WatchSignal::WaitOver { cancelled: false }),
        watcher.can_take(WatchSignal::Cancelled),
        watcher.can_take(WatchSignal::StreamEnded { cancelled: false }),
        watcher.can_take(WatchSignal::StreamEnded { cancelled: true }),
{
    law_jitter_is_below_a_quarter(watcher.backoff, subsec_nanos);
}

/// How the backoff moves: a stream that ended brings it back to its beginning, a
/// wait that is over doubles it up to its limit, and nothing else moves it.
pub proof fn law_backoff_moves(watcher: PodWatcher, subsec_nanos: u32, cancelled: bool)
    requires
        watcher.backoff.nanos + watcher.backoff.nanos <= time::MAX_NANOS,
    ensures
        watcher.backoff_after(WatchSignal::StreamEnded { cancelled }).nanos
            == watcher.backoff_min.nanos,
        watcher.backoff_after(WatchSignal::StreamFailed { subsec_nanos }).nanos
            == watcher.backoff.nanos,
        watcher.backoff_after(WatchSignal::Cancelled).nanos == watcher.backoff.nanos,
        ({
            let next = watcher.backoff_after(WatchSignal::WaitOver { cancelled: false }).nanos;
            &&& next == watcher.backoff.nanos + watcher.backoff.nanos || next
                == watcher.backoff_max.nanos
            &&& next <= watcher.backoff.nanos + watcher.backoff.nanos
            &&& next <= watcher.backoff_max.nanos
        }),
{
}

/// Which signals are out of reach: only a failure whose wait, and the end of a
/// wait whose double, is longer than any span can be. A shutdown never is.
pub proof fn law_signals_in_reach(watcher: PodWatcher, subsec_nanos: u32)
    ensures
        watcher.can_take(WatchSignal::StreamFailed { subsec_nanos }) <==> watcher.backoff.nanos
            + jitter(watcher.backoff, subsec_nanos) * 1_000_000 <= time::MAX_NANOS,
        watcher.can_take(WatchSignal::WaitOver { cancelled: false }) <==> watcher.backoff.nanos
            + watcher.backoff.nanos <= time::MAX_NANOS,
        watcher.can_take(WatchSignal::WaitOver { cancelled: true }),
        watcher.can_take(WatchSignal::Cancelled),
        watcher.can_take(WatchSignal::StreamEnded { cancelled: true }),
        watcher.can_take(WatchSignal::StreamEnded { cancelled: false }),
        watcher.backoff_after(WatchSignal::WaitOver { cancelled: true }).nanos
            == watcher.backoff.nanos,
{
}

} // verus!
