//! Which pod a cgroup or an address belongs to, in a cache with a bound on
//! either.
use crate::health;
use crate::health::{HealthState, HealthView};
use crate::pod_table;
use crate::pod_table::{
    empty_pods, pod_contains, pod_entries, pod_get, pod_insert, pod_is_empty, pod_len, pod_remove,
    pod_retain_others,
};
use crate::text::same_text;
use dashmap::DashMap;
use vstd::prelude::*;

verus! {

/// What is known of a container and of the pod that it runs in.
#[derive(Debug)]
pub struct PodMetadata {
    pub namespace: String,
    pub pod_name: String,
    pub pod_uid: String,
    pub container_name: String,
    pub container_id: String,
    pub pod_ip: Option<u32>,
}

/// The abstract value of a `PodMetadata`.
pub struct PodView {
    pub namespace: Seq<char>,
    pub pod_name: Seq<char>,
    pub pod_uid: Seq<char>,
    pub container_name: Seq<char>,
    pub container_id: Seq<char>,
    pub pod_ip: Option<u32>,
}

impl View for PodMetadata {
    type V = PodView;

    open spec fn view(&self) -> PodView {
        PodView {
            namespace: self.namespace@,
            pod_name: self.pod_name@,
            pod_uid: self.pod_uid@,
            container_name: self.container_name@,
            container_id: self.container_id@,
            pod_ip: self.pod_ip,
        }
    }
}

impl Clone for PodMetadata {
    fn clone(&self) -> (r: Self)
        ensures
            r@ == self@,
    {
        PodMetadata {
            namespace: self.namespace.clone(),
            pod_name: self.pod_name.clone(),
            pod_uid: self.pod_uid.clone(),
            container_name: self.container_name.clone(),
            container_id: self.container_id.clone(),
            pod_ip: self.pod_ip,
        }
    }
}

/// Whether an entry belongs to another pod than `uid`.
pub fn is_other_pod(pod: &PodMetadata, uid: &str) -> (r: bool)
    ensures
        r == (pod@.pod_uid != uid@),
{
    !same_text(pod.pod_uid.as_str(), uid)
}

/// The abstract value of a `PodCache`. Addresses are widened to the keys of
/// the table.
pub struct CacheView {
    pub by_cgroup: Map<u64, PodView>,
    pub by_ip: Map<u64, PodView>,
    pub max_entries: usize,
}

impl CacheView {
    /// Whether the cgroups and the addresses are within their bound.
    pub open spec fn bounded(self) -> bool {
        &&& self.by_cgroup.dom().finite()
        &&& self.by_cgroup.len() <= self.max_entries
        &&& self.by_ip.dom().finite()
        &&& self.by_ip.len() <= self.max_entries
    }

    /// Whether an entry for this cgroup is taken: a cgroup that is there is
    /// always overwritten, a new one needs room.
    pub open spec fn takes_cgroup(self, cgroup_id: u64) -> bool {
        self.by_cgroup.contains_key(cgroup_id) || self.by_cgroup.len() < self.max_entries
    }

    /// Whether an entry for this address is taken: an address that is there
    /// is always overwritten, a new one needs room.
    pub open spec fn takes_ip(self, ip: u32) -> bool {
        self.by_ip.contains_key(ip as u64) || self.by_ip.len() < self.max_entries
    }

    /// The cache after an entry was offered under its address, if it has one.
    pub open spec fn with_ip_entry(self, pod: PodView) -> CacheView {
        match pod.pod_ip {
            Some(ip) if self.takes_ip(ip) => CacheView {
                by_ip: self.by_ip.insert(ip as u64, pod),
                ..self
            },
            _ => self,
        }
    }

    /// Whether an entry has an address under which it is not taken.
    pub open spec fn refuses_ip_of(self, pod: PodView) -> bool {
        pod.pod_ip matches Some(ip) && !self.takes_ip(ip)
    }

    /// The agent's condition after an entry was offered under its address: a
    /// refusal is recorded.
    pub open spec fn health_with_ip_entry(self, pod: PodView, h: HealthView) -> HealthView {
        if self.refuses_ip_of(pod) {
            refusal_recorded(h)
        } else {
            h
        }
    }

    /// The cache after an entry was offered under its cgroup and its address.
    pub open spec fn with_entry(self, cgroup_id: u64, pod: PodView) -> CacheView {
        CacheView {
            by_cgroup: if self.takes_cgroup(cgroup_id) {
                self.by_cgroup.insert(cgroup_id, pod)
            } else {
                self.by_cgroup
            },
            ..self.with_ip_entry(pod)
        }
    }

    /// The agent's condition after an entry was offered under its cgroup and
    /// its address: that it was refused under either is recorded once.
    pub open spec fn health_with_entry(
        self,
        cgroup_id: u64,
        pod: PodView,
        h: HealthView,
    ) -> HealthView {
        if !self.takes_cgroup(cgroup_id) || self.refuses_ip_of(pod) {
            refusal_recorded(h)
        } else {
            h
        }
    }

    /// The cache after entries were offered one after another, each with its
    /// cgroup.
    pub open spec fn with_entries(self, entries: Seq<(u64, PodView)>) -> CacheView
        decreases entries.len(),
    {
        if entries.len() == 0 {
            self
        } else {
            self.with_entries(entries.drop_last()).with_entry(entries.last().0, entries.last().1)
        }
    }

    /// The cache without a pod.
    pub open spec fn without_pod(self, uid: Seq<char>) -> CacheView {
        CacheView {
            by_cgroup: pod_table::without_pod(self.by_cgroup, uid),
            by_ip: pod_table::without_pod(self.by_ip, uid),
            ..self
        }
    }

    /// Whether there is room for a new cgroup and for a new address.
    pub open spec fn has_room(self) -> bool {
        self.by_cgroup.len() < self.max_entries && self.by_ip.len() < self.max_entries
    }

    /// The agent's condition after a pod was removed: a cache that has room
    /// again is no longer at capacity.
    pub open spec fn health_without_pod(self, uid: Seq<char>, h: HealthView) -> HealthView {
        if self.without_pod(uid).has_room() {
            HealthView { pod_cache_at_capacity: false, ..h }
        } else {
            h
        }
    }
}

/// The agent's condition after the cache refused an entry: the cache is at
/// capacity, and the refusal is counted.
pub open spec fn refusal_recorded(h: HealthView) -> HealthView {
    HealthView {
        pod_cache_at_capacity: true,
        pod_cache_evictions: health::counted(h.pod_cache_evictions, 1),
        ..h
    }
}

/// Records that the cache refused an entry.
fn record_refusal(health: &mut HealthState)
    ensures
        final(health)@ == refusal_recorded(old(health)@),
{
    health.set_pod_cache_at_capacity(true);
    health.inc_pod_cache_evictions();
}

/// The pods by cgroup and by address.
pub struct PodCache {
    by_cgroup: DashMap<u64, PodMetadata>,
    by_ip: DashMap<u64, PodMetadata>,
    max_entries: usize,
}

impl View for PodCache {
    type V = CacheView;

    closed spec fn view(&self) -> CacheView {
        CacheView {
            by_cgroup: pod_table::pod_contents(self.by_cgroup),
            by_ip: pod_table::pod_contents(self.by_ip),
            max_entries: self.max_entries,
        }
    }
}

impl PodCache {
    /// An empty cache for `max_entries` cgroups and as many addresses.
    pub fn new(max_entries: usize) -> (r: Self)
        ensures
            r@ == (CacheView { by_cgroup: Map::empty(), by_ip: Map::empty(), max_entries }),
            r@.bounded(),
    {
        PodCache { by_cgroup: empty_pods(), by_ip: empty_pods(), max_entries }
    }

    /// Offers an entry under its cgroup and its address. That either finds no
    /// room is recorded.
    pub fn insert(&mut self, health: &mut HealthState, cgroup_id: u64, metadata: PodMetadata)
        ensures
            final(self)@ == old(self)@.with_entry(cgroup_id, metadata@),
            final(health)@ == old(self)@.health_with_entry(cgroup_id, metadata@, old(health)@),
            old(self)@.bounded() ==> final(self)@.bounded(),
    {
        let ip_taken: bool = match metadata.pod_ip {
            Some(ip) => self.insert_ip(ip, metadata.clone()),
            None => true,
        };
        let cgroup_taken: bool = self.insert_cgroup(cgroup_id, metadata);
        if !ip_taken || !cgroup_taken {
            record_refusal(health);
        }
    }

    /// Offers an entry under its address, if it has one. That there is no room
    /// is recorded.
    pub fn insert_by_ip(&mut self, health: &mut HealthState, metadata: PodMetadata)
        ensures
            final(self)@ == old(self)@.with_ip_entry(metadata@),
            final(health)@ == old(self)@.health_with_ip_entry(metadata@, old(health)@),
            old(self)@.bounded() ==> final(self)@.bounded(),
    {
        if let Some(ip) = metadata.pod_ip {
            if !self.insert_ip(ip, metadata) {
                record_refusal(health);
            }
        }
    }

    /// Stores an entry under its address where that is known or there is room,
    /// and tells whether it did.
    fn insert_ip(&mut self, ip: u32, metadata: PodMetadata) -> (taken: bool)
        requires
            metadata@.pod_ip == Some(ip),
        ensures
            taken == old(self)@.takes_ip(ip),
            final(self)@ == old(self)@.with_ip_entry(metadata@),
            old(self)@.bounded() ==> final(self)@.bounded(),
    {
        if pod_contains(&self.by_ip, ip as u64) {
            assert(self@.by_ip.dom().insert(ip as u64) =~= self@.by_ip.dom());
        } else if pod_len(&self.by_ip) >= self.max_entries {
            return false;
        }
        pod_insert(&mut self.by_ip, ip as u64, metadata);
        true
    }

    /// Stores an entry under a cgroup where that is known or there is room, and
    /// tells whether it did.
    fn insert_cgroup(&mut self, cgroup_id: u64, metadata: PodMetadata) -> (taken: bool)
        ensures
            taken == old(self)@.takes_cgroup(cgroup_id),
            final(self)@ == (CacheView {
                by_cgroup: if taken {
                    old(self)@.by_cgroup.insert(cgroup_id, metadata@)
                } else {
                    old(self)@.by_cgroup
                },
                ..old(self)@
            }),
            old(self)@.bounded() ==> final(self)@.bounded(),
    {
        if pod_contains(&self.by_cgroup, cgroup_id) {
            assert(self@.by_cgroup.dom().insert(cgroup_id) =~= self@.by_cgroup.dom());
        } else if pod_len(&self.by_cgroup) >= self.max_entries {
            return false;
        }
        pod_insert(&mut self.by_cgroup, cgroup_id, metadata);
        true
    }

    /// The entry of a cgroup.
    pub fn get(&self, cgroup_id: u64) -> (r: Option<PodMetadata>)
        ensures
            pod_table::finds(r, self@.by_cgroup, cgroup_id),
    {
        pod_get(&self.by_cgroup, cgroup_id)
    }

    /// The entry of an address.
    pub fn get_by_ip(&self, ip: u32) -> (r: Option<PodMetadata>)
        ensures
            pod_table::finds(r, self@.by_ip, ip as u64),
    {
        pod_get(&self.by_ip, ip as u64)
    }

    /// Takes the entry of a cgroup out. What is stored under addresses stays.
    pub fn remove(&mut self, cgroup_id: u64) -> (r: Option<PodMetadata>)
        ensures
            pod_table::finds(r, old(self)@.by_cgroup, cgroup_id),
            final(self)@ == (CacheView {
                by_cgroup: old(self)@.by_cgroup.remove(cgroup_id),
                ..old(self)@
            }),
            old(self)@.bounded() ==> final(self)@.bounded(),
    {
        pod_remove(&mut self.by_cgroup, cgroup_id)
    }

    /// Removes all entries of a pod.
    pub fn remove_pod(&mut self, health: &mut HealthState, pod_uid: &str)
        ensures
            final(self)@ == old(self)@.without_pod(pod_uid@),
            final(health)@ == old(self)@.health_without_pod(pod_uid@, old(health)@),
            old(self)@.bounded() ==> final(self)@.bounded(),
    {
        pod_retain_others(&mut self.by_cgroup, pod_uid);
        pod_retain_others(&mut self.by_ip, pod_uid);

        if pod_len(&self.by_cgroup) < self.max_entries && pod_len(&self.by_ip) < self.max_entries {
            health.set_pod_cache_at_capacity(false);
        }
        proof {
            if old(self)@.bounded() {
                vstd::set_lib::lemma_len_subset(self@.by_cgroup.dom(), old(self)@.by_cgroup.dom());
                vstd::set_lib::lemma_len_subset(self@.by_ip.dom(), old(self)@.by_ip.dom());
            }
        }
    }

    /// How many cgroups have an entry.
    pub fn len(&self) -> (r: usize)
        ensures
            pod_table::counts(r, self@.by_cgroup),
    {
        pod_len(&self.by_cgroup)
    }

    /// How many addresses have an entry.
    pub fn ip_entries_count(&self) -> (r: usize)
        ensures
            pod_table::counts(r, self@.by_ip),
    {
        pod_len(&self.by_ip)
    }

    /// Whether no cgroup has an entry.
    pub fn is_empty(&self) -> (r: bool)
        ensures
            r == (self@.by_cgroup == pod_table::no_pods()),
    {
        pod_is_empty(&self.by_cgroup)
    }

    /// The entries of all cgroups, in no particular order.
    pub fn entries(&self) -> (r: Vec<(u64, PodMetadata)>)
        ensures
            pod_table::lists(r@, self@.by_cgroup),
    {
        pod_entries(&self.by_cgroup)
    }
}

impl Default for PodCache {
    fn default() -> (r: Self)
        ensures
            r@ == (CacheView { by_cgroup: Map::empty(), by_ip: Map::empty(), max_entries: 10_000 }),
            r@.bounded(),
    {
        PodCache::new(10_000)
    }
}

/// A bounded cache stays bounded whatever entries it is offered.
pub proof fn law_cache_stays_bounded(cache: CacheView, entries: Seq<(u64, PodView)>)
    requires
        cache.bounded(),
    ensures
        cache.with_entries(entries).bounded(),
        cache.with_entries(entries).max_entries == cache.max_entries,
    decreases entries.len(),
{
    if entries.len() > 0 {
        law_cache_stays_bounded(cache, entries.drop_last());
        let before = cache.with_entries(entries.drop_last());
        let (cgroup_id, pod) = entries.last();
        if before.by_cgroup.contains_key(cgroup_id) {
            assert(before.by_cgroup.dom().insert(cgroup_id) =~= before.by_cgroup.dom());
        }
        if let Some(ip) = pod.pod_ip {
            if before.by_ip.contains_key(ip as u64) {
                assert(before.by_ip.dom().insert(ip as u64) =~= before.by_ip.dom());
            }
        }
    }
}

/// What was inserted is found again, under its cgroup and under its address,
/// where that was known or there was room.
pub proof fn law_inserted_entry_is_found(cache: CacheView, cgroup_id: u64, pod: PodView, ip: u32)
    ensures
        cache.takes_cgroup(cgroup_id) ==> {
            &&& cache.with_entry(cgroup_id, pod).by_cgroup.contains_key(cgroup_id)
            &&& cache.with_entry(cgroup_id, pod).by_cgroup[cgroup_id] == pod
        },
        pod.pod_ip == Some(ip) && cache.takes_ip(ip) ==> {
            &&& cache.with_ip_entry(pod).by_ip.contains_key(ip as u64)
            &&& cache.with_ip_entry(pod).by_ip[ip as u64] == pod
            &&& cache.with_entry(cgroup_id, pod).by_ip[ip as u64] == pod
        },
{
}

/// An entry whose address finds no room changes nothing under the addresses;
/// its refusal shows in the agent's condition and is counted.
pub proof fn law_refused_entry_leaves_the_addresses(
    cache: CacheView,
    pod: PodView,
    ip: u32,
    h: HealthView,
)
    requires
        pod.pod_ip == Some(ip),
        !cache.takes_ip(ip),
    ensures
        cache.with_ip_entry(pod) == cache,
        cache.health_with_ip_entry(pod, h).pod_cache_at_capacity,
        cache.health_with_ip_entry(pod, h).pod_cache_evictions == health::counted(
            h.pod_cache_evictions,
            1,
        ),
{
}

/// An entry whose cgroup finds no room changes nothing under the cgroups; its
/// refusal shows in the agent's condition and is counted once, whether or not
/// its address is refused too.
pub proof fn law_refused_entry_leaves_the_cgroups(
    cache: CacheView,
    cgroup_id: u64,
    pod: PodView,
    h: HealthView,
)
    requires
        !cache.takes_cgroup(cgroup_id),
    ensures
        cache.with_entry(cgroup_id, pod) == cache.with_ip_entry(pod),
        cache.with_entry(cgroup_id, pod).by_cgroup == cache.by_cgroup,
        cache.health_with_entry(cgroup_id, pod, h).pod_cache_at_capacity,
        cache.health_with_entry(cgroup_id, pod, h).pod_cache_evictions == health::counted(
            h.pod_cache_evictions,
            1,
        ),
{
}

/// An address that is in the cache can be given a new entry even at capacity.
pub proof fn law_known_address_is_updated_at_capacity(cache: CacheView, pod: PodView, ip: u32)
    requires
        pod.pod_ip == Some(ip),
        cache.by_ip.contains_key(ip as u64),
    ensures
        cache.with_ip_entry(pod).by_ip == cache.by_ip.insert(ip as u64, pod),
{
}

/// A cgroup that is in the cache can be given a new entry even at capacity.
pub proof fn law_known_cgroup_is_updated_at_capacity(cache: CacheView, cgroup_id: u64, pod: PodView)
    requires
        cache.by_cgroup.contains_key(cgroup_id),
    ensures
        cache.with_entry(cgroup_id, pod).by_cgroup == cache.by_cgroup.insert(cgroup_id, pod),
{
}

/// Removing a pod removes every entry of it and no entry of another pod.
pub proof fn law_removed_pod_is_gone(cache: CacheView, uid: Seq<char>, key: u64)
    ensures
        cache.without_pod(uid).by_cgroup.contains_key(key) <==> cache.by_cgroup.contains_key(key)
            && cache.by_cgroup[key].pod_uid != uid,
        cache.without_pod(uid).by_ip.contains_key(key) <==> cache.by_ip.contains_key(key)
            && cache.by_ip[key].pod_uid != uid,
        cache.without_pod(uid).by_cgroup.contains_key(key)
            ==> cache.without_pod(uid).by_cgroup[key] == cache.by_cgroup[key],
        cache.without_pod(uid).by_ip.contains_key(key) ==> cache.without_pod(uid).by_ip[key]
            == cache.by_ip[key],
        cache.without_pod(uid).without_pod(uid) == cache.without_pod(uid),
{
    let once = cache.without_pod(uid);
    assert(once.without_pod(uid).by_cgroup =~= once.by_cgroup);
    assert(once.without_pod(uid).by_ip =~= once.by_ip);
}

/// What an offered entry changes under the addresses: its own address leads to
/// it where that was known or fewer addresses than the limit were, and nothing
/// else changes; without an address nothing does.
pub proof fn law_offer_changes_its_own_address_only(cache: CacheView, pod: PodView, key: u64)
    ensures
        cache.with_ip_entry(pod).by_cgroup == cache.by_cgroup,
        cache.with_ip_entry(pod).max_entries == cache.max_entries,
        pod.pod_ip is None ==> cache.with_ip_entry(pod).by_ip == cache.by_ip,
        pod.pod_ip is Some && pod.pod_ip->0 as u64 != key ==> {
            &&& cache.with_ip_entry(pod).by_ip.dom().contains(key)
                <==> cache.by_ip.dom().contains(key)
            &&& cache.by_ip.dom().contains(key) ==> cache.with_ip_entry(pod).by_ip[key]
                == cache.by_ip[key]
        },
        pod.pod_ip is Some && pod.pod_ip->0 as u64 == key && (cache.by_ip.dom().contains(key)
            || cache.by_ip.len() < cache.max_entries) ==> {
            &&& cache.with_ip_entry(pod).by_ip.dom().contains(key)
            &&& cache.with_ip_entry(pod).by_ip[key] == pod
        },
        pod.pod_ip is Some && pod.pod_ip->0 as u64 == key && !cache.by_ip.dom().contains(key)
            && cache.by_ip.len() >= cache.max_entries
            ==> !cache.with_ip_entry(pod).by_ip.dom().contains(key),
{
}

/// What an entry offered under a cgroup changes: the cgroup leads to it where
/// that was known or fewer cgroups than the limit were, no other cgroup
/// changes, and the addresses change as by its address alone.
pub proof fn law_offer_changes_its_own_cgroup_only(
    cache: CacheView,
    cgroup_id: u64,
    pod: PodView,
    key: u64,
)
    ensures
        cache.with_entry(cgroup_id, pod).by_ip == cache.with_ip_entry(pod).by_ip,
        cache.with_entry(cgroup_id, pod).max_entries == cache.max_entries,
        key != cgroup_id ==> {
            &&& cache.with_entry(cgroup_id, pod).by_cgroup.dom().contains(key)
                <==> cache.by_cgroup.dom().contains(key)
            &&& cache.by_cgroup.dom().contains(key) ==> cache.with_entry(
                cgroup_id,
                pod,
            ).by_cgroup[key] == cache.by_cgroup[key]
        },
        cache.by_cgroup.dom().contains(cgroup_id) || cache.by_cgroup.len() < cache.max_entries ==> {
            &&& cache.with_entry(cgroup_id, pod).by_cgroup.dom().contains(cgroup_id)
            &&& cache.with_entry(cgroup_id, pod).by_cgroup[cgroup_id] == pod
        },
        !cache.by_cgroup.dom().contains(cgroup_id) && cache.by_cgroup.len() >= cache.max_entries
            ==> !cache.with_entry(cgroup_id, pod).by_cgroup.dom().contains(cgroup_id),
{
}

/// An offer is recorded exactly where it is refused, under its cgroup or under
/// its address; then the cache counts as full and one refusal is added. Nothing
/// else of the agent's condition changes.
pub proof fn law_refusals_are_recorded(
    cache: CacheView,
    cgroup_id: u64,
    pod: PodView,
    h: HealthView,
)
    ensures
        ({
            let no_ip = pod.pod_ip is Some && !cache.by_ip.dom().contains(pod.pod_ip->0 as u64)
                && cache.by_ip.len() >= cache.max_entries;
            let no_cgroup = !cache.by_cgroup.dom().contains(cgroup_id) && cache.by_cgroup.len()
                >= cache.max_entries;
            let alone = cache.health_with_ip_entry(pod, h);
            let both = cache.health_with_entry(cgroup_id, pod, h);
            &&& !no_ip ==> alone == h
            &&& no_ip ==> alone.pod_cache_at_capacity
            &&& no_ip && h.pod_cache_evictions < u64::MAX ==> alone.pod_cache_evictions
                == h.pod_cache_evictions + 1
            &&& !no_ip && !no_cgroup ==> both == h
            &&& no_ip || no_cgroup ==> both.pod_cache_at_capacity
            &&& (no_ip || no_cgroup) && h.pod_cache_evictions < u64::MAX ==> both.pod_cache_evictions
                == h.pod_cache_evictions + 1
            &&& both.probes_attached == h.probes_attached
            &&& both.k8s_watcher_connected == h.k8s_watcher_connected
            &&& both.flow_table_at_capacity == h.flow_table_at_capacity
            &&& both.broadcast_drops == h.broadcast_drops
            &&& both.flow_evictions == h.flow_evictions
            &&& alone.probes_attached == h.probes_attached
            &&& alone.k8s_watcher_connected == h.k8s_watcher_connected
            &&& alone.flow_table_at_capacity == h.flow_table_at_capacity
            &&& alone.broadcast_drops == h.broadcast_drops
            &&& alone.flow_evictions == h.flow_evictions
        }),
{
}

/// The limit holds for cgroups and for addresses.
pub proof fn law_limit_is_on_both_tables(cache: CacheView)
    ensures
        cache.bounded() <==> {
            &&& cache.by_cgroup.dom().finite()
            &&& cache.by_ip.dom().finite()
            &&& cache.by_cgroup.dom().len() <= cache.max_entries
            &&& cache.by_ip.dom().len() <= cache.max_entries
        },
{
}

/// Removing a pod takes the mark of a full cache away exactly where it leaves
/// fewer cgroups and fewer addresses than the limit, and changes nothing else
/// of the agent's condition. The limit stays.
pub proof fn law_removal_makes_room(cache: CacheView, uid: Seq<char>, h: HealthView)
    ensures
        ({
            let after = cache.without_pod(uid);
            let room = after.by_cgroup.len() < cache.max_entries && after.by_ip.len()
                < cache.max_entries;
            let h_after = cache.health_without_pod(uid, h);
            &&& h_after.pod_cache_at_capacity <==> h.pod_cache_at_capacity && !room
            &&& h_after.pod_cache_evictions == h.pod_cache_evictions
            &&& h_after.probes_attached == h.probes_attached
            &&& h_after.k8s_watcher_connected == h.k8s_watcher_connected
            &&& h_after.flow_table_at_capacity == h.flow_table_at_capacity
            &&& h_after.broadcast_drops == h.broadcast_drops
            &&& h_after.flow_evictions == h.flow_evictions
            &&& after.max_entries == cache.max_entries
        }),
{
}

} // verus!
