use orb8::health::HealthState;
use orb8::k8s_watcher::{
    handle_pod_apply, handle_pod_delete, handle_watch_event, jitter_from, jitter_millis,
    resync_all, ContainerStatus, PodObject, PodStatus, PodWatcher, WatchAction, WatchEvent,
    WatchSignal,
};
use orb8::pod_cache::PodCache;
use orb8::time::Duration;

fn container(name: &str, id: Option<&str>, cgroup_id: Option<u64>) -> ContainerStatus {
    ContainerStatus {
        name: name.to_string(),
        container_id: id.map(|s| s.to_string()),
        cgroup_id,
    }
}

fn pod(uid: &str, name: &str, ip: Option<u32>, containers: Vec<ContainerStatus>) -> PodObject {
    PodObject {
        namespace: Some("ns".to_string()),
        name: Some(name.to_string()),
        uid: Some(uid.to_string()),
        status: Some(PodStatus { pod_ip: ip, containers }),
    }
}

#[test]
fn a_pod_is_found_by_address_and_cgroup() {
    let mut health = HealthState::new();
    let mut cache = PodCache::new(10);
    let web = pod(
        "u1",
        "web",
        Some(7),
        vec![
            container("main", Some("c1"), Some(100)),
            container("waiting", None, Some(101)),
            container("lost", Some("c3"), None),
        ],
    );
    handle_pod_apply(&mut cache, &mut health, &web);

    assert_eq!(cache.len(), 1);
    assert_eq!(cache.ip_entries_count(), 1);
    let by_ip = cache.get_by_ip(7).unwrap();
    assert_eq!(by_ip.pod_name, "web");
    assert_eq!(by_ip.container_name, "main");
    let by_group = cache.get(100).unwrap();
    assert_eq!(by_group.namespace, "ns");
    assert_eq!(by_group.pod_uid, "u1");
    assert_eq!(by_group.container_id, "c1");
    assert_eq!(by_group.pod_ip, Some(7));
}

#[test]
fn a_pod_without_containers_is_found_by_address() {
    let mut health = HealthState::new();
    let mut cache = PodCache::new(10);
    handle_pod_apply(&mut cache, &mut health, &pod("u1", "web", Some(7), vec![]));
    let found = cache.get_by_ip(7).unwrap();
    assert_eq!(found.container_name, "");
    assert_eq!(found.container_id, "");
    assert!(cache.is_empty());
}

#[test]
fn incomplete_pods_change_nothing() {
    let mut health = HealthState::new();
    let mut cache = PodCache::new(10);
    let mut anonymous = pod("", "web", Some(7), vec![]);
    handle_pod_apply(&mut cache, &mut health, &anonymous);
    anonymous.uid = None;
    handle_pod_apply(&mut cache, &mut health, &anonymous);
    let mut silent = pod("u1", "web", Some(7), vec![]);
    silent.status = None;
    handle_pod_apply(&mut cache, &mut health, &silent);
    assert_eq!(cache.ip_entries_count(), 0);
    assert_eq!(cache.len(), 0);
}

#[test]
fn missing_names_are_filled_in() {
    let mut health = HealthState::new();
    let mut cache = PodCache::new(10);
    let mut nameless = pod("u1", "web", Some(7), vec![]);
    nameless.name = None;
    nameless.namespace = None;
    handle_pod_apply(&mut cache, &mut health, &nameless);
    let found = cache.get_by_ip(7).unwrap();
    assert_eq!(found.namespace, "default");
    assert_eq!(found.pod_name, "unknown");
}

#[test]
fn a_deleted_pod_is_gone() {
    let mut health = HealthState::new();
    let mut cache = PodCache::new(10);
    let web = pod("u1", "web", Some(7), vec![container("main", Some("c1"), Some(100))]);
    let db = pod("u2", "db", Some(8), vec![container("main", Some("c2"), Some(200))]);
    handle_pod_apply(&mut cache, &mut health, &web);
    handle_pod_apply(&mut cache, &mut health, &db);
    handle_pod_delete(&mut cache, &mut health, &pod("", "web", Some(7), vec![]));
    assert_eq!(cache.len(), 2);
    handle_pod_delete(&mut cache, &mut health, &web);
    assert!(cache.get(100).is_none());
    assert!(cache.get_by_ip(7).is_none());
    assert!(cache.get(200).is_some());
    assert!(cache.get_by_ip(8).is_some());
}

#[test]
fn news_are_taken_in() {
    let mut health = HealthState::new();
    health.set_probes_attached(true);
    let mut cache = PodCache::new(10);
    handle_watch_event(&mut cache, &mut health, &WatchEvent::Init);
    assert!(health.health_message().contains("k8s watcher disconnected"));
    let first = WatchEvent::InitApply(pod("u1", "web", Some(7), vec![]));
    handle_watch_event(&mut cache, &mut health, &first);
    handle_watch_event(&mut cache, &mut health, &WatchEvent::InitDone);
    assert_eq!(health.health_message(), "OK");
    let second = WatchEvent::Apply(pod("u2", "db", Some(8), vec![]));
    handle_watch_event(&mut cache, &mut health, &second);
    assert_eq!(cache.ip_entries_count(), 2);
    let gone = WatchEvent::Delete(pod("u1", "web", None, vec![]));
    handle_watch_event(&mut cache, &mut health, &gone);
    assert_eq!(cache.ip_entries_count(), 1);
    assert!(cache.get_by_ip(8).is_some());
}

#[test]
fn a_resync_takes_all_pods_in() {
    let mut health = HealthState::new();
    health.set_probes_attached(true);
    let mut cache = PodCache::new(2);
    let pods = vec![
        pod("u1", "one", Some(1), vec![]),
        pod("u2", "two", Some(2), vec![]),
        pod("u3", "three", Some(3), vec![]),
        pod("u4", "first again", Some(1), vec![]),
    ];
    resync_all(&mut cache, &mut health, &pods);
    assert_eq!(cache.ip_entries_count(), 2);
    assert_eq!(cache.get_by_ip(1).unwrap().pod_name, "first again");
    assert!(cache.get_by_ip(3).is_none());
    assert_eq!(health.pod_cache_evictions(), 1);
    assert!(!health.health_message().contains("k8s watcher disconnected"));
}

#[test]
fn jitter_stays_below_a_quarter() {
    assert_eq!(jitter_from(Duration::from_secs(1), 999), 249);
    assert_eq!(jitter_from(Duration::from_secs(1), 250), 0);
    assert_eq!(jitter_from(Duration::from_secs(1), 123_456_789), 39);
    assert_eq!(jitter_from(Duration::from_millis(3), 999), 0);
    assert_eq!(jitter_from(Duration::from_millis(4), 999), 0);
    for _ in 0..100 {
        assert!(jitter_millis(Duration::from_secs(2)) < 500);
    }
    assert_eq!(jitter_millis(Duration::from_millis(0)), 0);
}

#[test]
fn waits_double_from_failure_to_failure() {
    let mut health = HealthState::new();
    health.set_k8s_watcher_connected(true);
    let mut watcher = PodWatcher::new(Duration::from_secs(1), Duration::from_secs(30));
    let mut waits = vec![];
    for _ in 0..7 {
        let failed = WatchSignal::StreamFailed { subsec_nanos: 0 };
        assert!(watcher.can_handle(failed));
        match watcher.handle(&mut health, failed) {
            WatchAction::Wait(span) => waits.push(span.as_millis() / 1_000),
            other => panic!("{:?}", other),
        }
        assert!(health.health_message().contains("k8s watcher disconnected"));
        let over = WatchSignal::WaitOver { cancelled: false };
        assert!(watcher.can_handle(over));
        assert_eq!(watcher.handle(&mut health, over), WatchAction::Resync);
    }
    assert_eq!(waits, vec![1, 2, 4, 8, 16, 30, 30]);
    assert_eq!(
        watcher.handle(&mut health, WatchSignal::StreamEnded { cancelled: false }),
        WatchAction::Resync
    );
    assert_eq!(
        watcher.handle(&mut health, WatchSignal::StreamFailed { subsec_nanos: 1_249 }),
        WatchAction::Wait(Duration::from_millis(1_249))
    );
}

#[test]
fn a_watcher_stops_when_cancelled() {
    let mut health = HealthState::new();
    let mut watcher = PodWatcher::new(Duration::from_secs(1), Duration::from_secs(30));
    for signal in [
        WatchSignal::Cancelled,
        WatchSignal::StreamEnded { cancelled: true },
        WatchSignal::WaitOver { cancelled: true },
    ] {
        assert_eq!(watcher.handle(&mut health, signal), WatchAction::Stop);
    }
}

#[test]
fn spans_beyond_the_clock_are_told() {
    let long = Duration::from_secs(u64::MAX);
    let watcher = PodWatcher::new(long, long);
    assert!(!watcher.can_handle(WatchSignal::WaitOver { cancelled: false }));
    assert!(!watcher.can_handle(WatchSignal::StreamFailed { subsec_nanos: 999_999_999 }));
    assert!(watcher.can_handle(WatchSignal::Cancelled));
    assert!(watcher.can_handle(WatchSignal::WaitOver { cancelled: true }));
}

#[test]
fn a_cancelled_wait_leaves_the_backoff() {
    let mut health = HealthState::new();
    let long = Duration::from_secs(u64::MAX);
    let mut watcher = PodWatcher::new(long, long);
    assert_eq!(
        watcher.handle(&mut health, WatchSignal::WaitOver { cancelled: true }),
        WatchAction::Stop
    );
    let mut watcher = PodWatcher::new(Duration::from_secs(1), Duration::from_secs(30));
    watcher.handle(&mut health, WatchSignal::WaitOver { cancelled: true });
    assert_eq!(watcher.backoff, Duration::from_secs(1));
}

#[test]
fn containers_beyond_the_limit_are_refused() {
    let mut health = HealthState::new();
    let mut cache = PodCache::new(2);
    let web = pod(
        "u1",
        "web",
        Some(7),
        vec![
            container("a", Some("c1"), Some(100)),
            container("b", Some("c2"), Some(101)),
            container("c", Some("c3"), Some(102)),
        ],
    );
    handle_pod_apply(&mut cache, &mut health, &web);
    assert_eq!(cache.len(), 2);
    assert!(cache.get(102).is_none());
    assert_eq!(health.pod_cache_evictions(), 1);
    assert_eq!(cache.get_by_ip(7).unwrap().container_name, "c");
}
