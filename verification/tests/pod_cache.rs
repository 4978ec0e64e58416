use orb8::health::HealthState;
use orb8::pod_cache::{PodCache, PodMetadata};

fn test_cache() -> PodCache {
    PodCache::default()
}

fn numbered(i: u32) -> PodMetadata {
    PodMetadata {
        namespace: "default".to_string(),
        pod_name: format!("pod-{}", i),
        pod_uid: format!("uid-{}", i),
        container_name: "main".to_string(),
        container_id: format!("c-{}", i),
        pod_ip: Some(i),
    }
}

#[test]
fn test_pod_cache_insert_get() {
    let mut health = HealthState::default();
    let mut cache = test_cache();

    let metadata = PodMetadata {
        namespace: "default".to_string(),
        pod_name: "nginx".to_string(),
        pod_uid: "abc-123".to_string(),
        container_name: "nginx".to_string(),
        container_id: "container123".to_string(),
        pod_ip: Some(0x0A000005),
    };

    cache.insert(&mut health, 12345, metadata.clone());

    let retrieved = cache.get(12345).expect("Should find entry");
    assert_eq!(retrieved.namespace, "default");
    assert_eq!(retrieved.pod_name, "nginx");
}

#[test]
fn test_pod_cache_get_by_ip() {
    let mut health = HealthState::default();
    let mut cache = test_cache();

    let metadata = PodMetadata {
        namespace: "default".to_string(),
        pod_name: "nginx".to_string(),
        pod_uid: "abc-123".to_string(),
        container_name: "nginx".to_string(),
        container_id: "container123".to_string(),
        pod_ip: Some(0x0A000005),
    };

    cache.insert_by_ip(&mut health, metadata);

    let retrieved = cache.get_by_ip(0x0A000005).expect("Should find by IP");
    assert_eq!(retrieved.namespace, "default");
    assert_eq!(retrieved.pod_name, "nginx");

    assert!(cache.get_by_ip(0x0A000099).is_none());
}

#[test]
fn test_pod_cache_remove_pod() {
    let mut health = HealthState::default();
    let mut cache = test_cache();

    let metadata1 = PodMetadata {
        namespace: "default".to_string(),
        pod_name: "nginx".to_string(),
        pod_uid: "pod-1".to_string(),
        container_name: "nginx".to_string(),
        container_id: "c1".to_string(),
        pod_ip: Some(0x0A000001),
    };

    let metadata2 = PodMetadata {
        namespace: "default".to_string(),
        pod_name: "nginx".to_string(),
        pod_uid: "pod-1".to_string(),
        container_name: "sidecar".to_string(),
        container_id: "c2".to_string(),
        pod_ip: Some(0x0A000001),
    };

    let metadata3 = PodMetadata {
        namespace: "other".to_string(),
        pod_name: "redis".to_string(),
        pod_uid: "pod-2".to_string(),
        container_name: "redis".to_string(),
        container_id: "c3".to_string(),
        pod_ip: Some(0x0A000002),
    };

    cache.insert(&mut health, 1, metadata1);
    cache.insert(&mut health, 2, metadata2);
    cache.insert(&mut health, 3, metadata3);

    assert_eq!(cache.len(), 3);

    cache.remove_pod(&mut health, "pod-1");

    assert_eq!(cache.len(), 1);
    assert!(cache.get(1).is_none());
    assert!(cache.get(2).is_none());
    assert!(cache.get(3).is_some());
    assert!(cache.get_by_ip(0x0A000001).is_none());
    assert!(cache.get_by_ip(0x0A000002).is_some());
}

#[test]
fn test_pod_cache_capacity() {
    let mut health = HealthState::new();
    let mut cache = PodCache::new(3);

    for i in 1..=3u32 {
        let metadata = PodMetadata {
            namespace: "default".to_string(),
            pod_name: format!("pod-{}", i),
            pod_uid: format!("uid-{}", i),
            container_name: "main".to_string(),
            container_id: format!("c-{}", i),
            pod_ip: Some(i),
        };
        cache.insert_by_ip(&mut health, metadata);
    }
    assert_eq!(cache.ip_entries_count(), 3);

    let overflow = PodMetadata {
        namespace: "default".to_string(),
        pod_name: "pod-4".to_string(),
        pod_uid: "uid-4".to_string(),
        container_name: "main".to_string(),
        container_id: "c-4".to_string(),
        pod_ip: Some(4),
    };
    cache.insert_by_ip(&mut health, overflow);

    assert_eq!(cache.ip_entries_count(), 3);
    assert!(cache.get_by_ip(4).is_none());
    assert_eq!(health.pod_cache_evictions(), 1);
}

#[test]
fn test_pod_cache_allows_update_at_capacity() {
    let mut health = HealthState::new();
    let mut cache = PodCache::new(2);

    for i in 1..=2u32 {
        let metadata = PodMetadata {
            namespace: "default".to_string(),
            pod_name: format!("pod-{}", i),
            pod_uid: format!("uid-{}", i),
            container_name: "main".to_string(),
            container_id: format!("c-{}", i),
            pod_ip: Some(i),
        };
        cache.insert_by_ip(&mut health, metadata);
    }

    let update = PodMetadata {
        namespace: "updated".to_string(),
        pod_name: "pod-1-updated".to_string(),
        pod_uid: "uid-1".to_string(),
        container_name: "main".to_string(),
        container_id: "c-1".to_string(),
        pod_ip: Some(1),
    };
    cache.insert_by_ip(&mut health, update);

    let retrieved = cache.get_by_ip(1).expect("Should find updated entry");
    assert_eq!(retrieved.namespace, "updated");
}

#[test]
fn every_field_comes_back() {
    let mut health = HealthState::new();
    let mut cache = PodCache::new(10);
    cache.insert(&mut health, 77, numbered(5));
    let by_group = cache.get(77).unwrap();
    let by_ip = cache.get_by_ip(5).unwrap();
    for found in [by_group, by_ip] {
        assert_eq!(found.namespace, "default");
        assert_eq!(found.pod_name, "pod-5");
        assert_eq!(found.pod_uid, "uid-5");
        assert_eq!(found.container_name, "main");
        assert_eq!(found.container_id, "c-5");
        assert_eq!(found.pod_ip, Some(5));
    }
}

#[test]
fn full_cache_is_marked_until_there_is_room() {
    let mut health = HealthState::new();
    health.set_probes_attached(true);
    health.set_k8s_watcher_connected(true);
    let mut cache = PodCache::new(1);
    cache.insert_by_ip(&mut health, numbered(1));
    cache.insert_by_ip(&mut health, numbered(2));
    assert!(health.health_message().contains("pod cache at capacity"));
    assert!(cache.get_by_ip(2).is_none());
    assert!(cache.get_by_ip(1).is_some());
    cache.remove_pod(&mut health, "uid-1");
    assert!(!health.health_message().contains("pod cache at capacity"));
    cache.insert_by_ip(&mut health, numbered(2));
    assert!(cache.get_by_ip(2).is_some());
    assert_eq!(health.pod_cache_evictions(), 1);
}

#[test]
fn entry_without_an_address_is_found_by_its_group_only() {
    let mut health = HealthState::new();
    let mut cache = PodCache::new(10);
    let mut pod = numbered(1);
    pod.pod_ip = None;
    cache.insert_by_ip(&mut health, pod.clone());
    assert!(cache.is_empty());
    cache.insert(&mut health, 5, pod);
    assert_eq!(cache.len(), 1);
    assert_eq!(cache.ip_entries_count(), 0);
    assert!(!cache.is_empty());
}

#[test]
fn groups_and_addresses_stay_within_the_limit() {
    let mut health = HealthState::new();
    let mut cache = PodCache::new(1);
    for i in 1..=3u32 {
        cache.insert(&mut health, i as u64, numbered(i));
        assert_eq!(cache.len(), 1);
        assert_eq!(cache.ip_entries_count(), 1);
    }
    assert!(cache.get(1).is_some());
    assert!(cache.get(2).is_none());
    assert!(cache.get_by_ip(3).is_none());
    assert_eq!(health.pod_cache_evictions(), 2);
}

#[test]
fn a_group_without_room_is_refused_and_recorded() {
    let mut health = HealthState::new();
    health.set_probes_attached(true);
    health.set_k8s_watcher_connected(true);
    let mut cache = PodCache::new(2);
    let mut pod = numbered(1);
    cache.insert(&mut health, 10, pod.clone());
    cache.insert(&mut health, 11, pod.clone());
    assert_eq!(health.health_message(), "OK");
    cache.insert(&mut health, 12, numbered(2));
    assert!(cache.get(12).is_none());
    assert!(cache.get_by_ip(2).is_some());
    assert_eq!(health.pod_cache_evictions(), 1);
    assert!(health.health_message().contains("pod cache at capacity"));
    pod.pod_ip = None;
    cache.insert(&mut health, 13, pod);
    assert_eq!(cache.len(), 2);
    assert_eq!(health.pod_cache_evictions(), 2);
}

#[test]
fn a_known_group_is_updated_at_capacity() {
    let mut health = HealthState::new();
    let mut cache = PodCache::new(1);
    cache.insert(&mut health, 10, numbered(1));
    let mut update = numbered(1);
    update.container_name = "second".to_string();
    cache.insert(&mut health, 10, update);
    assert_eq!(cache.get(10).unwrap().container_name, "second");
    assert_eq!(health.pod_cache_evictions(), 0);
}

#[test]
fn the_mark_leaves_when_groups_and_addresses_have_room() {
    let mut health = HealthState::new();
    health.set_probes_attached(true);
    health.set_k8s_watcher_connected(true);
    let mut cache = PodCache::new(2);
    cache.insert(&mut health, 10, numbered(1));
    cache.insert(&mut health, 11, numbered(1));
    cache.insert(&mut health, 12, numbered(2));
    cache.remove_pod(&mut health, "uid-2");
    assert_eq!(cache.len(), 2);
    assert_eq!(cache.ip_entries_count(), 1);
    assert!(health.health_message().contains("pod cache at capacity"));
    assert!(cache.remove(10).is_some());
    cache.remove_pod(&mut health, "uid-2");
    assert!(!health.health_message().contains("pod cache at capacity"));
    cache.insert(&mut health, 12, numbered(2));
    assert!(cache.get(12).is_some());
}

#[test]
fn a_cache_for_nothing_takes_nothing() {
    let mut health = HealthState::new();
    let mut cache = PodCache::new(0);
    cache.insert(&mut health, 1, numbered(1));
    assert!(cache.is_empty());
    assert_eq!(cache.ip_entries_count(), 0);
    assert_eq!(health.pod_cache_evictions(), 1);
}

#[test]
fn entries_list_groups_and_remove_gives_them_back() {
    let mut health = HealthState::new();
    let mut cache = PodCache::new(10);
    for i in 1..=3u32 {
        cache.insert(&mut health, 10 * i as u64, numbered(i));
    }
    let mut listed: Vec<(u64, String)> =
        cache.entries().into_iter().map(|(id, pod)| (id, pod.pod_name)).collect();
    listed.sort();
    assert_eq!(
        listed,
        vec![
            (10, "pod-1".to_string()),
            (20, "pod-2".to_string()),
            (30, "pod-3".to_string()),
        ]
    );
    assert_eq!(cache.remove(20).unwrap().pod_name, "pod-2");
    assert!(cache.remove(20).is_none());
    assert!(cache.get(20).is_none());
    assert_eq!(cache.len(), 2);
    assert_eq!(cache.ip_entries_count(), 3);
}
