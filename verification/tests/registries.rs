use stormblock::drive::container::Container;
use stormblock::drive::container_registry::ContainerRegistry;
use stormblock::drive::slab::{DeviceInfo, Slab, DEFAULT_SLOT_SIZE};
use stormblock::drive::slab_registry::SlabRegistry;
use stormblock::drive::DeviceId;
use stormblock::ids::{Uuid, VolumeId};
use stormblock::placement::{FailureDomain, SlabRole, StorageTier};

fn make_slab(size: u64, tier: StorageTier) -> Slab {
    let dev = DeviceInfo { uuid: Uuid::new_v4(), capacity: size, block_size: 4096 };
    Slab::format(dev, DEFAULT_SLOT_SIZE, tier, 1).unwrap().slab
}

fn make_container(size: u64, tier: StorageTier) -> Container {
    Container { slab: make_slab(size, tier) }
}

fn device(path: &str) -> DeviceId {
    DeviceId {
        uuid: Uuid::new_v4(),
        serial: format!("SN-{path}"),
        model: "M".to_string(),
        path: path.to_string(),
    }
}

#[test]
fn container_registry_registry_add_remove() {
    let c1 = make_container(10 * 1024 * 1024, StorageTier::Hot);
    let c2 = make_container(10 * 1024 * 1024, StorageTier::Cold);
    let id1 = c1.container_id();
    let id2 = c2.container_id();

    let mut reg = ContainerRegistry::new();
    assert!(reg.is_empty());

    reg.add(c1);
    reg.add(c2);
    assert_eq!(reg.len(), 2);

    assert!(reg.get(&id1).is_some());
    assert!(reg.get(&id2).is_some());

    let removed = reg.remove(&id1);
    assert!(removed.is_some());
    assert_eq!(reg.len(), 1);
    assert!(reg.get(&id1).is_none());
}

#[test]
fn container_registry_registry_tier_selection() {
    let c_hot = make_container(10 * 1024 * 1024, StorageTier::Hot);
    let c_cold = make_container(10 * 1024 * 1024, StorageTier::Cold);
    let hot_id = c_hot.container_id();
    let cold_id = c_cold.container_id();

    let mut reg = ContainerRegistry::new();
    reg.add(c_hot);
    reg.add(c_cold);

    assert_eq!(reg.by_tier(StorageTier::Hot).len(), 1);
    assert_eq!(reg.by_tier(StorageTier::Cold).len(), 1);
    assert_eq!(reg.by_tier(StorageTier::Warm).len(), 0);

    let best_hot = reg.best_container_for_tier(StorageTier::Hot).unwrap();
    assert_eq!(best_hot, hot_id);

    let best_cold = reg.best_container_for_tier(StorageTier::Cold).unwrap();
    assert_eq!(best_cold, cold_id);

    // Prefer hot, fall back
    let best = reg.best_container(&[StorageTier::Hot, StorageTier::Cold]).unwrap();
    assert_eq!(best, hot_id);
    let best = reg.best_container(&[StorageTier::Warm, StorageTier::Cold]).unwrap();
    assert_eq!(best, cold_id);
    // A tier that nobody has falls back to any container with room.
    assert!(reg.best_container(&[StorageTier::Warm]).is_some());
    assert!(ContainerRegistry::new().best_container(&[StorageTier::Hot]).is_none());
}

#[test]
fn container_registry_registry_total_slots() {
    let c1 = make_container(10 * 1024 * 1024, StorageTier::Hot);
    let c2 = make_container(10 * 1024 * 1024, StorageTier::Hot);
    let total1 = c1.total_slots();
    let total2 = c2.total_slots();

    let mut reg = ContainerRegistry::default();
    reg.add(c1);
    reg.add(c2);

    assert_eq!(reg.total_slots(), total1 + total2);
    assert_eq!(reg.total_free_slots(), total1 + total2);
    assert_eq!(reg.iter().len(), 2);
}

#[test]
fn slab_registry_registry_add_remove() {
    let c1 = make_slab(10 * 1024 * 1024, StorageTier::Hot);
    let c2 = make_slab(10 * 1024 * 1024, StorageTier::Cold);
    let id1 = c1.slab_id();
    let id2 = c2.slab_id();

    let mut reg = SlabRegistry::new();
    assert!(reg.is_empty());

    reg.add(c1, SlabRole::Data, device("/dev/a"));
    reg.add(c2, SlabRole::Data, device("/dev/b"));
    assert_eq!(reg.len(), 2);

    assert!(reg.get(&id1).is_some());
    assert!(reg.get(&id2).is_some());

    let removed = reg.remove(&id1);
    assert!(removed.is_some());
    assert_eq!(reg.len(), 1);
    assert!(reg.get(&id1).is_none());
}

#[test]
fn slab_registry_registry_tier_selection() {
    let c_hot = make_slab(10 * 1024 * 1024, StorageTier::Hot);
    let c_cold = make_slab(10 * 1024 * 1024, StorageTier::Cold);
    let hot_id = c_hot.slab_id();
    let cold_id = c_cold.slab_id();

    let mut reg = SlabRegistry::new();
    reg.add(c_hot, SlabRole::System, device("/dev/a"));
    reg.add(c_cold, SlabRole::System, device("/dev/b"));

    assert_eq!(reg.by_tier(StorageTier::Hot).len(), 1);
    assert_eq!(reg.by_tier(StorageTier::Cold).len(), 1);
    assert_eq!(reg.by_tier(StorageTier::Warm).len(), 0);

    let best_hot = reg.best_slab_for_tier(StorageTier::Hot).unwrap();
    assert_eq!(best_hot, hot_id);

    let best_cold = reg.best_slab_for_tier(StorageTier::Cold).unwrap();
    assert_eq!(best_cold, cold_id);

    // Prefer hot, fall back
    let best = reg.best_slab(&[StorageTier::Hot, StorageTier::Cold]).unwrap();
    assert_eq!(best, hot_id);
}

#[test]
fn slab_registry_registry_total_slots() {
    let c1 = make_slab(10 * 1024 * 1024, StorageTier::Hot);
    let c2 = make_slab(10 * 1024 * 1024, StorageTier::Hot);
    let total1 = c1.total_slots();
    let total2 = c2.total_slots();

    let mut reg = SlabRegistry::new();
    reg.add(c1, SlabRole::System, device("/dev/a"));
    reg.add(c2, SlabRole::System, device("/dev/b"));

    assert_eq!(reg.total_slots(), total1 + total2);
    assert_eq!(reg.total_free_slots(), total1 + total2);
}

#[test]
fn the_slab_with_the_most_room_is_the_best() {
    let small = make_slab(5 * 1024 * 1024, StorageTier::Hot);
    let large = make_slab(20 * 1024 * 1024, StorageTier::Hot);
    let (small_id, large_id) = (small.slab_id(), large.slab_id());
    let mut reg = SlabRegistry::new();
    reg.add(large, SlabRole::System, device("/dev/a"));
    reg.add(small, SlabRole::System, device("/dev/b"));
    assert_eq!(reg.best_slab_for_tier(StorageTier::Hot), Some(large_id));

    // A slab under suspicion gets nothing new.
    assert!(reg.set_quarantined(large_id, true));
    assert!(reg.is_quarantined(&large_id));
    assert_eq!(reg.quarantined(), vec![large_id]);
    assert_eq!(reg.best_slab_for_tier(StorageTier::Hot), Some(small_id));
    assert!(reg.set_quarantined(large_id, false));

    // Nor does one that is full.
    let n = reg.get(&large_id).unwrap().free_slots();
    for i in 0..n {
        reg.get_mut(&large_id).unwrap().allocate(VolumeId::new(), i).unwrap();
    }
    assert_eq!(reg.best_slab_for_tier(StorageTier::Hot), Some(small_id));
}

#[test]
fn roles_are_kept_apart() {
    let system = make_slab(5 * 1024 * 1024, StorageTier::Hot);
    let data = make_slab(20 * 1024 * 1024, StorageTier::Hot);
    let (system_id, data_id) = (system.slab_id(), data.slab_id());
    let mut reg = SlabRegistry::new();
    reg.add(system, SlabRole::System, device("/dev/a"));
    reg.add(data, SlabRole::Data, device("/dev/b"));
    assert_eq!(reg.role_of(&data_id), SlabRole::Data);
    assert_eq!(reg.best_slab_for_tier_in_role(StorageTier::Hot, SlabRole::System), Some(system_id));
    assert_eq!(reg.best_slab_for_tier_in_role(StorageTier::Hot, SlabRole::Data), Some(data_id));
    assert_eq!(SlabRole::default(), SlabRole::System);
}

#[test]
fn copies_are_kept_apart_by_rung() {
    let mut reg = SlabRegistry::new();
    let mut ids = Vec::new();
    for (i, rack) in ["r1", "r1", "r2"].iter().enumerate() {
        let s = make_slab((10 + i as u64) * 1024 * 1024, StorageTier::Hot);
        ids.push(s.slab_id());
        reg.add_in_domain(
            s,
            SlabRole::System,
            device(&format!("/dev/{i}")),
            FailureDomain::new().with("rack", rack),
        );
    }
    assert_eq!(reg.distinct_domains_with_space("rack"), 2);
    assert_eq!(reg.distinct_domains_with_space_in_role("rack", SlabRole::Data), 0);
    let taken = vec![reg.domain_of(&ids[2])];
    assert!(reg.collides(&ids[2], &taken, "rack"));
    assert!(!reg.collides(&ids[0], &taken, "rack"));
    assert_eq!(
        reg.best_slab_for_tier_apart_from(StorageTier::Hot, &taken, "rack", SlabRole::System),
        Some(ids[1])
    );
    let both = vec![reg.domain_of(&ids[0]), reg.domain_of(&ids[2])];
    assert_eq!(
        reg.best_slab_for_tier_apart_from(StorageTier::Hot, &both, "rack", SlabRole::System),
        None
    );
}

#[test]
fn room_of_any_role_counts_unless_one_is_asked_for() {
    let mut reg = SlabRegistry::default();
    assert_eq!(reg.distinct_domains_with_space("rack"), 0);
    let data = make_slab(10 * 1024 * 1024, StorageTier::Cold);
    let data_id = data.slab_id();
    let r1 = || FailureDomain::new().with("rack", "r1");
    reg.add_in_domain(data, SlabRole::Data, device("/dev/a"), r1());
    assert_eq!(reg.distinct_domains_with_space("rack"), 1);
    assert_eq!(reg.distinct_domains_with_space_in_role("rack", SlabRole::Data), 1);
    assert_eq!(reg.distinct_domains_with_space_in_role("rack", SlabRole::System), 0);
    assert_eq!(reg.best_slab_for_tier(StorageTier::Cold), None, "it is no system slab");
    assert_eq!(reg.best_slab(&[StorageTier::Hot, StorageTier::Cold]), None);
    assert_eq!(reg.best_slab(&[]), None, "there is no system slab");

    // One domain counts once, whatever the roles in it.
    let system = make_slab(10 * 1024 * 1024, StorageTier::Hot);
    let system_id = system.slab_id();
    reg.add_in_domain(system, SlabRole::System, device("/dev/b"), r1());
    assert_eq!(reg.distinct_domains_with_space("rack"), 1);
    assert_eq!(reg.best_slab(&[StorageTier::Cold, StorageTier::Hot]), Some(system_id));
    assert_eq!(reg.best_slab(&[]), Some(system_id), "whatever its tier");
    assert_eq!(reg.best_slab(&[StorageTier::Hot]), Some(system_id));

    // What is quarantined has nothing to give.
    reg.set_quarantined(data_id, true);
    reg.set_quarantined(system_id, true);
    assert_eq!(reg.distinct_domains_with_space("rack"), 0);
    assert_eq!(reg.best_slab(&[StorageTier::Hot]), None);
}

#[test]
fn the_tier_lists_follow_what_is_registered() {
    let mut reg = SlabRegistry::new();
    let a = make_slab(10 * 1024 * 1024, StorageTier::Hot);
    let b = make_slab(10 * 1024 * 1024, StorageTier::Hot);
    let (a_id, b_id) = (a.slab_id(), b.slab_id());
    reg.add(a, SlabRole::System, device("/dev/a"));
    reg.add(b, SlabRole::System, device("/dev/b"));
    assert_eq!(reg.by_tier(StorageTier::Hot), &[a_id, b_id]);
    assert!(reg.remove(&a_id).is_some());
    assert_eq!(reg.by_tier(StorageTier::Hot), &[b_id]);
    assert!(reg.remove(&a_id).is_none());
    assert_eq!(reg.by_tier(StorageTier::Hot), &[b_id]);
    assert!(reg.by_tier(StorageTier::Cold).is_empty());
}

#[test]
fn a_reservation_holds_until_it_is_committed() {
    let s = make_slab(10 * 1024 * 1024, StorageTier::Hot);
    let id = s.slab_id();
    let mut reg = SlabRegistry::new();
    reg.add(s, SlabRole::Data, device("/dev/a"));
    reg.reserve(id, 3);
    reg.reserve(id, 3);
    assert!(reg.is_reserved(id, 3) && !reg.is_reserved(id, 4));
    assert_eq!(reg.in_flight_count(), 1);
    reg.commit(id, 3);
    assert!(!reg.is_reserved(id, 3));
    assert_eq!(reg.in_flight_count(), 0);
}

#[test]
fn labels_reach_the_slabs_of_their_device() {
    let s = make_slab(10 * 1024 * 1024, StorageTier::Hot);
    let id = s.slab_id();
    let mut reg = SlabRegistry::new();
    reg.set_node_labels(FailureDomain::new().with("node", "n1"));
    assert!(!reg.node_labels().is_empty());
    reg.label_device("/dev/a", FailureDomain::new().with("rack", "r9"));
    assert!(reg.device_labels("/dev/a").is_some() && reg.device_labels("/dev/b").is_none());
    reg.add(s, SlabRole::Data, device("/dev/a"));
    assert_eq!(reg.slabs_on_device("/dev/a"), vec![id]);
    assert!(reg.slabs_on_device("/dev/z").is_empty());
    let d = reg.domain_of(&id);
    assert!(d.same_at(&FailureDomain::new().with("rack", "r9"), "rack"));
    assert!(!d.same_at(&FailureDomain::new().with("rack", "r1"), "rack"));
}
