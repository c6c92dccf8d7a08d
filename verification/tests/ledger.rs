use vidiup::{
    Bucket, DeadRecord, Health, HotRecord, InstanceRecord, PolledSingleRecord, PollingFeaturesConfig,
    RegionRecords, DEFAULT_WEIGHT,
};

fn instance(address: &str) -> InstanceRecord {
    InstanceRecord {
        address: address.to_string(),
        region: "na".to_string(),
        backer: vec!["10.0.0.1".to_string()],
    }
}

fn hot(address: &str, weight: u64) -> HotRecord {
    HotRecord { instance: instance(address), weight }
}

fn dead(address: &str, since: i64) -> DeadRecord {
    DeadRecord { instance: instance(address), dead_since: since }
}

/// One instance in every bucket, named after its bucket.
fn full_ledger() -> RegionRecords {
    let mut ledger = RegionRecords::default();
    ledger.hot.push(hot("hot", 11));
    ledger.recovered.push(hot("recovered", 12));
    ledger.recovering.push(hot("recovering", 13));
    ledger.dead.push((dead("dead", 5), 14));
    ledger.stashed_recovering.push(instance("stashed_recovering"));
    ledger.stashed_dead.push(dead("stashed_dead", 6));
    ledger.stashed.push(instance("stashed"));
    ledger.pending.push(instance("pending"));
    ledger
}

fn all_probes() -> PollingFeaturesConfig {
    PollingFeaturesConfig { video: true, playlist: true, search: true, channel: true }
}

fn outcome(video: Option<u32>, playlist: Option<u32>, channel: Option<u32>, search: Option<u32>) -> PolledSingleRecord {
    PolledSingleRecord { last_polled: 1, video, playlist, channel, search }
}

fn no_duplicates(ledger: &RegionRecords) -> bool {
    let all = ledger.all_instances();
    for i in 0..all.len() {
        for j in 0..i {
            if all[i] == all[j] {
                return false;
            }
        }
    }
    true
}

#[test]
fn default_ledger_is_empty() {
    let ledger = RegionRecords::default();
    assert!(ledger.all_instances().is_empty());
    assert_eq!(ledger.stat(), (0, 0, 0, 0));
    assert!(!ledger.contains("hot"));
}

#[test]
fn kill_moves_served_instances_to_dead_with_weight() {
    for (address, weight) in [("hot", 11u64), ("recovered", 12), ("recovering", 13)] {
        let mut ledger = full_ledger();
        assert!(ledger.kill_at(address, 777));
        assert_eq!(ledger.home(address), Some(Bucket::Dead));
        assert_eq!(ledger.dead.len(), 2);
        assert_eq!(ledger.dead[1], (dead(address, 777), weight));
        assert_eq!(ledger.dead[0], (dead("dead", 5), 14));
        assert_eq!(ledger.all_instances().len(), 8);
        assert!(no_duplicates(&ledger));
    }
}

#[test]
fn kill_moves_unserved_instances_to_stashed_dead() {
    for address in ["stashed_recovering", "stashed", "pending"] {
        let mut ledger = full_ledger();
        assert!(ledger.kill_at(address, 42));
        assert_eq!(ledger.home(address), Some(Bucket::StashedDead));
        assert_eq!(ledger.stashed_dead.len(), 2);
        assert_eq!(ledger.stashed_dead[1], dead(address, 42));
        assert_eq!(ledger.all_instances().len(), 8);
    }
}

#[test]
fn kill_leaves_dead_and_unknown_instances_alone() {
    for (address, held) in [("dead", true), ("stashed_dead", true), ("nowhere", false)] {
        let mut ledger = full_ledger();
        assert_eq!(ledger.kill_at(address, 42), held);
        assert_eq!(ledger, full_ledger());
    }
}

#[test]
fn kill_stamps_the_current_time() {
    let mut ledger = full_ledger();
    let before = chrono::Utc::now().timestamp();
    assert!(ledger.kill("hot"));
    let after = chrono::Utc::now().timestamp();
    let stamped = ledger.dead[1].0.dead_since;
    assert!(before <= stamped && stamped <= after);
    assert_eq!(ledger.dead[1].1, 11);
}

#[test]
fn rest_moves_to_recovering_with_weight() {
    for (address, weight) in [("hot", 11u64), ("recovered", 12), ("dead", 14)] {
        let mut ledger = full_ledger();
        assert!(ledger.rest(address));
        assert_eq!(ledger.home(address), Some(Bucket::Recovering));
        assert_eq!(ledger.recovering.len(), 2);
        assert_eq!(ledger.recovering[1], hot(address, weight));
        assert_eq!(ledger.all_instances().len(), 8);
        assert!(no_duplicates(&ledger));
    }
}

#[test]
fn rest_moves_unserved_instances_to_stashed_recovering() {
    for address in ["stashed", "stashed_dead", "pending"] {
        let mut ledger = full_ledger();
        assert!(ledger.rest(address));
        assert_eq!(ledger.home(address), Some(Bucket::StashedRecovering));
        assert_eq!(ledger.stashed_recovering.len(), 2);
        assert_eq!(ledger.stashed_recovering[1], instance(address));
    }
}

#[test]
fn rest_leaves_resting_and_unknown_instances_alone() {
    for (address, held) in [("recovering", true), ("stashed_recovering", true), ("nowhere", false)] {
        let mut ledger = full_ledger();
        assert_eq!(ledger.rest(address), held);
        assert_eq!(ledger, full_ledger());
    }
}

#[test]
fn revive_moves_to_recovered_with_weight() {
    for (address, weight) in [("dead", 14u64), ("recovering", 13)] {
        let mut ledger = full_ledger();
        assert!(ledger.revive(address));
        assert_eq!(ledger.home(address), Some(Bucket::Recovered));
        assert_eq!(ledger.recovered.len(), 2);
        assert_eq!(ledger.recovered[1], hot(address, weight));
        assert!(no_duplicates(&ledger));
    }
}

#[test]
fn revive_moves_unserved_instances_to_stashed() {
    for address in ["stashed_dead", "stashed_recovering", "pending"] {
        let mut ledger = full_ledger();
        assert!(ledger.revive(address));
        assert_eq!(ledger.home(address), Some(Bucket::Stashed));
        assert_eq!(ledger.stashed.len(), 2);
        assert_eq!(ledger.stashed[1], instance(address));
    }
}

#[test]
fn revive_leaves_instances_that_are_up_alone() {
    for (address, held) in [("hot", true), ("recovered", true), ("stashed", true), ("nowhere", false)] {
        let mut ledger = full_ledger();
        assert_eq!(ledger.revive(address), held);
        assert_eq!(ledger, full_ledger());
    }
}

#[test]
fn transition_takes_the_first_of_two_equal_addresses() {
    let mut ledger = RegionRecords::default();
    ledger.pending.push(instance("a"));
    ledger.pending.push(instance("b"));
    ledger.pending.push(InstanceRecord {
        address: "a".to_string(),
        region: "eu".to_string(),
        backer: vec![],
    });
    assert!(ledger.revive("a"));
    assert_eq!(ledger.stashed, vec![instance("a")]);
    assert_eq!(ledger.pending.len(), 2);
    assert_eq!(ledger.pending[0], instance("b"));
    assert_eq!(ledger.pending[1].region, "eu");
}

#[test]
fn contains_and_home_find_every_bucket() {
    let ledger = full_ledger();
    let expected = [
        ("hot", Bucket::Hot),
        ("recovered", Bucket::Recovered),
        ("recovering", Bucket::Recovering),
        ("dead", Bucket::Dead),
        ("stashed_recovering", Bucket::StashedRecovering),
        ("stashed_dead", Bucket::StashedDead),
        ("stashed", Bucket::Stashed),
        ("pending", Bucket::Pending),
    ];
    for (address, bucket) in expected {
        assert!(ledger.contains(address));
        assert_eq!(ledger.home(address), Some(bucket));
    }
    assert!(!ledger.contains("nowhere"));
    assert_eq!(ledger.home("nowhere"), None);
    assert!(!ledger.contains(""));
}

#[test]
fn all_instances_lists_buckets_in_scan_order() {
    let ledger = full_ledger();
    assert_eq!(
        ledger.all_instances(),
        vec![
            "hot",
            "recovered",
            "recovering",
            "dead",
            "stashed_dead",
            "stashed_recovering",
            "stashed",
            "pending"
        ]
    );
}

#[test]
fn add_backer_appends_a_new_reporter_once() {
    for address in [
        "hot",
        "recovered",
        "recovering",
        "dead",
        "stashed_recovering",
        "stashed_dead",
        "stashed",
        "pending",
    ] {
        let mut ledger = full_ledger();
        assert!(ledger.add_backer(address, "10.0.0.2"));
        assert!(ledger.add_backer(address, "10.0.0.2"));
        assert!(ledger.add_backer(address, "10.0.0.1"));
        assert_eq!(ledger.home(address), full_ledger().home(address));
        let mut probe = ledger.clone();
        probe.revive(address);
        probe.rest(address);
        let found = probe
            .recovering
            .iter()
            .map(|r| &r.instance)
            .chain(probe.stashed_recovering.iter())
            .find(|i| i.address == address)
            .unwrap();
        assert_eq!(found.backer, vec!["10.0.0.1".to_string(), "10.0.0.2".to_string()]);
    }
}

#[test]
fn add_backer_ignores_an_unknown_instance() {
    let mut ledger = full_ledger();
    assert!(!ledger.add_backer("nowhere", "10.0.0.2"));
    assert_eq!(ledger, full_ledger());
}

#[test]
fn stat_counts_every_instance_once() {
    let mut ledger = full_ledger();
    assert_eq!(ledger.stat(), (3, 2, 2, 1));
    ledger.pending.push(instance("other"));
    ledger.hot.push(hot("more", 1));
    let (up, recovering, gone, pending) = ledger.stat();
    assert_eq!((up, recovering, gone, pending), (4, 2, 2, 2));
    assert_eq!(up + recovering + gone + pending, ledger.all_instances().len());
}

#[test]
fn replenish_takes_recovered_from_the_end_then_stashed() {
    let mut ledger = RegionRecords::default();
    ledger.recovered.push(hot("r1", 21));
    ledger.recovered.push(hot("r2", 22));
    ledger.stashed.push(instance("s1"));
    ledger.stashed.push(instance("s2"));
    ledger.replenish(3);
    assert_eq!(ledger.hot, vec![hot("r2", 22), hot("r1", 21), hot("s2", DEFAULT_WEIGHT)]);
    assert!(ledger.recovered.is_empty());
    assert_eq!(ledger.stashed, vec![instance("s1")]);
}

#[test]
fn replenish_stops_when_donors_run_out() {
    let mut ledger = RegionRecords::default();
    ledger.stashed.push(instance("s1"));
    ledger.replenish(5);
    assert_eq!(ledger.hot, vec![hot("s1", DEFAULT_WEIGHT)]);
    let once = ledger.clone();
    ledger.replenish(5);
    ledger.replenish(5);
    assert_eq!(ledger, once);
}

#[test]
fn replenish_leaves_a_full_pool_alone() {
    let mut ledger = full_ledger();
    ledger.replenish(1);
    assert_eq!(ledger, full_ledger());
    ledger.replenish(0);
    assert_eq!(ledger, full_ledger());
}

#[test]
fn default_weight_stands_for_one() {
    assert_eq!(DEFAULT_WEIGHT, 1_000_000);
}

#[test]
fn update_weight_multiplies_in_millionths() {
    let mut ledger = full_ledger();
    ledger.hot[0].weight = 2_000_000;
    assert!(ledger.update_weight("hot", 1_500_000));
    assert_eq!(ledger.hot[0].weight, 3_000_000);
    assert!(ledger.update_weight("hot", 333_333));
    assert_eq!(ledger.hot[0].weight, 999_999);
    assert!(ledger.update_weight("hot", 0));
    assert_eq!(ledger.hot[0].weight, 0);
}

#[test]
fn update_weight_stops_at_the_largest_weight() {
    let mut record = hot("a", u64::MAX);
    record.update_weight(2_000_000);
    assert_eq!(record.weight, u64::MAX);
    let mut record = hot("a", u64::MAX);
    record.update_weight(1_000_000);
    assert_eq!(record.weight, u64::MAX);
    let mut record = hot("a", u64::MAX);
    record.update_weight(500_000);
    assert_eq!(record.weight, u64::MAX / 2);
}

#[test]
fn update_weight_reaches_hot_instances_only() {
    let mut ledger = full_ledger();
    assert!(!ledger.update_weight("recovered", 2_000_000));
    assert!(!ledger.update_weight("nowhere", 2_000_000));
    assert_eq!(ledger, full_ledger());
}

#[test]
fn update_single_follows_the_health_of_the_outcome() {
    let enabled = all_probes();
    let mut ledger = full_ledger();
    assert!(ledger.update_single_at("pending", outcome(Some(1), Some(2), Some(3), Some(4)), &enabled, 1, 9));
    assert_eq!(ledger.home("pending"), Some(Bucket::Stashed));
    let mut ledger = full_ledger();
    assert!(ledger.update_single_at("pending", outcome(None, None, None, None), &enabled, 1, 9));
    assert_eq!(ledger.home("pending"), Some(Bucket::StashedDead));
    assert_eq!(ledger.stashed_dead[1].dead_since, 9);
    let mut ledger = full_ledger();
    assert!(ledger.update_single_at("pending", outcome(Some(1), None, None, None), &enabled, 1, 9));
    assert_eq!(ledger.home("pending"), Some(Bucket::StashedRecovering));
}

#[test]
fn update_single_fills_the_hot_pool_afterwards() {
    let enabled = all_probes();
    let mut ledger = full_ledger();
    assert!(ledger.update_single_at("hot", outcome(None, None, None, None), &enabled, 3, 9));
    assert_eq!(ledger.home("hot"), Some(Bucket::Dead));
    assert_eq!(ledger.hot, vec![hot("recovered", 12), hot("stashed", DEFAULT_WEIGHT)]);
    assert!(no_duplicates(&ledger));
    assert_eq!(ledger.all_instances().len(), 8);
}

#[test]
fn update_single_ignores_an_unknown_instance() {
    let enabled = all_probes();
    let mut ledger = full_ledger();
    ledger.hot.clear();
    let before = ledger.clone();
    assert!(!ledger.update_single_at("nowhere", outcome(None, None, None, None), &enabled, 3, 9));
    assert_eq!(ledger, before);
}

#[test]
fn update_single_with_the_clock_kills_now() {
    let enabled = all_probes();
    let mut ledger = full_ledger();
    let before = chrono::Utc::now().timestamp();
    assert!(ledger.update_single("recovering", outcome(None, None, None, None), &enabled, 0));
    let after = chrono::Utc::now().timestamp();
    assert_eq!(ledger.home("recovering"), Some(Bucket::Dead));
    let stamped = ledger.dead[1].0.dead_since;
    assert!(before <= stamped && stamped <= after);
}

#[test]
fn three_pending_instances_after_one_pass() {
    let enabled = all_probes();
    let mut ledger = RegionRecords::default();
    ledger.pending.push(instance("A"));
    ledger.pending.push(instance("B"));
    ledger.pending.push(instance("C"));
    assert!(ledger.update_single_at("A", outcome(Some(10), Some(10), Some(10), Some(10)), &enabled, 2, 50));
    assert!(ledger.update_single_at("B", outcome(None, None, None, None), &enabled, 2, 50));
    assert!(ledger.update_single_at("C", outcome(Some(10), None, Some(10), None), &enabled, 2, 50));
    assert_eq!(ledger.hot, vec![hot("A", DEFAULT_WEIGHT)]);
    assert_eq!(ledger.stashed_dead, vec![dead("B", 50)]);
    assert_eq!(ledger.stashed_recovering, vec![instance("C")]);
    assert!(ledger.pending.is_empty());
    assert!(ledger.stashed.is_empty());
    assert_eq!(ledger.stat(), (1, 1, 1, 0));
}

#[test]
fn a_run_of_transitions_keeps_addresses_exclusive() {
    let enabled = all_probes();
    let mut ledger = full_ledger();
    let addresses = ledger.all_instances().iter().map(|a| a.to_string()).collect::<Vec<_>>();
    let outcomes = [
        outcome(Some(1), Some(1), Some(1), Some(1)),
        outcome(None, None, None, None),
        outcome(Some(1), None, None, Some(1)),
    ];
    let mut step = 0usize;
    for round in 0..6 {
        for address in addresses.iter() {
            let record = outcomes[(step + round) % 3];
            assert_eq!(record.classify(&enabled), [Health::Well, Health::Dead, Health::Partial][(step + round) % 3]);
            assert!(ledger.update_single_at(address, record, &enabled, 2, step as i64));
            assert!(no_duplicates(&ledger));
            let mut sorted = ledger.all_instances();
            sorted.sort();
            let mut expected = addresses.iter().map(|a| a.as_str()).collect::<Vec<_>>();
            expected.sort();
            assert_eq!(sorted, expected);
            step += 1;
        }
    }
}

#[test]
fn clone_copies_every_bucket() {
    let ledger = full_ledger();
    let copy = ledger.clone();
    assert_eq!(copy, ledger);
    let record = instance("x");
    assert_eq!(record.clone(), record);
}

#[test]
fn try_stat_gives_the_numbers_of_stat() {
    let ledger = full_ledger();
    assert_eq!(ledger.try_stat(), Some((3, 2, 2, 1)));
    assert_eq!(RegionRecords::default().try_stat(), Some((0, 0, 0, 0)));
}

#[test]
fn a_transition_says_whether_the_ledger_holds_the_instance() {
    let held = [
        "hot",
        "recovered",
        "recovering",
        "dead",
        "stashed_recovering",
        "stashed_dead",
        "stashed",
        "pending",
    ];
    for address in held {
        assert!(full_ledger().kill_at(address, 1));
        assert!(full_ledger().kill(address));
        assert!(full_ledger().rest(address));
        assert!(full_ledger().revive(address));
    }
    for address in ["nowhere", "", "ho", "hot "] {
        assert!(!full_ledger().kill_at(address, 1));
        assert!(!full_ledger().kill(address));
        assert!(!full_ledger().rest(address));
        assert!(!full_ledger().revive(address));
    }
    let mut empty = RegionRecords::default();
    assert!(!empty.kill_at("hot", 1));
    assert!(!empty.rest("hot"));
    assert!(!empty.revive("hot"));
}

#[test]
fn a_second_kill_keeps_the_first_time_of_death() {
    let mut ledger = full_ledger();
    assert!(ledger.kill_at("hot", 10));
    assert!(ledger.kill_at("hot", 20));
    assert_eq!(ledger.dead[1], (dead("hot", 10), 11));
    assert!(ledger.kill_at("pending", 30));
    assert!(ledger.kill_at("pending", 40));
    assert_eq!(ledger.stashed_dead[1], dead("pending", 30));
}
