use vidiup::{
    AddOutcome, Bucket, HotRecord, InstanceRecord, InstancesRecords, OffsetsConfig,
    PolledSingleRecord, PollingFeaturesConfig, RegionRecords, UnknownRegion, DEFAULT_WEIGHT,
};

fn all_probes() -> PollingFeaturesConfig {
    PollingFeaturesConfig { video: true, playlist: true, search: true, channel: true }
}

fn outcome(video: Option<u32>, playlist: Option<u32>, channel: Option<u32>, search: Option<u32>) -> PolledSingleRecord {
    PolledSingleRecord { last_polled: 1, video, playlist, channel, search }
}

fn well() -> PolledSingleRecord {
    outcome(Some(1), Some(1), Some(1), Some(1))
}

fn record(address: &str, region: &str, backers: &[&str]) -> InstanceRecord {
    InstanceRecord {
        address: address.to_string(),
        region: region.to_string(),
        backer: backers.iter().map(|b| b.to_string()).collect(),
    }
}

fn report(registry: &mut InstancesRecords, address: &str, region: &str, ip: &str) -> AddOutcome {
    let mut stats = registry.stat();
    let outcome = registry
        .add(&all_regions(), address.to_string(), region.to_string(), ip.to_string(), &mut stats)
        .unwrap();
    assert_eq!(stats, registry.stat());
    outcome
}

fn all_regions() -> OffsetsConfig {
    OffsetsConfig(vec![("na".to_string(), 0), ("eu".to_string(), 40), ("asia".to_string(), -5)])
}

fn offsets() -> OffsetsConfig {
    OffsetsConfig(vec![("na".to_string(), 0), ("eu".to_string(), 40)])
}

fn ledger<'a>(registry: &'a InstancesRecords, region: &str) -> &'a RegionRecords {
    &registry.0.iter().find(|(name, _)| name == region).unwrap().1
}

fn total(registry: &InstancesRecords) -> usize {
    registry.0.iter().map(|(_, l)| l.all_instances().len()).sum()
}

#[test]
fn new_registry_has_no_region() {
    let registry = InstancesRecords::new();
    assert!(registry.0.is_empty());
    assert_eq!(registry.stat(), (0, 0, 0, 0));
}

#[test]
fn first_report_creates_a_pending_instance() {
    let mut registry = InstancesRecords::new();
    assert_eq!(report(&mut registry, "a.example", "na", "10.0.0.1"), AddOutcome::Created);
    assert_eq!(registry.0.len(), 1);
    assert_eq!(registry.0[0].0, "na");
    assert_eq!(ledger(&registry, "na").pending, vec![record("a.example", "na", &["10.0.0.1"])]);
    assert_eq!(registry.stat(), (0, 0, 0, 1));
}

#[test]
fn second_report_by_another_reporter_adds_a_backer() {
    let mut registry = InstancesRecords::new();
    assert_eq!(report(&mut registry, "a.example", "na", "10.0.0.1"), AddOutcome::Created);
    assert_eq!(report(&mut registry, "a.example", "na", "10.0.0.2"), AddOutcome::Confirmed);
    assert_eq!(
        ledger(&registry, "na").pending,
        vec![record("a.example", "na", &["10.0.0.1", "10.0.0.2"])]
    );
    assert_eq!(total(&registry), 1);
    assert_eq!(registry.stat(), (0, 0, 0, 1));
}

#[test]
fn second_report_by_the_same_reporter_changes_nothing() {
    let mut registry = InstancesRecords::new();
    report(&mut registry, "a.example", "na", "10.0.0.1");
    let once = registry.clone();
    assert_eq!(report(&mut registry, "a.example", "na", "10.0.0.1"), AddOutcome::Confirmed);
    assert_eq!(registry, once);
}

#[test]
fn report_under_another_region_keeps_the_stored_region() {
    let mut registry = InstancesRecords::new();
    report(&mut registry, "a.example", "na", "10.0.0.1");
    report(&mut registry, "b.example", "eu", "10.0.0.1");
    assert_eq!(
        report(&mut registry, "a.example", "eu", "10.0.0.3"),
        AddOutcome::RegionMismatch { stored: "na".to_string() }
    );
    assert_eq!(
        ledger(&registry, "na").pending,
        vec![record("a.example", "na", &["10.0.0.1", "10.0.0.3"])]
    );
    assert_eq!(ledger(&registry, "eu").pending, vec![record("b.example", "eu", &["10.0.0.1"])]);
    assert_eq!(total(&registry), 2);
}

#[test]
fn reports_for_one_region_share_its_ledger() {
    let mut registry = InstancesRecords::new();
    report(&mut registry, "a.example", "na", "10.0.0.1");
    report(&mut registry, "b.example", "eu", "10.0.0.1");
    report(&mut registry, "c.example", "na", "10.0.0.2");
    assert_eq!(registry.0.len(), 2);
    assert_eq!(registry.0[0].0, "na");
    assert_eq!(registry.0[1].0, "eu");
    assert_eq!(ledger(&registry, "na").all_instances(), vec!["a.example", "c.example"]);
    assert_eq!(ledger(&registry, "eu").all_instances(), vec!["b.example"]);
    assert_eq!(registry.position("eu"), Some(1));
    assert_eq!(registry.position("asia"), None);
}

#[test]
fn a_known_instance_is_confirmed_in_any_bucket() {
    let mut registry = InstancesRecords::new();
    report(&mut registry, "a.example", "na", "10.0.0.1");
    assert!(registry.update_single_at("a.example", well(), &all_probes(), 1, 5));
    assert_eq!(ledger(&registry, "na").home("a.example"), Some(Bucket::Hot));
    assert_eq!(report(&mut registry, "a.example", "na", "10.0.0.9"), AddOutcome::Confirmed);
    assert_eq!(
        ledger(&registry, "na").hot,
        vec![HotRecord { instance: record("a.example", "na", &["10.0.0.1", "10.0.0.9"]), weight: DEFAULT_WEIGHT }]
    );
    assert_eq!(total(&registry), 1);
}

#[test]
fn update_single_reaches_the_region_that_holds_the_instance() {
    let mut registry = InstancesRecords::new();
    report(&mut registry, "a.example", "na", "10.0.0.1");
    report(&mut registry, "b.example", "eu", "10.0.0.1");
    assert!(registry.update_single_at("b.example", outcome(None, None, None, None), &all_probes(), 2, 99));
    assert_eq!(ledger(&registry, "eu").home("b.example"), Some(Bucket::StashedDead));
    assert_eq!(ledger(&registry, "eu").stashed_dead[0].dead_since, 99);
    assert_eq!(ledger(&registry, "na").home("a.example"), Some(Bucket::Pending));
    assert_eq!(registry.stat(), (0, 0, 1, 1));
}

#[test]
fn update_single_of_an_unknown_instance_changes_nothing() {
    let mut registry = InstancesRecords::new();
    report(&mut registry, "a.example", "na", "10.0.0.1");
    let before = registry.clone();
    assert!(!registry.update_single_at("z.example", well(), &all_probes(), 2, 99));
    assert_eq!(registry, before);
}

#[test]
fn update_single_with_the_clock_finds_the_instance() {
    let mut registry = InstancesRecords::new();
    report(&mut registry, "a.example", "na", "10.0.0.1");
    let before = chrono::Utc::now().timestamp();
    assert!(registry.update_single("a.example", outcome(None, None, None, None), &all_probes(), 2));
    let stamped = ledger(&registry, "na").stashed_dead[0].dead_since;
    assert!(before <= stamped && stamped <= chrono::Utc::now().timestamp());
    assert!(!registry.update_single("z.example", well(), &all_probes(), 2));
}

#[test]
fn one_pass_over_three_pending_instances() {
    let mut registry = InstancesRecords::new();
    report(&mut registry, "A", "na", "10.0.0.1");
    report(&mut registry, "B", "na", "10.0.0.1");
    report(&mut registry, "C", "na", "10.0.0.1");
    assert_eq!(registry.stat(), (0, 0, 0, 3));
    let enabled = all_probes();
    assert!(registry.update_single_at("A", well(), &enabled, 2, 10));
    assert!(registry.update_single_at("B", outcome(None, None, None, None), &enabled, 2, 10));
    assert!(registry.update_single_at("C", outcome(Some(3), None, None, None), &enabled, 2, 10));
    let na = ledger(&registry, "na");
    assert_eq!(na.home("A"), Some(Bucket::Hot));
    assert_eq!(na.home("B"), Some(Bucket::StashedDead));
    assert_eq!(na.home("C"), Some(Bucket::StashedRecovering));
    assert_eq!(na.hot.len(), 1);
    assert_eq!(na.hot[0].instance.address, "A");
    assert_eq!(registry.stat(), (1, 1, 1, 0));
}

#[test]
fn stat_adds_up_to_the_number_of_instances() {
    let mut registry = InstancesRecords::new();
    let enabled = all_probes();
    for (i, region) in ["na", "eu", "asia"].iter().enumerate() {
        for j in 0..(i + 2) {
            report(&mut registry, &format!("{region}{j}.example"), region, "10.0.0.1");
        }
    }
    assert_eq!(registry.stat(), (0, 0, 0, 9));
    registry.update_single_at("na0.example", well(), &enabled, 1, 3);
    registry.update_single_at("eu0.example", outcome(None, None, None, None), &enabled, 1, 3);
    registry.update_single_at("eu1.example", outcome(Some(1), None, None, None), &enabled, 1, 3);
    registry.update_single_at("asia3.example", well(), &enabled, 0, 3);
    let (up, recovering, dead, pending) = registry.stat();
    assert_eq!((up, recovering, dead, pending), (2, 1, 1, 5));
    assert_eq!((up + recovering + dead + pending) as usize, total(&registry));
    report(&mut registry, "new.example", "na", "10.0.0.1");
    let (up, recovering, dead, pending) = registry.stat();
    assert_eq!((up, recovering, dead, pending), (2, 1, 1, 6));
    assert_eq!((up + recovering + dead + pending) as usize, total(&registry));
}

#[test]
fn as_global_merges_the_regions_bucket_by_bucket() {
    let mut registry = InstancesRecords::new();
    let enabled = all_probes();
    report(&mut registry, "a.example", "na", "10.0.0.1");
    report(&mut registry, "b.example", "eu", "10.0.0.1");
    report(&mut registry, "c.example", "na", "10.0.0.1");
    report(&mut registry, "d.example", "eu", "10.0.0.1");
    registry.update_single_at("a.example", well(), &enabled, 1, 3);
    registry.update_single_at("b.example", well(), &enabled, 1, 3);
    let global = registry.as_global();
    assert_eq!(global.all_instances(), vec!["a.example", "b.example", "c.example", "d.example"]);
    assert_eq!(global.hot.len(), 2);
    assert_eq!(global.pending.len(), 2);
    assert_eq!(global.hot[1], ledger(&registry, "eu").hot[0]);
    assert_eq!(global.stat(), (2, 0, 0, 2));
    assert_eq!(InstancesRecords::new().as_global(), RegionRecords::default());
}

#[test]
fn a_new_instance_counts_as_pending() {
    let mut registry = InstancesRecords::new();
    let mut stats = (4, 3, 2, 1);
    let created = registry.add(&offsets(), "a.example".to_string(), "na".to_string(), "10.0.0.1".to_string(), &mut stats);
    assert_eq!(created, Ok(AddOutcome::Created));
    assert_eq!(stats, (4, 3, 2, 2));
    let confirmed = registry.add(&offsets(), "a.example".to_string(), "na".to_string(), "10.0.0.2".to_string(), &mut stats);
    assert_eq!(confirmed, Ok(AddOutcome::Confirmed));
    assert_eq!(stats, (4, 3, 2, 2));
    let elsewhere = registry.add(&offsets(), "a.example".to_string(), "eu".to_string(), "10.0.0.3".to_string(), &mut stats);
    assert_eq!(elsewhere, Ok(AddOutcome::RegionMismatch { stored: "na".to_string() }));
    assert_eq!(stats, (4, 3, 2, 2));
}

#[test]
fn the_pending_count_stops_at_its_largest() {
    let mut registry = InstancesRecords::new();
    let mut stats = (0, 0, 0, u32::MAX);
    registry.add(&offsets(), "a.example".to_string(), "na".to_string(), "10.0.0.1".to_string(), &mut stats);
    assert_eq!(stats, (0, 0, 0, u32::MAX));
    assert_eq!(registry.stat(), (0, 0, 0, 1));
}

#[test]
fn a_report_under_an_unknown_region_is_refused() {
    let mut registry = InstancesRecords::new();
    let mut stats = (0, 0, 0, 0);
    let refused = registry.add(
        &offsets(),
        "a.example".to_string(),
        "mars".to_string(),
        "10.0.0.1".to_string(),
        &mut stats,
    );
    assert_eq!(refused, Err(UnknownRegion));
    assert_eq!(registry, InstancesRecords::new());
    assert_eq!(stats, (0, 0, 0, 0));
}

#[test]
fn a_report_under_a_known_region_is_taken() {
    let mut registry = InstancesRecords::new();
    let mut stats = (0, 0, 0, 0);
    let taken = registry.add(
        &offsets(),
        "a.example".to_string(),
        "eu".to_string(),
        "10.0.0.1".to_string(),
        &mut stats,
    );
    assert_eq!(taken, Ok(AddOutcome::Created));
    assert_eq!(stats, (0, 0, 0, 1));
    assert_eq!(ledger(&registry, "eu").pending, vec![record("a.example", "eu", &["10.0.0.1"])]);
    let again = registry.add(
        &offsets(),
        "a.example".to_string(),
        "na".to_string(),
        "10.0.0.2".to_string(),
        &mut stats,
    );
    assert_eq!(again, Ok(AddOutcome::RegionMismatch { stored: "eu".to_string() }));
    let refused = registry.add(
        &offsets(),
        "a.example".to_string(),
        "mars".to_string(),
        "10.0.0.3".to_string(),
        &mut stats,
    );
    assert_eq!(refused, Err(UnknownRegion));
    assert_eq!(stats, (0, 0, 0, 1));
    assert_eq!(
        ledger(&registry, "eu").pending,
        vec![record("a.example", "eu", &["10.0.0.1", "10.0.0.2"])]
    );
}

#[test]
fn try_stat_gives_the_statistics_that_fit() {
    let mut registry = InstancesRecords::new();
    assert_eq!(registry.try_stat(), Some((0, 0, 0, 0)));
    report(&mut registry, "a.example", "na", "10.0.0.1");
    report(&mut registry, "b.example", "eu", "10.0.0.1");
    report(&mut registry, "c.example", "eu", "10.0.0.1");
    registry.update_single_at("b.example", well(), &all_probes(), 1, 3);
    registry.update_single_at("c.example", outcome(None, None, None, None), &all_probes(), 1, 3);
    assert_eq!(registry.try_stat(), Some((1, 0, 1, 1)));
    assert_eq!(registry.try_stat(), Some(registry.stat()));
}

#[test]
fn a_refused_report_of_a_known_instance_adds_no_backer() {
    let mut registry = InstancesRecords::new();
    report(&mut registry, "a.example", "na", "10.0.0.1");
    let before = registry.clone();
    let mut stats = registry.stat();
    let refused = registry.add(
        &offsets(),
        "a.example".to_string(),
        "asia".to_string(),
        "10.0.0.2".to_string(),
        &mut stats,
    );
    assert_eq!(refused, Err(UnknownRegion));
    assert_eq!(registry, before);
    assert_eq!(stats, (0, 0, 0, 1));
    let none = OffsetsConfig::new();
    let refused = registry.add(&none, "b.example".to_string(), "na".to_string(), "10.0.0.2".to_string(), &mut stats);
    assert_eq!(refused, Err(UnknownRegion));
    assert_eq!(registry, before);
}
