use vidiup::{
    Bucket, InstancesRecords, OffsetsConfig, OutboundConfig, PollProbabilitiesConfig, PollQueue,
    PolledSingleRecord, PollingConfig, PollingFeaturesConfig, PollingRecord, WorkerAction,
};

fn queue(addresses: &[&str], running: u32) -> PollQueue {
    PollQueue { addresses: addresses.iter().map(|a| a.to_string()).collect(), running }
}

#[test]
fn new_queue_is_idle() {
    assert_eq!(PollQueue::new(), queue(&[], 0));
}

#[test]
fn enqueue_appends_in_order() {
    let mut q = queue(&["a"], 2);
    q.enqueue(vec!["b".to_string(), "c".to_string()]);
    assert_eq!(q, queue(&["a", "b", "c"], 2));
    q.enqueue(vec![]);
    assert_eq!(q, queue(&["a", "b", "c"], 2));
}

#[test]
fn start_poll_with_an_empty_queue_starts_nothing() {
    let mut q = queue(&[], 0);
    assert_eq!(PollingRecord::start_poll(&mut q, 4), 0);
    assert_eq!(q, queue(&[], 0));
    let mut q = queue(&[], 3);
    assert_eq!(PollingRecord::start_poll(&mut q, 4), 0);
    assert_eq!(q, queue(&[], 3));
}

#[test]
fn start_poll_fills_the_pool_up_to_the_ceiling() {
    let mut q = queue(&["a"], 0);
    assert_eq!(PollingRecord::start_poll(&mut q, 4), 4);
    assert_eq!(q, queue(&["a"], 4));
    let mut q = queue(&["a", "b"], 3);
    assert_eq!(PollingRecord::start_poll(&mut q, 4), 1);
    assert_eq!(q, queue(&["a", "b"], 4));
    let mut q = queue(&["a"], 4);
    assert_eq!(PollingRecord::start_poll(&mut q, 4), 0);
    assert_eq!(q, queue(&["a"], 4));
}

#[test]
fn start_poll_never_counts_running_workers_out() {
    let mut q = queue(&["a"], 6);
    assert_eq!(PollingRecord::start_poll(&mut q, 4), 0);
    assert_eq!(q, queue(&["a"], 6));
    let mut q = queue(&["a"], 1);
    assert_eq!(PollingRecord::start_poll(&mut q, 0), 0);
    assert_eq!(q, queue(&["a"], 1));
}

#[test]
fn workers_take_addresses_from_the_end() {
    let mut q = queue(&["a", "b", "c"], 2);
    assert_eq!(q.worker_step(), WorkerAction::Probe("c".to_string()));
    assert_eq!(q, queue(&["a", "b"], 2));
    assert_eq!(q.worker_step(), WorkerAction::Probe("b".to_string()));
    assert_eq!(q.worker_step(), WorkerAction::Probe("a".to_string()));
    assert_eq!(q, queue(&[], 2));
}

#[test]
fn the_last_worker_completes_the_batch() {
    let mut q = queue(&[], 3);
    assert_eq!(q.worker_step(), WorkerAction::Exit);
    assert_eq!(q.running, 2);
    assert_eq!(q.worker_step(), WorkerAction::Exit);
    assert_eq!(q.running, 1);
    assert_eq!(q.worker_step(), WorkerAction::CompleteBatch);
    assert_eq!(q, queue(&[], 0));
}

#[test]
fn a_whole_pass_drains_the_queue() {
    let mut q = PollQueue::new();
    q.enqueue(vec!["a".to_string(), "b".to_string(), "c".to_string()]);
    let started = PollingRecord::start_poll(&mut q, 2);
    assert_eq!(started, 2);
    let mut probed = Vec::new();
    let mut done = 0;
    let mut completed = 0;
    while done < started {
        match q.worker_step() {
            WorkerAction::Probe(address) => probed.push(address),
            WorkerAction::Exit => done += 1,
            WorkerAction::CompleteBatch => {
                done += 1;
                completed += 1;
            },
        }
    }
    assert_eq!(probed, vec!["c", "b", "a"]);
    assert_eq!(completed, 1);
    assert_eq!(q, PollQueue::new());
}

#[test]
fn settle_records_the_outcome_in_both_ledgers() {
    let mut instances = InstancesRecords::new();
    instances.add(&regions(), "a.example".to_string(), "na".to_string(), "10.0.0.1".to_string(), &mut (0, 0, 0, 0)).unwrap();
    let mut polled = PollingRecord::new();
    let enabled = PollingFeaturesConfig { video: true, playlist: true, search: false, channel: false };
    let record = PolledSingleRecord { last_polled: 77, video: Some(120), playlist: Some(80), channel: None, search: None };
    assert!(polled.settle_at(&mut instances, "a.example".to_string(), record, &enabled, 1, 77));
    assert_eq!(instances.0[0].1.home("a.example"), Some(Bucket::Hot));
    assert_eq!(polled.get("a.example"), Some(record));
    let failed = PolledSingleRecord { last_polled: 99, video: None, playlist: None, channel: None, search: None };
    assert!(polled.settle_at(&mut instances, "a.example".to_string(), failed, &enabled, 1, 99));
    assert_eq!(instances.0[0].1.home("a.example"), Some(Bucket::Dead));
    assert_eq!(instances.0[0].1.dead[0].0.dead_since, 99);
    assert_eq!(polled.get("a.example"), Some(failed));
    assert!(!polled.settle_at(&mut instances, "z.example".to_string(), record, &enabled, 1, 100));
    assert_eq!(polled.get("z.example"), Some(record));
    assert_eq!(instances.stat(), (0, 0, 1, 0));
}

fn outbound(share: u32, max_concurrent: u32) -> OutboundConfig {
    OutboundConfig {
        polling: PollingConfig {
            interval: 100,
            features: PollingFeaturesConfig { video: true, playlist: true, search: true, channel: true },
            max_concurrent,
        },
        offsets: OffsetsConfig(vec![("na".to_string(), 0)]),
        poll_probabilities: PollProbabilitiesConfig {
            hot: share,
            recovered: share,
            recovering: share,
            dead: share,
            stashed_recovering: share,
            stashed_dead: share,
            stashed: share,
            pending: share,
        },
        check_interval: 60,
    }
}

fn three_pending() -> InstancesRecords {
    let mut instances = InstancesRecords::new();
    for (address, region) in [("a", "na"), ("b", "eu"), ("c", "na")] {
        instances.add(&regions(), address.to_string(), region.to_string(), "10.0.0.1".to_string(), &mut (0, 0, 0, 0)).unwrap();
    }
    instances
}

#[test]
fn a_cycle_queues_what_is_due_and_starts_workers() {
    let instances = three_pending();
    let polled = PollingRecord::new();
    let mut q = PollQueue::new();
    assert_eq!(polled.cycle_at(&instances, &mut q, &outbound(1_000_000, 2), 5_000), 2);
    assert_eq!(q, queue(&["a", "c", "b"], 2));
    assert_eq!(polled.cycle_at(&instances, &mut q, &outbound(1_000_000, 2), 5_001), 0);
    assert_eq!(q, queue(&["a", "c", "b"], 2));
    assert_eq!(polled.cycle_at(&instances, &mut q, &outbound(1_000_000, 3), 5_002), 1);
    assert_eq!(q, queue(&["a", "c", "b"], 3));
}

#[test]
fn a_cycle_with_nothing_due_starts_nothing() {
    let instances = three_pending();
    let mut polled = PollingRecord::new();
    for address in ["a", "b", "c"] {
        polled.update(
            address.to_string(),
            PolledSingleRecord { last_polled: 5_000, video: None, playlist: None, channel: None, search: None },
        );
    }
    let mut q = PollQueue::new();
    assert_eq!(polled.cycle_at(&instances, &mut q, &outbound(1_000_000, 2), 5_050), 0);
    assert_eq!(q, PollQueue::new());
    assert_eq!(polled.cycle_at(&instances, &mut q, &outbound(0, 2), 9_000), 0);
    assert_eq!(q, PollQueue::new());
    assert_eq!(polled.cycle_at(&instances, &mut q, &outbound(1, 2), 9_000), 2);
    assert_eq!(q, queue(&["a"], 2));
}

#[test]
fn a_cycle_by_the_clock_never_queues_an_address_twice() {
    let instances = three_pending();
    let polled = PollingRecord::new();
    let mut q = PollQueue::new();
    assert_eq!(polled.cycle(&instances, &mut q, &outbound(500_000, 1)), 1);
    assert_eq!(q, queue(&["a", "c"], 1));
    assert_eq!(polled.cycle(&instances, &mut q, &outbound(500_000, 1)), 0);
    assert_eq!(q, queue(&["a", "c", "b"], 1));
    assert_eq!(polled.cycle(&instances, &mut q, &outbound(500_000, 1)), 0);
    assert_eq!(q, queue(&["a", "c", "b"], 1));
}

#[test]
fn a_worker_that_was_not_counted_just_stops() {
    let mut q = queue(&[], 0);
    assert_eq!(q.worker_step(), WorkerAction::Exit);
    assert_eq!(q, queue(&[], 0));
    let mut q = queue(&["a"], 0);
    assert_eq!(q.worker_step(), WorkerAction::Probe("a".to_string()));
    assert_eq!(q, queue(&[], 0));
}

fn regions() -> OffsetsConfig {
    OffsetsConfig(vec![("na".to_string(), 0), ("eu".to_string(), 0)])
}
