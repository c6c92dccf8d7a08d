//! The poll queue and the workers that drain it.

use vstd::prelude::*;
use crate::clock::unix_now;
use crate::config::{OutboundConfig, PollingFeaturesConfig};
use crate::polling::{PolledSingleRecord, PollingRecord};
use crate::registry::InstancesRecords;
use crate::scheduler::schedule;
use crate::scheduler_laws::lemma_schedule_keeps_queue_distinct;
use crate::text::texts;

verus! {

/// The addresses that await a probe, and the number of workers that are
/// running. Workers take addresses from the end of the queue.
#[derive(Clone, PartialEq, Eq, Debug)]
pub struct PollQueue {
    pub addresses: Vec<String>,
    pub running: u32,
}

/// What a worker does next.
#[derive(Clone, PartialEq, Eq, Debug)]
pub enum WorkerAction {
    /// Probe the instance at this address and come back with the outcome.
    Probe(String),
    /// Stop: the queue is empty and other workers are still running.
    Exit,
    /// Stop as the last worker of the batch: take the registry's statistics
    /// anew and save both ledgers.
    CompleteBatch,
}

impl PollQueue {
    /// The empty queue with no worker running.
    pub fn new() -> (queue: Self)
        ensures
            queue.addresses@ == Seq::<String>::empty(),
            queue.running == 0,
    {
        PollQueue { addresses: Vec::new(), running: 0 }
    }

    /// Appends the addresses that a scheduling cycle took up.
    pub fn enqueue(&mut self, due: Vec<String>)
        ensures
            texts(final(self).addresses@) == texts(old(self).addresses@) + texts(due@),
            final(self).running == old(self).running,
    {
        let mut due = due;
        let ghost added = due@;
        self.addresses.append(&mut due);
        assert(texts(self.addresses@) =~= texts(old(self).addresses@) + texts(added));
    }

    /// Decides what a worker does next: probe the address at the end of the
    /// queue, which leaves the queue; or, with the queue empty, stop and be
    /// counted out, as the one that completes the batch if it was the last
    /// one counted. A worker that finds the queue empty and no worker
    /// counted stops without more.
    pub fn worker_step(&mut self) -> (action: WorkerAction)
        ensures
            match action {
                WorkerAction::Probe(address) => {
                    &&& old(self).addresses@.len() > 0
                    &&& address == old(self).addresses@.last()
                    &&& final(self).addresses@ == old(self).addresses@.drop_last()
                    &&& final(self).running == old(self).running
                },
                WorkerAction::Exit => {
                    &&& old(self).addresses@.len() == 0
                    &&& final(self).addresses@ == old(self).addresses@
                    &&& old(self).running != 1
                    &&& final(self).running == if old(self).running == 0 {
                        0
                    } else {
                        old(self).running - 1
                    }
                },
                WorkerAction::CompleteBatch => {
                    &&& old(self).addresses@.len() == 0
                    &&& final(self).addresses@ == old(self).addresses@
                    &&& old(self).running == 1
                    &&& final(self).running == 0
                },
            },
    {
        match self.addresses.pop() {
            Some(address) => WorkerAction::Probe(address),
            None => {
                if self.running == 0 {
                    WorkerAction::Exit
                } else {
                    self.running = self.running - 1;
                    if self.running == 0 {
                        WorkerAction::CompleteBatch
                    } else {
                        WorkerAction::Exit
                    }
                }
            },
        }
    }
}

impl PollingRecord {
    /// Starts a probe pass: returns the number of workers to start so that
    /// `max_concurrent` are running, and counts them in. With an empty queue
    /// none is started, and the workers that run already are never counted
    /// out here.
    pub fn start_poll(queue: &mut PollQueue, max_concurrent: u32) -> (started: u32)
        ensures
            final(queue).addresses@ == old(queue).addresses@,
            started == if old(queue).addresses@.len() == 0 || old(queue).running >= max_concurrent {
                0
            } else {
                max_concurrent - old(queue).running
            },
            final(queue).running == old(queue).running + started,
    {
        if queue.addresses.len() == 0 || queue.running >= max_concurrent {
            return 0;
        }
        let started: u32 = max_concurrent - queue.running;
        queue.running = max_concurrent;
        started
    }

    /// Runs the scheduling cycle that starts at time `now`: appends the
    /// instances that are due to the queue and returns the number of workers
    /// to start, which are counted in. See [`PollingRecord::to_poll_at`] and
    /// [`PollingRecord::start_poll`]. A queue without duplicates stays one
    /// where the registry holds no address twice.
    pub fn cycle_at(
        &self,
        instances: &InstancesRecords,
        queue: &mut PollQueue,
        outbound: &OutboundConfig,
        now: i64,
    ) -> (started: u32)
        ensures
            texts(final(queue).addresses@) == texts(old(queue).addresses@) + schedule(
                self@,
                instances@.global(),
                texts(old(queue).addresses@),
                now,
                outbound.polling.interval,
                outbound.poll_probabilities,
            ),
            started == if final(queue).addresses@.len() == 0 || old(queue).running
                >= outbound.polling.max_concurrent {
                0
            } else {
                outbound.polling.max_concurrent - old(queue).running
            },
            final(queue).running == old(queue).running + started,
            texts(old(queue).addresses@).no_duplicates() && instances@.exclusive() ==> texts(
                final(queue).addresses@,
            ).no_duplicates(),
    {
        let global = instances.as_global();
        let due = self.to_poll_at(&global, &queue.addresses, outbound, now);
        proof {
            if texts(queue.addresses@).no_duplicates() && instances@.exclusive() {
                lemma_schedule_keeps_queue_distinct(
                    self@,
                    global@,
                    texts(queue.addresses@),
                    now,
                    outbound.polling.interval,
                    outbound.poll_probabilities,
                );
            }
        }
        queue.enqueue(due);
        PollingRecord::start_poll(queue, outbound.polling.max_concurrent)
    }

    /// Runs the scheduling cycle that starts now. See
    /// [`PollingRecord::cycle_at`].
    pub fn cycle(
        &self,
        instances: &InstancesRecords,
        queue: &mut PollQueue,
        outbound: &OutboundConfig,
    ) -> (started: u32)
        ensures
            exists|now: i64|
                texts(final(queue).addresses@) == texts(old(queue).addresses@) + schedule(
                    self@,
                    instances@.global(),
                    texts(old(queue).addresses@),
                    now,
                    outbound.polling.interval,
                    outbound.poll_probabilities,
                ),
            started == if final(queue).addresses@.len() == 0 || old(queue).running
                >= outbound.polling.max_concurrent {
                0
            } else {
                outbound.polling.max_concurrent - old(queue).running
            },
            final(queue).running == old(queue).running + started,
            texts(old(queue).addresses@).no_duplicates() && instances@.exclusive() ==> texts(
                final(queue).addresses@,
            ).no_duplicates(),
    {
        let now = unix_now();
        self.cycle_at(instances, queue, outbound, now)
    }

    /// Takes in the outcome of one probe pass as of time `now`: applies it
    /// to the instance's place in the registry and makes it the instance's
    /// latest outcome in the poll ledger. Returns whether the registry knows
    /// the instance.
    pub fn settle_at(
        &mut self,
        instances: &mut InstancesRecords,
        instance: String,
        record: PolledSingleRecord,
        enabled: &PollingFeaturesConfig,
        hot_per_region: u32,
        now: i64,
    ) -> (known: bool)
        ensures
            final(instances)@ == old(instances)@.update_single(
                instance@,
                record.health(*enabled),
                hot_per_region as nat,
                now,
            ),
            final(self)@ == old(self)@.insert(instance@, record),
            old(self).distinct() ==> final(self).distinct(),
            old(instances)@.exclusive() ==> final(instances)@.exclusive(),
            final(instances)@.count() == old(instances)@.count(),
            known == old(instances)@.contains(instance@),
    {
        let known = instances.update_single_at(instance.as_str(), record, enabled, hot_per_region, now);
        self.update(instance, record);
        known
    }

    /// Takes in the outcome of one probe pass as of the current time. See
    /// [`PollingRecord::settle_at`].
    pub fn settle(
        &mut self,
        instances: &mut InstancesRecords,
        instance: String,
        record: PolledSingleRecord,
        enabled: &PollingFeaturesConfig,
        hot_per_region: u32,
    ) -> (known: bool)
        ensures
            exists|now: i64|
                final(instances)@ == old(instances)@.update_single(
                    instance@,
                    record.health(*enabled),
                    hot_per_region as nat,
                    now,
                ),
            final(self)@ == old(self)@.insert(instance@, record),
            old(self).distinct() ==> final(self).distinct(),
            old(instances)@.exclusive() ==> final(instances)@.exclusive(),
            final(instances)@.count() == old(instances)@.count(),
            known == old(instances)@.contains(instance@),
    {
        let now = unix_now();
        self.settle_at(instances, instance, record, enabled, hot_per_region, now)
    }
}

} // verus!
