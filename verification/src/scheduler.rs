//! The poll scheduler: which instances are due for a probe in this cycle.

use vstd::prelude::*;
use vstd::hash_set::StringHashSet;
use crate::clock::unix_now;
use crate::config::{OutboundConfig, PollProbabilitiesConfig};
use crate::instances::{addresses, entries, Located};
use crate::ledger::{LedgerView, RegionRecords};
use crate::polling::{last_polled_of, PolledSingleRecord, PollingRecord};
use crate::text::{text_set, texts};

verus! {

/// How far an instance is from its next probe, in seconds: the time of
/// its last probe, less the current time, plus the polling interval. An
/// instance is overdue where this is negative.
pub open spec fn overdue_of(last_polled: u64, now: i64, interval: u64) -> int {
    last_polled - now + interval
}

/// The number of instances that one cycle takes from `count` overdue ones
/// at the given share in millionths: `count` times the share, rounded up.
pub open spec fn quota(count: nat, share: u32) -> nat {
    ((count * share + 999_999) / 1_000_000) as nat
}

/// An instance that is due for a probe, with how far it is overdue.
pub struct Due {
    pub address: Seq<char>,
    pub overdue: int,
}

/// The place at which an instance that is `overdue` joins the ranking:
/// behind the last one that is no less overdue than it.
pub open spec fn slot(ranking: Seq<Due>, overdue: int) -> int
    decreases ranking.len(),
{
    if ranking.len() == 0 {
        0
    } else if ranking.last().overdue <= overdue {
        ranking.len() as int
    } else {
        slot(ranking.drop_last(), overdue)
    }
}

/// Whether the instance is due: it is not in the queue and it is overdue.
pub open spec fn is_due(
    polled: Map<Seq<char>, PolledSingleRecord>,
    queue: Seq<Seq<char>>,
    now: i64,
    interval: u64,
    address: Seq<char>,
) -> bool {
    !queue.contains(address) && overdue_of(last_polled_of(polled, address), now, interval) < 0
}

/// The due instances among `bucket`, most overdue first; among equally
/// overdue ones, in the order of the bucket.
pub open spec fn ranked(
    bucket: Seq<Seq<char>>,
    polled: Map<Seq<char>, PolledSingleRecord>,
    queue: Seq<Seq<char>>,
    now: i64,
    interval: u64,
) -> Seq<Due>
    decreases bucket.len(),
{
    if bucket.len() == 0 {
        Seq::empty()
    } else {
        let before = ranked(bucket.drop_last(), polled, queue, now, interval);
        let address = bucket.last();
        let overdue = overdue_of(last_polled_of(polled, address), now, interval);
        if is_due(polled, queue, now, interval, address) {
            before.insert(slot(before, overdue), Due { address, overdue })
        } else {
            before
        }
    }
}

/// The addresses of a ranking, in order.
pub open spec fn due_addresses(ranking: Seq<Due>) -> Seq<Seq<char>> {
    ranking.map_values(|d: Due| d.address)
}

/// The instances of one bucket that a cycle takes up: the first of its
/// ranking, as many as the bucket's share of the ranking comes to.
pub open spec fn taken(
    bucket: Seq<Seq<char>>,
    polled: Map<Seq<char>, PolledSingleRecord>,
    queue: Seq<Seq<char>>,
    now: i64,
    interval: u64,
    share: u32,
) -> Seq<Seq<char>> {
    let ranking = ranked(bucket, polled, queue, now, interval);
    let count = if quota(ranking.len(), share) < ranking.len() {
        quota(ranking.len(), share)
    } else {
        ranking.len()
    };
    due_addresses(ranking.take(count as int))
}

/// The instances that a cycle takes up, bucket after bucket in the order
/// of priority.
pub open spec fn schedule(
    polled: Map<Seq<char>, PolledSingleRecord>,
    global: LedgerView,
    queue: Seq<Seq<char>>,
    now: i64,
    interval: u64,
    shares: PollProbabilitiesConfig,
) -> Seq<Seq<char>> {
    taken(addresses(global.hot), polled, queue, now, interval, shares.hot) + taken(
        addresses(global.recovering),
        polled,
        queue,
        now,
        interval,
        shares.recovering,
    ) + taken(addresses(global.recovered), polled, queue, now, interval, shares.recovered) + taken(
        addresses(global.dead),
        polled,
        queue,
        now,
        interval,
        shares.dead,
    ) + taken(
        addresses(global.stashed_recovering),
        polled,
        queue,
        now,
        interval,
        shares.stashed_recovering,
    ) + taken(addresses(global.stashed_dead), polled, queue, now, interval, shares.stashed_dead)
        + taken(addresses(global.stashed), polled, queue, now, interval, shares.stashed) + taken(
        addresses(global.pending),
        polled,
        queue,
        now,
        interval,
        shares.pending,
    )
}

/// A due instance as the scheduler holds it while it ranks a bucket.
struct Candidate {
    address: String,
    overdue: i128,
}

/// The ranking that a list of candidates stands for.
spec fn dues(candidates: Seq<Candidate>) -> Seq<Due> {
    candidates.map_values(|c: Candidate| Due { address: c.address@, overdue: c.overdue as int })
}

/// Entries that are less overdue than `overdue` do not move the slot.
proof fn lemma_slot_skips(ranking: Seq<Due>, overdue: int, from: int)
    requires
        0 <= from <= ranking.len(),
        forall|k: int| from <= k < ranking.len() ==> ranking[k].overdue > overdue,
    ensures
        slot(ranking, overdue) == slot(ranking.take(from), overdue),
        0 <= slot(ranking, overdue) <= from,
    decreases ranking.len() - from,
{
    if from < ranking.len() {
        assert(ranking.drop_last().take(from) =~= ranking.take(from));
        lemma_slot_skips(ranking.drop_last(), overdue, from);
    } else {
        assert(ranking.take(from) =~= ranking);
        lemma_slot_bounds(ranking, overdue);
    }
}

/// A slot lies within the ranking or right behind it.
proof fn lemma_slot_bounds(ranking: Seq<Due>, overdue: int)
    ensures
        0 <= slot(ranking, overdue) <= ranking.len(),
    decreases ranking.len(),
{
    if ranking.len() > 0 && ranking.last().overdue > overdue {
        lemma_slot_bounds(ranking.drop_last(), overdue);
    }
}

impl PollingRecord {
    /// Appends to `out` the instances of `bucket` that this cycle takes up.
    fn take_due<T: Located>(
        &self,
        bucket: &Vec<T>,
        in_queue: &StringHashSet,
        now: i64,
        interval: u64,
        share: u32,
        out: &mut Vec<String>,
        Ghost(queue): Ghost<Seq<Seq<char>>>,
    )
        requires
            forall|address: Seq<char>| in_queue@.contains(address) <==> queue.contains(address),
        ensures
            texts(final(out)@) == texts(old(out)@) + taken(
                addresses(entries(bucket@)),
                self@,
                queue,
                now,
                interval,
                share,
            ),
    {
        let ghost names = addresses(entries(bucket@));
        let mut candidates: Vec<Candidate> = Vec::new();
        assert(dues(candidates@) =~= ranked(names.take(0), self@, queue, now, interval));
        let mut i: usize = 0;
        while i < bucket.len()
            invariant
                i <= bucket.len(),
                names == addresses(entries(bucket@)),
                dues(candidates@) == ranked(names.take(i as int), self@, queue, now, interval),
                forall|address: Seq<char>| in_queue@.contains(address) <==> queue.contains(address),
            decreases bucket.len() - i,
        {
            let address = bucket[i].address();
            let ghost before = dues(candidates@);
            proof {
                assert(names.take(i + 1).drop_last() =~= names.take(i as int));
                assert(names.take(i + 1).last() == address@);
            }
            if !in_queue.contains(address) {
                let overdue: i128 = self.last_polled(address) as i128 - now as i128 + interval as i128;
                if overdue < 0 {
                    let mut at: usize = candidates.len();
                    while at > 0 && candidates[at - 1].overdue > overdue
                        invariant
                            at <= candidates.len(),
                            before == dues(candidates@),
                            forall|k: int| at <= k < before.len() ==> before[k].overdue > overdue,
                        decreases at,
                    {
                        at -= 1;
                    }
                    proof {
                        lemma_slot_skips(before, overdue as int, at as int);
                        if at > 0 {
                            assert(before.take(at as int).last() == before[at - 1]);
                        }
                        assert(slot(before.take(at as int), overdue as int) == at);
                    }
                    candidates.insert(at, Candidate { address: address.to_owned(), overdue });
                    assert(dues(candidates@) =~= before.insert(
                        at as int,
                        Due { address: address@, overdue: overdue as int },
                    ));
                }
            }
            i += 1;
        }
        assert(names.take(i as int) =~= names);
        let ghost ranking = dues(candidates@);
        assert(0 <= candidates.len() * share <= 0xffff_ffff_ffff_ffff * 0xffff_ffff) by (nonlinear_arith)
            requires
                0 <= candidates.len() <= 0xffff_ffff_ffff_ffff,
                0 <= share <= 0xffff_ffff,
        ;
        let wanted: u128 = (candidates.len() as u128 * share as u128 + 999_999) / 1_000_000;
        let count: usize = if wanted < candidates.len() as u128 {
            wanted as usize
        } else {
            candidates.len()
        };
        let mut k: usize = 0;
        while k < count
            invariant
                k <= count <= candidates.len(),
                out@.len() == old(out)@.len() + k,
                forall|j: int| 0 <= j < old(out)@.len() ==> out@[j]@ == old(out)@[j]@,
                forall|j: int| 0 <= j < k ==> out@[old(out)@.len() + j]@ == candidates@[j].address@,
            decreases count - k,
        {
            out.push(candidates[k].address.clone());
            k += 1;
        }
        assert(texts(out@) =~= texts(old(out)@) + due_addresses(ranking.take(count as int)));
    }

    /// The instances to probe in the cycle that starts at time `now`, in
    /// seconds since the epoch.
    ///
    /// For each bucket of `global`, in the order hot, recovering,
    /// recovered, dead, stashed recovering, stashed dead, stashed, pending:
    /// of the instances that are overdue and not in `queue`, the most
    /// overdue ones, as many as the bucket's share of them, rounded up.
    pub fn to_poll_at(
        &self,
        global: &RegionRecords,
        queue: &Vec<String>,
        outbound: &OutboundConfig,
        now: i64,
    ) -> (due: Vec<String>)
        ensures
            texts(due@) == schedule(
                self@,
                global@,
                texts(queue@),
                now,
                outbound.polling.interval,
                outbound.poll_probabilities,
            ),
    {
        let in_queue = text_set(queue);
        let interval = outbound.polling.interval;
        let shares = &outbound.poll_probabilities;
        let ghost q = texts(queue@);
        let mut due: Vec<String> = Vec::new();
        assert(texts(due@) =~= Seq::<Seq<char>>::empty());
        self.take_due(&global.hot, &in_queue, now, interval, shares.hot, &mut due, Ghost(q));
        self.take_due(&global.recovering, &in_queue, now, interval, shares.recovering, &mut due, Ghost(q));
        self.take_due(&global.recovered, &in_queue, now, interval, shares.recovered, &mut due, Ghost(q));
        self.take_due(&global.dead, &in_queue, now, interval, shares.dead, &mut due, Ghost(q));
        self.take_due(
            &global.stashed_recovering,
            &in_queue,
            now,
            interval,
            shares.stashed_recovering,
            &mut due,
            Ghost(q),
        );
        self.take_due(&global.stashed_dead, &in_queue, now, interval, shares.stashed_dead, &mut due, Ghost(q));
        self.take_due(&global.stashed, &in_queue, now, interval, shares.stashed, &mut due, Ghost(q));
        self.take_due(&global.pending, &in_queue, now, interval, shares.pending, &mut due, Ghost(q));
        assert(texts(due@) =~= schedule(
            self@,
            global@,
            q,
            now,
            outbound.polling.interval,
            outbound.poll_probabilities,
        ));
        due
    }

    /// The instances to probe in the cycle that starts now. See
    /// [`PollingRecord::to_poll_at`].
    pub fn to_poll(
        &self,
        global: &RegionRecords,
        queue: &Vec<String>,
        outbound: &OutboundConfig,
    ) -> (due: Vec<String>)
        ensures
            exists|now: i64|
                texts(due@) == schedule(
                    self@,
                    global@,
                    texts(queue@),
                    now,
                    outbound.polling.interval,
                    outbound.poll_probabilities,
                ),
    {
        let now = unix_now();
        self.to_poll_at(global, queue, outbound, now)
    }
}

} // verus!
