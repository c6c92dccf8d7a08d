//! What holds of a schedule: how many instances each bucket yields, which
//! ones, and in what order.

use vstd::prelude::*;
use vstd::multiset::Multiset;
use vstd::seq_lib::{lemma_multiset_commutative, lemma_no_dup_in_concat, to_multiset_insert};
use crate::config::PollProbabilitiesConfig;
use crate::instances::addresses;
use crate::ledger::LedgerView;
use crate::ledger_laws::lemma_population_by_bucket;
use crate::polling::{last_polled_of, PolledSingleRecord};
use crate::scheduler::{
    due_addresses, is_due, overdue_of, quota, ranked, schedule, slot, taken, Due,
};
use crate::text::lemma_concat_contains;

verus! {

/// The number of due instances among `bucket`.
pub open spec fn due_count(
    bucket: Seq<Seq<char>>,
    polled: Map<Seq<char>, PolledSingleRecord>,
    queue: Seq<Seq<char>>,
    now: i64,
    interval: u64,
) -> nat
    decreases bucket.len(),
{
    if bucket.len() == 0 {
        0
    } else {
        due_count(bucket.drop_last(), polled, queue, now, interval) + if is_due(
            polled,
            queue,
            now,
            interval,
            bucket.last(),
        ) {
            1nat
        } else {
            0nat
        }
    }
}

/// Whether a ranking goes from the most overdue instance to the least.
pub open spec fn ascending(ranking: Seq<Due>) -> bool {
    forall|i: int, j: int| 0 <= i < j < ranking.len() ==> ranking[i].overdue <= ranking[j].overdue
}

/// The quota is the share of the count rounded up: the least number of
/// millions that is no less than the count times the share in millionths.
pub proof fn lemma_quota_is_ceiling(count: nat, share: u32)
    ensures
        quota(count, share) * 1_000_000 >= count * share,
        (quota(count, share) - 1) * 1_000_000 < count * share,
        share <= 1_000_000 ==> quota(count, share) <= count,
        share == 1_000_000 ==> quota(count, share) == count,
        share == 0 ==> quota(count, share) == 0,
        count == 0 ==> quota(count, share) == 0,
        count > 0 && share > 0 ==> quota(count, share) >= 1,
{
    let product = (count * share) as int;
    assert(0 <= product) by (nonlinear_arith)
        requires
            product == count * share,
            0 <= count,
            0 <= share,
    ;
    if share <= 1_000_000 {
        assert(count * share <= count * 1_000_000) by (nonlinear_arith)
            requires
                0 <= count,
                0 <= share <= 1_000_000,
        ;
    }
    if count > 0 && share > 0 {
        assert(count * share >= 1) by (nonlinear_arith)
            requires
                count >= 1,
                share >= 1,
        ;
    }
    if share == 0 {
        assert(count * share == 0) by (nonlinear_arith)
            requires
                share == 0,
        ;
    }
    if count == 0 {
        assert(count * share == 0) by (nonlinear_arith)
            requires
                count == 0,
        ;
    }
}

/// In an ascending ranking, the instances before a slot are no less
/// overdue than the newcomer and those from the slot on are less overdue.
pub proof fn lemma_slot_splits(ranking: Seq<Due>, overdue: int)
    requires
        ascending(ranking),
    ensures
        0 <= slot(ranking, overdue) <= ranking.len(),
        forall|k: int| 0 <= k < slot(ranking, overdue) ==> ranking[k].overdue <= overdue,
        forall|k: int| slot(ranking, overdue) <= k < ranking.len() ==> ranking[k].overdue > overdue,
    decreases ranking.len(),
{
    if ranking.len() > 0 {
        let rest = ranking.drop_last();
        assert forall|i: int, j: int| 0 <= i < j < rest.len() implies rest[i].overdue
            <= rest[j].overdue by {
            assert(rest[i] == ranking[i] && rest[j] == ranking[j]);
        }
        if ranking.last().overdue > overdue {
            lemma_slot_splits(rest, overdue);
            assert forall|k: int| 0 <= k < slot(ranking, overdue) implies ranking[k].overdue
                <= overdue by {
                assert(rest[k] == ranking[k]);
            }
            assert forall|k: int| slot(ranking, overdue) <= k < ranking.len() implies ranking[k].overdue
                > overdue by {
                if k < rest.len() {
                    assert(rest[k] == ranking[k]);
                }
            }
        } else {
            assert forall|k: int| 0 <= k < ranking.len() implies ranking[k].overdue <= overdue by {
                if k < ranking.len() - 1 {
                    assert(ranking[k].overdue <= ranking[ranking.len() - 1].overdue);
                }
            }
        }
    }
}

/// The ranking of a bucket holds each of its due instances once, and no
/// other: it is as long as the bucket has due instances, each of its
/// entries stands for a due instance of the bucket with the overdue time of
/// that instance, and it goes from the most overdue to the least.
pub proof fn lemma_ranked(
    bucket: Seq<Seq<char>>,
    polled: Map<Seq<char>, PolledSingleRecord>,
    queue: Seq<Seq<char>>,
    now: i64,
    interval: u64,
)
    ensures
        ranked(bucket, polled, queue, now, interval).len() == due_count(
            bucket,
            polled,
            queue,
            now,
            interval,
        ),
        due_count(bucket, polled, queue, now, interval) <= bucket.len(),
        ascending(ranked(bucket, polled, queue, now, interval)),
        forall|k: int|
            0 <= k < ranked(bucket, polled, queue, now, interval).len() ==> {
                let due = #[trigger] ranked(bucket, polled, queue, now, interval)[k];
                &&& bucket.contains(due.address)
                &&& is_due(polled, queue, now, interval, due.address)
                &&& due.overdue == overdue_of(last_polled_of(polled, due.address), now, interval)
            },
    decreases bucket.len(),
{
    if bucket.len() > 0 {
        let before = ranked(bucket.drop_last(), polled, queue, now, interval);
        let after = ranked(bucket, polled, queue, now, interval);
        lemma_ranked(bucket.drop_last(), polled, queue, now, interval);
        let address = bucket.last();
        let overdue = overdue_of(last_polled_of(polled, address), now, interval);
        assert forall|k: int| 0 <= k < before.len() implies bucket.contains(
            #[trigger] before[k].address,
        ) by {
            let a = before[k].address;
            let j = choose|j: int| 0 <= j < bucket.drop_last().len() && bucket.drop_last()[j] == a;
            assert(bucket[j] == a);
        }
        if is_due(polled, queue, now, interval, address) {
            lemma_slot_splits(before, overdue);
            let at = slot(before, overdue);
            assert(bucket[bucket.len() - 1] == address);
            assert forall|k: int| 0 <= k < after.len() implies {
                let due = #[trigger] after[k];
                &&& bucket.contains(due.address)
                &&& is_due(polled, queue, now, interval, due.address)
                &&& due.overdue == overdue_of(last_polled_of(polled, due.address), now, interval)
            } by {
                if k < at {
                    assert(after[k] == before[k]);
                } else if k > at {
                    assert(after[k] == before[k - 1]);
                }
            }
            assert forall|i: int, j: int| 0 <= i < j < after.len() implies after[i].overdue
                <= after[j].overdue by {
                let x = if i < at { before[i] } else if i == at { after[at] } else { before[i - 1] };
                let y = if j < at { before[j] } else if j == at { after[at] } else { before[j - 1] };
                assert(after[i] == x);
                assert(after[j] == y);
            }
        }
    }
}

/// From one bucket a cycle takes as many instances as
/// the bucket's share of its due instances comes to, rounded up, and never
/// more than there are; with a share of no more than one million millionths
/// that is the rounded share itself. Each instance it takes is due: it is
/// in the bucket, overdue, and not in the queue.
pub proof fn lemma_taken(
    bucket: Seq<Seq<char>>,
    polled: Map<Seq<char>, PolledSingleRecord>,
    queue: Seq<Seq<char>>,
    now: i64,
    interval: u64,
    share: u32,
)
    ensures
        ({
            let count = due_count(bucket, polled, queue, now, interval);
            let emitted = taken(bucket, polled, queue, now, interval, share).len();
            &&& emitted == if quota(count, share) < count { quota(count, share) } else { count }
            &&& share <= 1_000_000 ==> emitted == quota(count, share)
        }),
        forall|k: int|
            0 <= k < taken(bucket, polled, queue, now, interval, share).len() ==> {
                let address = #[trigger] taken(bucket, polled, queue, now, interval, share)[k];
                &&& bucket.contains(address)
                &&& !queue.contains(address)
                &&& overdue_of(last_polled_of(polled, address), now, interval) < 0
            },
{
    let ranking = ranked(bucket, polled, queue, now, interval);
    lemma_ranked(bucket, polled, queue, now, interval);
    lemma_quota_is_ceiling(ranking.len(), share);
    assert forall|k: int| 0 <= k < taken(bucket, polled, queue, now, interval, share).len() implies {
        let address = #[trigger] taken(bucket, polled, queue, now, interval, share)[k];
        &&& bucket.contains(address)
        &&& !queue.contains(address)
        &&& overdue_of(last_polled_of(polled, address), now, interval) < 0
    } by {
        assert(taken(bucket, polled, queue, now, interval, share)[k] == ranking[k].address);
    }
}

/// No instance that a cycle takes up is in the queue already, and each is
/// overdue and known to the ledger.
pub proof fn lemma_schedule_excludes_queue(
    polled: Map<Seq<char>, PolledSingleRecord>,
    global: LedgerView,
    queue: Seq<Seq<char>>,
    now: i64,
    interval: u64,
    shares: PollProbabilitiesConfig,
)
    ensures
        forall|address: Seq<char>|
            schedule(polled, global, queue, now, interval, shares).contains(address) ==> {
                &&& !queue.contains(address)
                &&& overdue_of(last_polled_of(polled, address), now, interval) < 0
            },
{
    let a = taken(addresses(global.hot), polled, queue, now, interval, shares.hot);
    let b = taken(addresses(global.recovering), polled, queue, now, interval, shares.recovering);
    let c = taken(addresses(global.recovered), polled, queue, now, interval, shares.recovered);
    let d = taken(addresses(global.dead), polled, queue, now, interval, shares.dead);
    let e = taken(
        addresses(global.stashed_recovering),
        polled,
        queue,
        now,
        interval,
        shares.stashed_recovering,
    );
    let f = taken(addresses(global.stashed_dead), polled, queue, now, interval, shares.stashed_dead);
    let g = taken(addresses(global.stashed), polled, queue, now, interval, shares.stashed);
    let h = taken(addresses(global.pending), polled, queue, now, interval, shares.pending);
    lemma_taken(addresses(global.hot), polled, queue, now, interval, shares.hot);
    lemma_taken(addresses(global.recovering), polled, queue, now, interval, shares.recovering);
    lemma_taken(addresses(global.recovered), polled, queue, now, interval, shares.recovered);
    lemma_taken(addresses(global.dead), polled, queue, now, interval, shares.dead);
    lemma_taken(
        addresses(global.stashed_recovering),
        polled,
        queue,
        now,
        interval,
        shares.stashed_recovering,
    );
    lemma_taken(addresses(global.stashed_dead), polled, queue, now, interval, shares.stashed_dead);
    lemma_taken(addresses(global.stashed), polled, queue, now, interval, shares.stashed);
    lemma_taken(addresses(global.pending), polled, queue, now, interval, shares.pending);
    assert forall|address: Seq<char>|
        schedule(polled, global, queue, now, interval, shares).contains(address) implies {
        &&& !queue.contains(address)
        &&& overdue_of(last_polled_of(polled, address), now, interval) < 0
    } by {
        lemma_concat_contains(a, b, address);
        lemma_concat_contains(a + b, c, address);
        lemma_concat_contains(a + b + c, d, address);
        lemma_concat_contains(a + b + c + d, e, address);
        lemma_concat_contains(a + b + c + d + e, f, address);
        lemma_concat_contains(a + b + c + d + e + f, g, address);
        lemma_concat_contains(a + b + c + d + e + f + g, h, address);
    }
}

/// The instances that a cycle takes from a bucket are among the bucket's
/// addresses, each no more often than it occurs there.
pub proof fn lemma_taken_within_bucket(
    bucket: Seq<Seq<char>>,
    polled: Map<Seq<char>, PolledSingleRecord>,
    queue: Seq<Seq<char>>,
    now: i64,
    interval: u64,
    share: u32,
)
    ensures
        due_addresses(ranked(bucket, polled, queue, now, interval)).to_multiset().subset_of(
            bucket.to_multiset(),
        ),
        taken(bucket, polled, queue, now, interval, share).to_multiset().subset_of(
            bucket.to_multiset(),
        ),
    decreases bucket.len(),
{
    broadcast use vstd::multiset::group_multiset_axioms;

    let ranking = ranked(bucket, polled, queue, now, interval);
    if bucket.len() == 0 {
        assert(due_addresses(ranking) =~= Seq::<Seq<char>>::empty());
    } else {
        let rest = bucket.drop_last();
        let before = ranked(rest, polled, queue, now, interval);
        lemma_taken_within_bucket(rest, polled, queue, now, interval, share);
        assert(rest + seq![bucket.last()] =~= bucket);
        lemma_multiset_commutative(rest, seq![bucket.last()]);
        assert(seq![bucket.last()].to_multiset().count(bucket.last()) > 0) by {
            assert(seq![bucket.last()][0] == bucket.last());
            seq![bucket.last()].to_multiset_ensures();
        }
        if is_due(polled, queue, now, interval, bucket.last()) {
            let overdue = overdue_of(last_polled_of(polled, bucket.last()), now, interval);
            lemma_ranked(rest, polled, queue, now, interval);
            lemma_slot_splits(before, overdue);
            let at = slot(before, overdue);
            assert(due_addresses(ranking) =~= due_addresses(before).insert(at, bucket.last()));
            to_multiset_insert(due_addresses(before), at, bucket.last());
        }
    }
    let count = if quota(ranking.len(), share) < ranking.len() {
        quota(ranking.len(), share) as int
    } else {
        ranking.len() as int
    };
    let all = due_addresses(ranking);
    assert(due_addresses(ranking.take(count)) =~= all.take(count));
    assert(all.take(count) + all.skip(count) =~= all);
    lemma_multiset_commutative(all.take(count), all.skip(count));
}

/// What a cycle takes up keeps the queue free of duplicates: where no
/// address stands twice in the queue or twice in the ledger, none stands
/// twice in the queue with the cycle's instances appended.
pub proof fn lemma_schedule_keeps_queue_distinct(
    polled: Map<Seq<char>, PolledSingleRecord>,
    global: LedgerView,
    queue: Seq<Seq<char>>,
    now: i64,
    interval: u64,
    shares: PollProbabilitiesConfig,
)
    requires
        queue.no_duplicates(),
        global.exclusive(),
    ensures
        schedule(polled, global, queue, now, interval, shares).no_duplicates(),
        (queue + schedule(polled, global, queue, now, interval, shares)).no_duplicates(),
{
    broadcast use vstd::multiset::group_multiset_axioms;

    let due = schedule(polled, global, queue, now, interval, shares);
    let a = taken(addresses(global.hot), polled, queue, now, interval, shares.hot);
    let b = taken(addresses(global.recovering), polled, queue, now, interval, shares.recovering);
    let c = taken(addresses(global.recovered), polled, queue, now, interval, shares.recovered);
    let d = taken(addresses(global.dead), polled, queue, now, interval, shares.dead);
    let e = taken(
        addresses(global.stashed_recovering),
        polled,
        queue,
        now,
        interval,
        shares.stashed_recovering,
    );
    let f = taken(addresses(global.stashed_dead), polled, queue, now, interval, shares.stashed_dead);
    let g = taken(addresses(global.stashed), polled, queue, now, interval, shares.stashed);
    let h = taken(addresses(global.pending), polled, queue, now, interval, shares.pending);
    lemma_taken_within_bucket(addresses(global.hot), polled, queue, now, interval, shares.hot);
    lemma_taken_within_bucket(
        addresses(global.recovering),
        polled,
        queue,
        now,
        interval,
        shares.recovering,
    );
    lemma_taken_within_bucket(
        addresses(global.recovered),
        polled,
        queue,
        now,
        interval,
        shares.recovered,
    );
    lemma_taken_within_bucket(addresses(global.dead), polled, queue, now, interval, shares.dead);
    lemma_taken_within_bucket(
        addresses(global.stashed_recovering),
        polled,
        queue,
        now,
        interval,
        shares.stashed_recovering,
    );
    lemma_taken_within_bucket(
        addresses(global.stashed_dead),
        polled,
        queue,
        now,
        interval,
        shares.stashed_dead,
    );
    lemma_taken_within_bucket(addresses(global.stashed), polled, queue, now, interval, shares.stashed);
    lemma_taken_within_bucket(addresses(global.pending), polled, queue, now, interval, shares.pending);
    lemma_multiset_commutative(a, b);
    lemma_multiset_commutative(a + b, c);
    lemma_multiset_commutative(a + b + c, d);
    lemma_multiset_commutative(a + b + c + d, e);
    lemma_multiset_commutative(a + b + c + d + e, f);
    lemma_multiset_commutative(a + b + c + d + e + f, g);
    lemma_multiset_commutative(a + b + c + d + e + f + g, h);
    lemma_population_by_bucket(global);
    global.addresses().lemma_multiset_has_no_duplicates();
    assert(due.to_multiset().subset_of(global.population()));
    assert forall|x: Seq<char>| due.to_multiset().contains(x) implies due.to_multiset().count(x)
        == 1 by {
        assert(due.to_multiset().count(x) <= global.population().count(x));
    }
    due.lemma_multiset_has_no_duplicates_conv();
    lemma_schedule_excludes_queue(polled, global, queue, now, interval, shares);
    assert forall|i: int, j: int| 0 <= i < queue.len() && 0 <= j < due.len() implies queue[i]
        != due[j] by {
        if queue[i] == due[j] {
            assert(due.contains(due[j]));
            assert(queue.contains(queue[i]));
        }
    }
    lemma_no_dup_in_concat(queue, due);
}

} // verus!
