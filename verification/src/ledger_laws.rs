//! What holds of the ledger's transitions: no address is lost or doubled,
//! each transition lands an instance in the bucket that its table names,
//! and filling the hot pool comes to rest.

use vstd::prelude::*;
use vstd::multiset::Multiset;
use vstd::seq_lib::{lemma_multiset_commutative, to_multiset_build, to_multiset_contains, to_multiset_remove};
use crate::instances::{addresses, Entry};
use crate::ledger::{
    kill_target, lemma_contains_home, rest_target, revive_target, Bucket, LedgerView,
};
use crate::polling::Health;
use crate::text::lemma_first;

verus! {

/// The addresses of a bucket, each counted as often as it occurs.
pub open spec fn tally(bucket: Seq<Entry>) -> Multiset<Seq<char>> {
    addresses(bucket).to_multiset()
}

impl LedgerView {
    /// The addresses of the ledger, each counted as often as it occurs in
    /// all buckets together.
    pub open spec fn population(self) -> Multiset<Seq<char>> {
        self.addresses().to_multiset()
    }
}

/// The population of a ledger is the sum of its buckets' tallies.
pub proof fn lemma_population_by_bucket(ledger: LedgerView)
    ensures
        ledger.population() == tally(ledger.hot).add(tally(ledger.recovered)).add(
            tally(ledger.recovering),
        ).add(tally(ledger.dead)).add(tally(ledger.stashed_dead)).add(
            tally(ledger.stashed_recovering),
        ).add(tally(ledger.stashed)).add(tally(ledger.pending)),
{
    let a = addresses(ledger.hot);
    let b = addresses(ledger.recovered);
    let c = addresses(ledger.recovering);
    let d = addresses(ledger.dead);
    let e = addresses(ledger.stashed_dead);
    let f = addresses(ledger.stashed_recovering);
    let g = addresses(ledger.stashed);
    let h = addresses(ledger.pending);
    assert(ledger.addresses() =~= a + b + c + d + e + f + g + h);
    lemma_multiset_commutative(a, b);
    lemma_multiset_commutative(a + b, c);
    lemma_multiset_commutative(a + b + c, d);
    lemma_multiset_commutative(a + b + c + d, e);
    lemma_multiset_commutative(a + b + c + d + e, f);
    lemma_multiset_commutative(a + b + c + d + e + f, g);
    lemma_multiset_commutative(a + b + c + d + e + f + g, h);
}

/// Replacing one bucket takes its tally out of the population and puts
/// the new bucket's tally in.
pub proof fn lemma_with_bucket_population(ledger: LedgerView, b: Bucket, bucket: Seq<Entry>)
    ensures
        tally(ledger.bucket(b)).subset_of(ledger.population()),
        ledger.with_bucket(b, bucket).population() == ledger.population().sub(
            tally(ledger.bucket(b)),
        ).add(tally(bucket)),
{
    broadcast use vstd::multiset::group_multiset_axioms;

    lemma_population_by_bucket(ledger);
    lemma_population_by_bucket(ledger.with_bucket(b, bucket));
    assert(ledger.with_bucket(b, bucket).population() =~= ledger.population().sub(
        tally(ledger.bucket(b)),
    ).add(tally(bucket)));
}

/// Moving an entry from one bucket to another keeps the population.
pub proof fn lemma_relocate_population(ledger: LedgerView, from: Bucket, i: int, to: Bucket, now: i64)
    requires
        0 <= i < ledger.bucket(from).len(),
    ensures
        ledger.relocate(from, i, to, now).population() == ledger.population(),
{
    broadcast use vstd::multiset::group_multiset_axioms;

    let source = ledger.bucket(from);
    let moved = source[i].shaped(to, now);
    let taken = ledger.with_bucket(from, source.remove(i));
    lemma_with_bucket_population(ledger, from, source.remove(i));
    lemma_with_bucket_population(taken, to, taken.bucket(to).push(moved));
    assert(addresses(source.remove(i)) =~= addresses(source).remove(i));
    to_multiset_remove(addresses(source), i);
    assert(addresses(taken.bucket(to).push(moved)) =~= addresses(taken.bucket(to)).push(
        moved.instance.address,
    ));
    to_multiset_build(addresses(taken.bucket(to)), moved.instance.address);
    to_multiset_contains(addresses(source), addresses(source)[i]);
    assert(ledger.relocate(from, i, to, now).population() =~= ledger.population());
}

/// The numbers of instances that are up, recovering, dead and pending add
/// up to the number of instances in the ledger, which is the number of its
/// addresses.
pub proof fn lemma_ledger_stat_consistent(ledger: LedgerView)
    ensures
        ledger.up() + ledger.resting() + ledger.gone() + ledger.waiting() == ledger.count(),
        ledger.count() == ledger.addresses().len(),
        ledger.count() == ledger.population().len(),
{
    ledger.addresses().to_multiset_ensures();
}

/// Two ledgers with the same population are exclusive together.
pub proof fn lemma_exclusive_by_population(before: LedgerView, after: LedgerView)
    requires
        before.population() == after.population(),
    ensures
        before.exclusive() == after.exclusive(),
        before.count() == after.count(),
        forall|address: Seq<char>| before.contains(address) == after.contains(address),
{
    broadcast use vstd::multiset::group_multiset_axioms;

    if before.exclusive() {
        before.addresses().lemma_multiset_has_no_duplicates();
        after.addresses().lemma_multiset_has_no_duplicates_conv();
    }
    if after.exclusive() {
        after.addresses().lemma_multiset_has_no_duplicates();
        before.addresses().lemma_multiset_has_no_duplicates_conv();
    }
    before.addresses().to_multiset_ensures();
    after.addresses().to_multiset_ensures();
    assert forall|address: Seq<char>| before.contains(address) == after.contains(address) by {
        to_multiset_contains(before.addresses(), address);
        to_multiset_contains(after.addresses(), address);
    }
}

/// In an exclusive ledger the bucket that holds an address is its only
/// bucket, and so the first in any order of search.
pub proof fn lemma_exclusive_home(ledger: LedgerView, b: Bucket, address: Seq<char>)
    requires
        ledger.exclusive(),
        ledger.holds(b, address),
    ensures
        ledger.home(address) == Some(b),
        forall|other: Bucket| other != b ==> !ledger.holds(other, address),
{
    broadcast use vstd::multiset::group_multiset_axioms;

    lemma_population_by_bucket(ledger);
    ledger.addresses().lemma_multiset_has_no_duplicates();
    assert forall|other: Bucket| ledger.holds(other, address) implies tally(ledger.bucket(other)).count(
        address,
    ) > 0 by {
        lemma_first(addresses(ledger.bucket(other)), address);
        to_multiset_contains(addresses(ledger.bucket(other)), address);
    }
    assert(ledger.population().count(address) <= 1);
    assert forall|other: Bucket| other != b implies !ledger.holds(other, address) by {
        if ledger.holds(other, address) {
            assert(tally(ledger.bucket(other)).count(address) > 0);
            assert(tally(ledger.bucket(b)).count(address) > 0);
        }
    }
}

/// The entry that a move puts into its target bucket is held there.
pub proof fn lemma_relocate_lands(ledger: LedgerView, from: Bucket, i: int, to: Bucket, now: i64)
    requires
        0 <= i < ledger.bucket(from).len(),
    ensures
        ledger.relocate(from, i, to, now).holds(to, ledger.bucket(from)[i].instance.address),
{
    let address = ledger.bucket(from)[i].instance.address;
    let target = ledger.relocate(from, i, to, now).bucket(to);
    assert(addresses(target)[target.len() - 1] == address);
    lemma_first(addresses(target), address);
}

/// `kill` keeps the population, and with it exclusivity, the number of
/// instances and which addresses are held. The instance it moves is then held by the bucket that the
/// table of `kill` names; where it moves none, the ledger is unchanged.
pub proof fn lemma_kill(ledger: LedgerView, address: Seq<char>, now: i64)
    ensures
        ledger.kill(address, now).population() == ledger.population(),
        ledger.exclusive() ==> ledger.kill(address, now).exclusive(),
        ledger.kill(address, now).count() == ledger.count(),
        forall|other: Seq<char>| #[trigger]
            ledger.kill(address, now).contains(other) == ledger.contains(other),
        match ledger.kill_source(address) {
            Some(from) => ledger.kill(address, now).holds(kill_target(from).unwrap(), address),
            None => ledger.kill(address, now) == ledger,
        },
{
    match ledger.kill_source(address) {
        Some(from) => {
            lemma_first(addresses(ledger.bucket(from)), address);
            let i = ledger.at(from, address).unwrap();
            lemma_relocate_population(ledger, from, i, kill_target(from).unwrap(), now);
            lemma_relocate_lands(ledger, from, i, kill_target(from).unwrap(), now);
        },
        None => {},
    }
    lemma_exclusive_by_population(ledger, ledger.kill(address, now));
}

/// `rest` keeps the population, and with it exclusivity, the number of
/// instances and which addresses are held. The instance it moves is then held by the bucket that the
/// table of `rest` names; where it moves none, the ledger is unchanged.
pub proof fn lemma_rest(ledger: LedgerView, address: Seq<char>)
    ensures
        ledger.rest(address).population() == ledger.population(),
        ledger.exclusive() ==> ledger.rest(address).exclusive(),
        ledger.rest(address).count() == ledger.count(),
        forall|other: Seq<char>| #[trigger]
            ledger.rest(address).contains(other) == ledger.contains(other),
        match ledger.rest_source(address) {
            Some(from) => ledger.rest(address).holds(rest_target(from).unwrap(), address),
            None => ledger.rest(address) == ledger,
        },
{
    match ledger.rest_source(address) {
        Some(from) => {
            lemma_first(addresses(ledger.bucket(from)), address);
            let i = ledger.at(from, address).unwrap();
            lemma_relocate_population(ledger, from, i, rest_target(from).unwrap(), 0);
            lemma_relocate_lands(ledger, from, i, rest_target(from).unwrap(), 0);
        },
        None => {},
    }
    lemma_exclusive_by_population(ledger, ledger.rest(address));
}

/// `revive` keeps the population, and with it exclusivity, the number of
/// instances and which addresses are held. The instance it moves is then held by the bucket that the
/// table of `revive` names; where it moves none, the ledger is unchanged.
pub proof fn lemma_revive(ledger: LedgerView, address: Seq<char>)
    ensures
        ledger.revive(address).population() == ledger.population(),
        ledger.exclusive() ==> ledger.revive(address).exclusive(),
        ledger.revive(address).count() == ledger.count(),
        forall|other: Seq<char>| #[trigger]
            ledger.revive(address).contains(other) == ledger.contains(other),
        match ledger.revive_source(address) {
            Some(from) => ledger.revive(address).holds(revive_target(from).unwrap(), address),
            None => ledger.revive(address) == ledger,
        },
{
    match ledger.revive_source(address) {
        Some(from) => {
            lemma_first(addresses(ledger.bucket(from)), address);
            let i = ledger.at(from, address).unwrap();
            lemma_relocate_population(ledger, from, i, revive_target(from).unwrap(), 0);
            lemma_relocate_lands(ledger, from, i, revive_target(from).unwrap(), 0);
        },
        None => {},
    }
    lemma_exclusive_by_population(ledger, ledger.revive(address));
}

/// Filling the hot pool keeps the population, and with it exclusivity and
/// the number of instances.
pub proof fn lemma_replenish(ledger: LedgerView, quota: nat)
    ensures
        ledger.replenish(quota).population() == ledger.population(),
        ledger.exclusive() ==> ledger.replenish(quota).exclusive(),
        ledger.replenish(quota).count() == ledger.count(),
    decreases ledger.recovered.len() + ledger.stashed.len(),
{
    if ledger.hot.len() >= quota {
    } else if ledger.recovered.len() > 0 {
        let next = ledger.relocate(Bucket::Recovered, ledger.recovered.len() - 1, Bucket::Hot, 0);
        lemma_relocate_population(ledger, Bucket::Recovered, ledger.recovered.len() - 1, Bucket::Hot, 0);
        lemma_replenish(next, quota);
    } else if ledger.stashed.len() > 0 {
        let next = ledger.relocate(Bucket::Stashed, ledger.stashed.len() - 1, Bucket::Hot, 0);
        lemma_relocate_population(ledger, Bucket::Stashed, ledger.stashed.len() - 1, Bucket::Hot, 0);
        lemma_replenish(next, quota);
    }
    lemma_exclusive_by_population(ledger, ledger.replenish(quota));
}

/// Filling the hot pool is a no-op where both donor buckets are empty or
/// the pool is full, and it comes to rest: filling a filled pool again
/// changes nothing.
pub proof fn lemma_replenish_settles(ledger: LedgerView, quota: nat)
    ensures
        ledger.recovered.len() == 0 && ledger.stashed.len() == 0 ==> ledger.replenish(quota)
            == ledger,
        ledger.hot.len() >= quota ==> ledger.replenish(quota) == ledger,
        ledger.replenish(quota).replenish(quota) == ledger.replenish(quota),
        ledger.replenish(quota).hot.len() >= quota || (ledger.replenish(quota).recovered.len() == 0
            && ledger.replenish(quota).stashed.len() == 0),
    decreases ledger.recovered.len() + ledger.stashed.len(),
{
    if ledger.hot.len() >= quota {
    } else if ledger.recovered.len() > 0 {
        lemma_replenish_settles(
            ledger.relocate(Bucket::Recovered, ledger.recovered.len() - 1, Bucket::Hot, 0),
            quota,
        );
    } else if ledger.stashed.len() > 0 {
        lemma_replenish_settles(
            ledger.relocate(Bucket::Stashed, ledger.stashed.len() - 1, Bucket::Hot, 0),
            quota,
        );
    }
}

/// Applying a probe outcome keeps the population, and with it exclusivity
/// and the number of instances.
pub proof fn lemma_update_single(
    ledger: LedgerView,
    address: Seq<char>,
    health: Health,
    quota: nat,
    now: i64,
)
    ensures
        ledger.update_single(address, health, quota, now).population() == ledger.population(),
        ledger.exclusive() ==> ledger.update_single(address, health, quota, now).exclusive(),
        ledger.update_single(address, health, quota, now).count() == ledger.count(),
{
    lemma_kill(ledger, address, now);
    lemma_rest(ledger, address);
    lemma_revive(ledger, address);
    lemma_replenish(ledger.kill(address, now), quota);
    lemma_replenish(ledger.rest(address), quota);
    lemma_replenish(ledger.revive(address), quota);
}

/// `add_backer` changes no address, so it keeps the population, and with
/// it exclusivity and the number of instances.
pub proof fn lemma_add_backer(ledger: LedgerView, address: Seq<char>, ip: Seq<char>)
    ensures
        ledger.add_backer(address, ip).population() == ledger.population(),
        ledger.exclusive() ==> ledger.add_backer(address, ip).exclusive(),
        ledger.add_backer(address, ip).count() == ledger.count(),
{
    match ledger.home(address) {
        Some(b) => {
            lemma_first(addresses(ledger.bucket(b)), address);
            let i = ledger.at(b, address).unwrap();
            let bucket = ledger.bucket(b).update(i, ledger.bucket(b)[i].confirmed(ip));
            assert(addresses(bucket) =~= addresses(ledger.bucket(b)));
            lemma_with_bucket_population(ledger, b, bucket);
            assert(ledger.add_backer(address, ip).population() =~= ledger.population());
        },
        None => {},
    }
    lemma_exclusive_by_population(ledger, ledger.add_backer(address, ip));
}

/// `update_weight` changes no address, so it keeps the population, and
/// with it exclusivity and the number of instances.
pub proof fn lemma_update_weight(ledger: LedgerView, address: Seq<char>, multiplier: u64)
    ensures
        ledger.update_weight(address, multiplier).population() == ledger.population(),
        ledger.exclusive() ==> ledger.update_weight(address, multiplier).exclusive(),
        ledger.update_weight(address, multiplier).count() == ledger.count(),
{
    match ledger.at(Bucket::Hot, address) {
        Some(i) => {
            lemma_first(addresses(ledger.hot), address);
            let bucket = ledger.hot.update(i, ledger.hot[i].reweighed(multiplier));
            assert(addresses(bucket) =~= addresses(ledger.hot));
            lemma_with_bucket_population(ledger, Bucket::Hot, bucket);
            assert(ledger.with_bucket(Bucket::Hot, bucket) == ledger.update_weight(address, multiplier));
            assert(ledger.update_weight(address, multiplier).population() =~= ledger.population());
        },
        None => {},
    }
    lemma_exclusive_by_population(ledger, ledger.update_weight(address, multiplier));
}

/// What `kill` does to an address in an exclusive ledger. An address that
/// the ledger holds is held afterwards, and an unknown one is not. Where
/// the table of `kill` has a row for the bucket that holds the address,
/// its one bucket is then the target that the row names. Where it has none,
/// because the instance is dead already, or where the address is unknown,
/// the ledger is unchanged.
pub proof fn lemma_kill_total(ledger: LedgerView, address: Seq<char>, now: i64)
    requires
        ledger.exclusive(),
    ensures
        ledger.contains(address) <==> ledger.home(address) is Some,
        ledger.kill(address, now).contains(address) == ledger.contains(address),
        match ledger.home(address) {
            Some(b) => match kill_target(b) {
                Some(target) => ledger.kill(address, now).home(address) == Some(target),
                None => ledger.kill(address, now) == ledger,
            },
            None => ledger.kill(address, now) == ledger,
        },
{
    lemma_kill(ledger, address, now);
    lemma_contains_home(ledger, address);
    match ledger.home(address) {
        Some(b) => {
            lemma_exclusive_home(ledger, b, address);
            match kill_target(b) {
                Some(target) => {
                    lemma_exclusive_home(ledger.kill(address, now), target, address);
                },
                None => {},
            }
        },
        None => {},
    }
}

/// What `rest` does to an address in an exclusive ledger. An address that
/// the ledger holds is held afterwards, and an unknown one is not. Where
/// the table of `rest` has a row for the bucket that holds the address,
/// its one bucket is then the target that the row names. Where it has none,
/// because the instance is recovering already, or where the address is unknown,
/// the ledger is unchanged.
pub proof fn lemma_rest_total(ledger: LedgerView, address: Seq<char>)
    requires
        ledger.exclusive(),
    ensures
        ledger.contains(address) <==> ledger.home(address) is Some,
        ledger.rest(address).contains(address) == ledger.contains(address),
        match ledger.home(address) {
            Some(b) => match rest_target(b) {
                Some(target) => ledger.rest(address).home(address) == Some(target),
                None => ledger.rest(address) == ledger,
            },
            None => ledger.rest(address) == ledger,
        },
{
    lemma_rest(ledger, address);
    lemma_contains_home(ledger, address);
    match ledger.home(address) {
        Some(b) => {
            lemma_exclusive_home(ledger, b, address);
            match rest_target(b) {
                Some(target) => {
                    lemma_exclusive_home(ledger.rest(address), target, address);
                },
                None => {},
            }
        },
        None => {},
    }
}

/// What `revive` does to an address in an exclusive ledger. An address that
/// the ledger holds is held afterwards, and an unknown one is not. Where
/// the table of `revive` has a row for the bucket that holds the address,
/// its one bucket is then the target that the row names. Where it has none,
/// because the instance is up already, or where the address is unknown,
/// the ledger is unchanged.
pub proof fn lemma_revive_total(ledger: LedgerView, address: Seq<char>)
    requires
        ledger.exclusive(),
    ensures
        ledger.contains(address) <==> ledger.home(address) is Some,
        ledger.revive(address).contains(address) == ledger.contains(address),
        match ledger.home(address) {
            Some(b) => match revive_target(b) {
                Some(target) => ledger.revive(address).home(address) == Some(target),
                None => ledger.revive(address) == ledger,
            },
            None => ledger.revive(address) == ledger,
        },
{
    lemma_revive(ledger, address);
    lemma_contains_home(ledger, address);
    match ledger.home(address) {
        Some(b) => {
            lemma_exclusive_home(ledger, b, address);
            match revive_target(b) {
                Some(target) => {
                    lemma_exclusive_home(ledger.revive(address), target, address);
                },
                None => {},
            }
        },
        None => {},
    }
}

/// One change that the ledger's operations can make to it.
pub enum Transition {
    Kill { address: Seq<char>, now: i64 },
    Rest { address: Seq<char> },
    Revive { address: Seq<char> },
    Replenish { quota: nat },
    Update { address: Seq<char>, health: Health, quota: nat, now: i64 },
    AddBacker { address: Seq<char>, ip: Seq<char> },
    UpdateWeight { address: Seq<char>, multiplier: u64 },
}

impl LedgerView {
    /// The ledger after one transition.
    pub open spec fn step(self, transition: Transition) -> LedgerView {
        match transition {
            Transition::Kill { address, now } => self.kill(address, now),
            Transition::Rest { address } => self.rest(address),
            Transition::Revive { address } => self.revive(address),
            Transition::Replenish { quota } => self.replenish(quota),
            Transition::Update { address, health, quota, now } => self.update_single(
                address,
                health,
                quota,
                now,
            ),
            Transition::AddBacker { address, ip } => self.add_backer(address, ip),
            Transition::UpdateWeight { address, multiplier } => self.update_weight(
                address,
                multiplier,
            ),
        }
    }

    /// The ledger after a sequence of transitions, first to last.
    pub open spec fn run(self, transitions: Seq<Transition>) -> LedgerView
        decreases transitions.len(),
    {
        if transitions.len() == 0 {
            self
        } else {
            self.run(transitions.drop_last()).step(transitions.last())
        }
    }
}

/// Whatever sequence of transitions is applied to a
/// ledger, its population stays the same. So no instance is ever lost or
/// added by a transition, and a ledger in which no address occurs twice
/// stays one.
pub proof fn lemma_run_exclusive(ledger: LedgerView, transitions: Seq<Transition>)
    ensures
        ledger.run(transitions).population() == ledger.population(),
        ledger.exclusive() ==> ledger.run(transitions).exclusive(),
        ledger.run(transitions).count() == ledger.count(),
    decreases transitions.len(),
{
    if transitions.len() > 0 {
        let before = ledger.run(transitions.drop_last());
        lemma_run_exclusive(ledger, transitions.drop_last());
        match transitions.last() {
            Transition::Kill { address, now } => lemma_kill(before, address, now),
            Transition::Rest { address } => lemma_rest(before, address),
            Transition::Revive { address } => lemma_revive(before, address),
            Transition::Replenish { quota } => lemma_replenish(before, quota),
            Transition::Update { address, health, quota, now } => lemma_update_single(
                before,
                address,
                health,
                quota,
                now,
            ),
            Transition::AddBacker { address, ip } => lemma_add_backer(before, address, ip),
            Transition::UpdateWeight { address, multiplier } => lemma_update_weight(
                before,
                address,
                multiplier,
            ),
        }
        lemma_exclusive_by_population(ledger, ledger.run(transitions));
    }
}

} // verus!
