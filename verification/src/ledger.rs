//! The region ledger: eight buckets of instances, one per lifecycle state,
//! and the rules by which an instance moves between them.

use vstd::prelude::*;
use crate::clock::unix_now;
use crate::config::PollingFeaturesConfig;
use crate::instances::{
    addresses, collect_addresses, confirm_in, entries, extend_with, find, DeadRecord, Entry,
    HotRecord, InstanceRecord, scaled, DEFAULT_WEIGHT,
};
use crate::ledger_laws::{
    lemma_add_backer, lemma_kill, lemma_replenish, lemma_replenish_settles, lemma_rest, lemma_revive,
    lemma_update_single, lemma_update_weight,
};
use crate::polling::{Health, PolledSingleRecord};
use crate::text::{lemma_concat_contains, lemma_first, slice_texts};

verus! {

/// A lifecycle state, and with it the bucket of the ledger that holds the
/// instances in that state.
#[derive(Clone, Copy, PartialEq, Eq, Structural, Debug)]
pub enum Bucket {
    Hot,
    Recovered,
    Recovering,
    Dead,
    StashedRecovering,
    StashedDead,
    Stashed,
    Pending,
}

impl Bucket {
    /// Whether the bucket keeps a weight with each instance.
    pub open spec fn weighted(self) -> bool {
        self is Hot || self is Recovered || self is Recovering || self is Dead
    }

    /// Whether the bucket keeps a time of death with each instance.
    pub open spec fn dated(self) -> bool {
        self is Dead || self is StashedDead
    }
}

impl Entry {
    /// The entry as it is kept by bucket `to`. A weight is carried over, or
    /// set to the default where the entry had none; `now` becomes the time
    /// of death. Each is dropped where the bucket does not keep it.
    pub open spec fn shaped(self, to: Bucket, now: i64) -> Entry {
        Entry {
            instance: self.instance,
            weight: if to.weighted() {
                Some(
                    match self.weight {
                        Some(w) => w,
                        None => DEFAULT_WEIGHT,
                    },
                )
            } else {
                None
            },
            dead_since: if to.dated() {
                Some(now)
            } else {
                None
            },
        }
    }
}

/// Where `kill` sends an instance found in bucket `from`, if it moves it.
pub open spec fn kill_target(from: Bucket) -> Option<Bucket> {
    match from {
        Bucket::Hot | Bucket::Recovered | Bucket::Recovering => Some(Bucket::Dead),
        Bucket::StashedRecovering | Bucket::Stashed | Bucket::Pending => Some(Bucket::StashedDead),
        Bucket::Dead | Bucket::StashedDead => None,
    }
}

/// Where `rest` sends an instance found in bucket `from`, if it moves it.
pub open spec fn rest_target(from: Bucket) -> Option<Bucket> {
    match from {
        Bucket::Hot | Bucket::Recovered | Bucket::Dead => Some(Bucket::Recovering),
        Bucket::Stashed | Bucket::StashedDead | Bucket::Pending => Some(Bucket::StashedRecovering),
        Bucket::Recovering | Bucket::StashedRecovering => None,
    }
}

/// Where `revive` sends an instance found in bucket `from`, if it moves it.
pub open spec fn revive_target(from: Bucket) -> Option<Bucket> {
    match from {
        Bucket::Dead | Bucket::Recovering => Some(Bucket::Recovered),
        Bucket::StashedDead | Bucket::StashedRecovering | Bucket::Pending => Some(Bucket::Stashed),
        Bucket::Hot | Bucket::Recovered | Bucket::Stashed => None,
    }
}

/// The ledger of one region as mathematical values: the entries of each of
/// its eight buckets, in order.
pub struct LedgerView {
    pub hot: Seq<Entry>,
    pub recovered: Seq<Entry>,
    pub recovering: Seq<Entry>,
    pub dead: Seq<Entry>,
    pub stashed_recovering: Seq<Entry>,
    pub stashed_dead: Seq<Entry>,
    pub stashed: Seq<Entry>,
    pub pending: Seq<Entry>,
}

impl LedgerView {
    /// The ledger with no instance.
    pub open spec fn empty() -> LedgerView {
        LedgerView {
            hot: Seq::empty(),
            recovered: Seq::empty(),
            recovering: Seq::empty(),
            dead: Seq::empty(),
            stashed_recovering: Seq::empty(),
            stashed_dead: Seq::empty(),
            stashed: Seq::empty(),
            pending: Seq::empty(),
        }
    }

    /// The entries of bucket `b`.
    pub open spec fn bucket(self, b: Bucket) -> Seq<Entry> {
        match b {
            Bucket::Hot => self.hot,
            Bucket::Recovered => self.recovered,
            Bucket::Recovering => self.recovering,
            Bucket::Dead => self.dead,
            Bucket::StashedRecovering => self.stashed_recovering,
            Bucket::StashedDead => self.stashed_dead,
            Bucket::Stashed => self.stashed,
            Bucket::Pending => self.pending,
        }
    }

    /// The ledger with `entries` as bucket `b`.
    pub open spec fn with_bucket(self, b: Bucket, entries: Seq<Entry>) -> LedgerView {
        match b {
            Bucket::Hot => LedgerView { hot: entries, ..self },
            Bucket::Recovered => LedgerView { recovered: entries, ..self },
            Bucket::Recovering => LedgerView { recovering: entries, ..self },
            Bucket::Dead => LedgerView { dead: entries, ..self },
            Bucket::StashedRecovering => LedgerView { stashed_recovering: entries, ..self },
            Bucket::StashedDead => LedgerView { stashed_dead: entries, ..self },
            Bucket::Stashed => LedgerView { stashed: entries, ..self },
            Bucket::Pending => LedgerView { pending: entries, ..self },
        }
    }

    /// Every entry of the ledger, bucket after bucket, in the order in
    /// which the ledger is scanned for an address.
    pub open spec fn all(self) -> Seq<Entry> {
        self.hot + self.recovered + self.recovering + self.dead + self.stashed_dead
            + self.stashed_recovering + self.stashed + self.pending
    }

    /// Every address of the ledger, in scan order.
    pub open spec fn addresses(self) -> Seq<Seq<char>> {
        addresses(self.all())
    }

    /// Whether some bucket holds the address.
    pub open spec fn contains(self, address: Seq<char>) -> bool {
        self.addresses().contains(address)
    }

    /// Whether no address occurs twice in the ledger, neither
    /// in two buckets nor twice in one.
    pub open spec fn exclusive(self) -> bool {
        self.addresses().no_duplicates()
    }

    /// The number of instances in the ledger.
    pub open spec fn count(self) -> nat {
        self.all().len()
    }

    /// Index of the first entry of bucket `b` with the address, if any.
    pub open spec fn at(self, b: Bucket, address: Seq<char>) -> Option<int> {
        addresses(self.bucket(b)).index_of_first(address)
    }

    /// Whether bucket `b` holds the address.
    pub open spec fn holds(self, b: Bucket, address: Seq<char>) -> bool {
        self.at(b, address) is Some
    }

    /// The ledger after the entry at index `i` of bucket `from` has moved
    /// to the end of bucket `to`, shaped as `to` keeps its entries.
    pub open spec fn relocate(self, from: Bucket, i: int, to: Bucket, now: i64) -> LedgerView {
        let moved = self.bucket(from)[i].shaped(to, now);
        let taken = self.with_bucket(from, self.bucket(from).remove(i));
        taken.with_bucket(to, taken.bucket(to).push(moved))
    }

    /// The first bucket, in the order `kill` searches, that holds the
    /// address, among the buckets that `kill` moves an instance from.
    pub open spec fn kill_source(self, address: Seq<char>) -> Option<Bucket> {
        if self.holds(Bucket::Hot, address) {
            Some(Bucket::Hot)
        } else if self.holds(Bucket::Recovered, address) {
            Some(Bucket::Recovered)
        } else if self.holds(Bucket::Recovering, address) {
            Some(Bucket::Recovering)
        } else if self.holds(Bucket::StashedRecovering, address) {
            Some(Bucket::StashedRecovering)
        } else if self.holds(Bucket::Stashed, address) {
            Some(Bucket::Stashed)
        } else if self.holds(Bucket::Pending, address) {
            Some(Bucket::Pending)
        } else {
            None
        }
    }

    /// The first bucket, in the order `rest` searches, that holds the
    /// address, among the buckets that `rest` moves an instance from.
    pub open spec fn rest_source(self, address: Seq<char>) -> Option<Bucket> {
        if self.holds(Bucket::Hot, address) {
            Some(Bucket::Hot)
        } else if self.holds(Bucket::Recovered, address) {
            Some(Bucket::Recovered)
        } else if self.holds(Bucket::Dead, address) {
            Some(Bucket::Dead)
        } else if self.holds(Bucket::Stashed, address) {
            Some(Bucket::Stashed)
        } else if self.holds(Bucket::StashedDead, address) {
            Some(Bucket::StashedDead)
        } else if self.holds(Bucket::Pending, address) {
            Some(Bucket::Pending)
        } else {
            None
        }
    }

    /// The first bucket, in the order `revive` searches, that holds the
    /// address, among the buckets that `revive` moves an instance from.
    pub open spec fn revive_source(self, address: Seq<char>) -> Option<Bucket> {
        if self.holds(Bucket::Dead, address) {
            Some(Bucket::Dead)
        } else if self.holds(Bucket::Recovering, address) {
            Some(Bucket::Recovering)
        } else if self.holds(Bucket::StashedDead, address) {
            Some(Bucket::StashedDead)
        } else if self.holds(Bucket::StashedRecovering, address) {
            Some(Bucket::StashedRecovering)
        } else if self.holds(Bucket::Pending, address) {
            Some(Bucket::Pending)
        } else {
            None
        }
    }

    /// The ledger after the instance was found dead at time `now`. A served
    /// or recovering instance goes to `dead` with its weight; one that never
    /// was served goes to `stashed_dead`. An instance that is dead already,
    /// or unknown, leaves the ledger as it is.
    pub open spec fn kill(self, address: Seq<char>, now: i64) -> LedgerView {
        match self.kill_source(address) {
            Some(from) => self.relocate(
                from,
                self.at(from, address).unwrap(),
                kill_target(from).unwrap(),
                now,
            ),
            None => self,
        }
    }

    /// The ledger after the instance answered some probes and failed
    /// others. An instance that is resting already, or unknown, leaves the
    /// ledger as it is.
    pub open spec fn rest(self, address: Seq<char>) -> LedgerView {
        match self.rest_source(address) {
            Some(from) => self.relocate(
                from,
                self.at(from, address).unwrap(),
                rest_target(from).unwrap(),
                0,
            ),
            None => self,
        }
    }

    /// The ledger after the instance answered every probe. An instance that
    /// is up already, or unknown, leaves the ledger as it is.
    pub open spec fn revive(self, address: Seq<char>) -> LedgerView {
        match self.revive_source(address) {
            Some(from) => self.relocate(
                from,
                self.at(from, address).unwrap(),
                revive_target(from).unwrap(),
                0,
            ),
            None => self,
        }
    }
}

impl Entry {
    /// The entry with its weight, where it has one, multiplied by
    /// `multiplier`.
    pub open spec fn reweighed(self, multiplier: u64) -> Entry {
        Entry {
            weight: match self.weight {
                Some(w) => Some(scaled(w, multiplier)),
                None => None,
            },
            ..self
        }
    }
}

impl LedgerView {
    /// The first bucket, in scan order, that holds the address.
    pub open spec fn home(self, address: Seq<char>) -> Option<Bucket> {
        if self.holds(Bucket::Hot, address) {
            Some(Bucket::Hot)
        } else if self.holds(Bucket::Recovered, address) {
            Some(Bucket::Recovered)
        } else if self.holds(Bucket::Recovering, address) {
            Some(Bucket::Recovering)
        } else if self.holds(Bucket::Dead, address) {
            Some(Bucket::Dead)
        } else if self.holds(Bucket::StashedDead, address) {
            Some(Bucket::StashedDead)
        } else if self.holds(Bucket::StashedRecovering, address) {
            Some(Bucket::StashedRecovering)
        } else if self.holds(Bucket::Stashed, address) {
            Some(Bucket::Stashed)
        } else if self.holds(Bucket::Pending, address) {
            Some(Bucket::Pending)
        } else {
            None
        }
    }

    /// The ledger after `ip` confirmed the instance: the first entry with
    /// the address, in scan order, has `ip` among its backers. An unknown
    /// address leaves the ledger as it is.
    pub open spec fn add_backer(self, address: Seq<char>, ip: Seq<char>) -> LedgerView {
        match self.home(address) {
            Some(b) => {
                let i = self.at(b, address).unwrap();
                self.with_bucket(b, self.bucket(b).update(i, self.bucket(b)[i].confirmed(ip)))
            },
            None => self,
        }
    }

    /// The ledger after the weight of the first hot entry with the address
    /// was multiplied by `multiplier`. An address that is not hot leaves the
    /// ledger as it is.
    pub open spec fn update_weight(self, address: Seq<char>, multiplier: u64) -> LedgerView {
        match self.at(Bucket::Hot, address) {
            Some(i) => LedgerView { hot: self.hot.update(i, self.hot[i].reweighed(multiplier)), ..self },
            None => self,
        }
    }

    /// The ledger after the hot pool was filled up: while it holds fewer
    /// than `quota` instances, the last entry of `recovered` joins it with
    /// its weight, or, where `recovered` is empty, the last entry of
    /// `stashed` with the default weight, until both are empty.
    pub open spec fn replenish(self, quota: nat) -> LedgerView
        decreases self.recovered.len() + self.stashed.len(),
    {
        if self.hot.len() >= quota {
            self
        } else if self.recovered.len() > 0 {
            self.relocate(Bucket::Recovered, self.recovered.len() - 1, Bucket::Hot, 0).replenish(quota)
        } else if self.stashed.len() > 0 {
            self.relocate(Bucket::Stashed, self.stashed.len() - 1, Bucket::Hot, 0).replenish(quota)
        } else {
            self
        }
    }

    /// The ledger after a probe outcome of the given health was applied to
    /// the instance: revived when well, killed at time `now` when dead,
    /// rested when partial, and the hot pool filled up to `quota`. An
    /// unknown address leaves the ledger as it is.
    pub open spec fn update_single(
        self,
        address: Seq<char>,
        health: Health,
        quota: nat,
        now: i64,
    ) -> LedgerView {
        if !self.contains(address) {
            self
        } else {
            (match health {
                Health::Well => self.revive(address),
                Health::Dead => self.kill(address, now),
                Health::Partial => self.rest(address),
            }).replenish(quota)
        }
    }

    /// The number of instances that are up: hot, recovered or stashed.
    pub open spec fn up(self) -> nat {
        self.hot.len() + self.recovered.len() + self.stashed.len()
    }

    /// The number of instances that are recovering, served before or not.
    pub open spec fn resting(self) -> nat {
        self.recovering.len() + self.stashed_recovering.len()
    }

    /// The number of instances that are dead, served before or not.
    pub open spec fn gone(self) -> nat {
        self.dead.len() + self.stashed_dead.len()
    }

    /// The number of instances that wait for their first probe.
    pub open spec fn waiting(self) -> nat {
        self.pending.len()
    }
}

/// An address is in the ledger exactly when some bucket holds it.
pub proof fn lemma_contains_home(ledger: LedgerView, address: Seq<char>)
    ensures
        ledger.contains(address) <==> ledger.home(address) is Some,
{
    let a = addresses(ledger.hot);
    let b = addresses(ledger.recovered);
    let c = addresses(ledger.recovering);
    let d = addresses(ledger.dead);
    let e = addresses(ledger.stashed_dead);
    let f = addresses(ledger.stashed_recovering);
    let g = addresses(ledger.stashed);
    let h = addresses(ledger.pending);
    lemma_first(a, address);
    lemma_first(b, address);
    lemma_first(c, address);
    lemma_first(d, address);
    lemma_first(e, address);
    lemma_first(f, address);
    lemma_first(g, address);
    lemma_first(h, address);
    assert(ledger.addresses() =~= a + b + c + d + e + f + g + h);
    lemma_concat_contains(a, b, address);
    lemma_concat_contains(a + b, c, address);
    lemma_concat_contains(a + b + c, d, address);
    lemma_concat_contains(a + b + c + d, e, address);
    lemma_concat_contains(a + b + c + d + e, f, address);
    lemma_concat_contains(a + b + c + d + e + f, g, address);
    lemma_concat_contains(a + b + c + d + e + f + g, h, address);
}

/// The ledger of one region: every instance ever reported for it, in the
/// bucket of its lifecycle state.
#[derive(PartialEq, Eq, Debug)]
pub struct RegionRecords {
    /// Instances that are served.
    pub hot: Vec<HotRecord>,
    /// Instances that answered every probe again and wait for a place in
    /// the hot pool.
    pub recovered: Vec<HotRecord>,
    /// Instances that were served and now answer only some probes.
    pub recovering: Vec<HotRecord>,
    /// Instances that were served and now answer no probe, each with the
    /// weight it had.
    pub dead: Vec<(DeadRecord, u64)>,
    /// Instances that never were served and answer only some probes.
    pub stashed_recovering: Vec<InstanceRecord>,
    /// Instances that never were served and answer no probe.
    pub stashed_dead: Vec<DeadRecord>,
    /// Instances that never were served and answer every probe.
    pub stashed: Vec<InstanceRecord>,
    /// Instances that were reported and not probed yet.
    pub pending: Vec<InstanceRecord>,
}

impl View for RegionRecords {
    type V = LedgerView;

    open spec fn view(&self) -> LedgerView {
        LedgerView {
            hot: entries(self.hot@),
            recovered: entries(self.recovered@),
            recovering: entries(self.recovering@),
            dead: entries(self.dead@),
            stashed_recovering: entries(self.stashed_recovering@),
            stashed_dead: entries(self.stashed_dead@),
            stashed: entries(self.stashed@),
            pending: entries(self.pending@),
        }
    }
}

impl RegionRecords {
    /// Moves the instance to the bucket of the dead, stamped with `now`:
    /// from `hot`, `recovered` or `recovering` to `dead`, with its weight;
    /// from `stashed_recovering`, `stashed` or `pending` to `stashed_dead`.
    /// An instance that is dead already stays where it is, with the time of
    /// death it has. Returns whether the ledger holds the instance; if not,
    /// the ledger is unchanged.
    pub fn kill_at(&mut self, instance: &str, now: i64) -> (found: bool)
        ensures
            final(self)@ == old(self)@.kill(instance@, now),
            found == old(self)@.contains(instance@),
            final(self)@.contains(instance@) == old(self)@.contains(instance@),
            old(self)@.exclusive() ==> final(self)@.exclusive(),
            final(self)@.count() == old(self)@.count(),
    {
        proof {
            lemma_kill(self@, instance@, now);
            lemma_contains_home(self@, instance@);
        }
        if let Some(i) = find(&self.hot, instance) {
            let removed = self.hot.remove(i);
            self.dead.push((DeadRecord { instance: removed.instance, dead_since: now }, removed.weight));
            assert(self@.hot =~= old(self)@.hot.remove(i as int));
            assert(self@.dead =~= old(self)@.dead.push(
                old(self)@.hot[i as int].shaped(Bucket::Dead, now),
            ));
            return true;
        }
        if let Some(i) = find(&self.recovered, instance) {
            let removed = self.recovered.remove(i);
            self.dead.push((DeadRecord { instance: removed.instance, dead_since: now }, removed.weight));
            assert(self@.recovered =~= old(self)@.recovered.remove(i as int));
            assert(self@.dead =~= old(self)@.dead.push(
                old(self)@.recovered[i as int].shaped(Bucket::Dead, now),
            ));
            return true;
        }
        if let Some(i) = find(&self.recovering, instance) {
            let removed = self.recovering.remove(i);
            self.dead.push((DeadRecord { instance: removed.instance, dead_since: now }, removed.weight));
            assert(self@.recovering =~= old(self)@.recovering.remove(i as int));
            assert(self@.dead =~= old(self)@.dead.push(
                old(self)@.recovering[i as int].shaped(Bucket::Dead, now),
            ));
            return true;
        }
        if let Some(i) = find(&self.stashed_recovering, instance) {
            let removed = self.stashed_recovering.remove(i);
            self.stashed_dead.push(DeadRecord { instance: removed, dead_since: now });
            assert(self@.stashed_recovering =~= old(self)@.stashed_recovering.remove(i as int));
            assert(self@.stashed_dead =~= old(self)@.stashed_dead.push(
                old(self)@.stashed_recovering[i as int].shaped(Bucket::StashedDead, now),
            ));
            return true;
        }
        if let Some(i) = find(&self.stashed, instance) {
            let removed = self.stashed.remove(i);
            self.stashed_dead.push(DeadRecord { instance: removed, dead_since: now });
            assert(self@.stashed =~= old(self)@.stashed.remove(i as int));
            assert(self@.stashed_dead =~= old(self)@.stashed_dead.push(
                old(self)@.stashed[i as int].shaped(Bucket::StashedDead, now),
            ));
            return true;
        }
        if let Some(i) = find(&self.pending, instance) {
            let removed = self.pending.remove(i);
            self.stashed_dead.push(DeadRecord { instance: removed, dead_since: now });
            assert(self@.pending =~= old(self)@.pending.remove(i as int));
            assert(self@.stashed_dead =~= old(self)@.stashed_dead.push(
                old(self)@.pending[i as int].shaped(Bucket::StashedDead, now),
            ));
            return true;
        }
        find(&self.dead, instance).is_some() || find(&self.stashed_dead, instance).is_some()
    }

    /// Moves the instance to the bucket of the recovering: from `hot`,
    /// `recovered` or `dead` to `recovering`, with its weight; from
    /// `stashed`, `stashed_dead` or `pending` to `stashed_recovering`.
    /// An instance that is recovering already stays where it is. Returns
    /// whether the ledger holds the instance; if not, the ledger is
    /// unchanged.
    pub fn rest(&mut self, instance: &str) -> (found: bool)
        ensures
            final(self)@ == old(self)@.rest(instance@),
            found == old(self)@.contains(instance@),
            final(self)@.contains(instance@) == old(self)@.contains(instance@),
            old(self)@.exclusive() ==> final(self)@.exclusive(),
            final(self)@.count() == old(self)@.count(),
    {
        proof {
            lemma_rest(self@, instance@);
            lemma_contains_home(self@, instance@);
        }
        if let Some(i) = find(&self.hot, instance) {
            let removed = self.hot.remove(i);
            self.recovering.push(removed);
            assert(self@.hot =~= old(self)@.hot.remove(i as int));
            assert(self@.recovering =~= old(self)@.recovering.push(
                old(self)@.hot[i as int].shaped(Bucket::Recovering, 0),
            ));
            return true;
        }
        if let Some(i) = find(&self.recovered, instance) {
            let removed = self.recovered.remove(i);
            self.recovering.push(removed);
            assert(self@.recovered =~= old(self)@.recovered.remove(i as int));
            assert(self@.recovering =~= old(self)@.recovering.push(
                old(self)@.recovered[i as int].shaped(Bucket::Recovering, 0),
            ));
            return true;
        }
        if let Some(i) = find(&self.dead, instance) {
            let removed = self.dead.remove(i);
            self.recovering.push(HotRecord { instance: removed.0.instance, weight: removed.1 });
            assert(self@.dead =~= old(self)@.dead.remove(i as int));
            assert(self@.recovering =~= old(self)@.recovering.push(
                old(self)@.dead[i as int].shaped(Bucket::Recovering, 0),
            ));
            return true;
        }
        if let Some(i) = find(&self.stashed, instance) {
            let removed = self.stashed.remove(i);
            self.stashed_recovering.push(removed);
            assert(self@.stashed =~= old(self)@.stashed.remove(i as int));
            assert(self@.stashed_recovering =~= old(self)@.stashed_recovering.push(
                old(self)@.stashed[i as int].shaped(Bucket::StashedRecovering, 0),
            ));
            return true;
        }
        if let Some(i) = find(&self.stashed_dead, instance) {
            let removed = self.stashed_dead.remove(i);
            self.stashed_recovering.push(removed.instance);
            assert(self@.stashed_dead =~= old(self)@.stashed_dead.remove(i as int));
            assert(self@.stashed_recovering =~= old(self)@.stashed_recovering.push(
                old(self)@.stashed_dead[i as int].shaped(Bucket::StashedRecovering, 0),
            ));
            return true;
        }
        if let Some(i) = find(&self.pending, instance) {
            let removed = self.pending.remove(i);
            self.stashed_recovering.push(removed);
            assert(self@.pending =~= old(self)@.pending.remove(i as int));
            assert(self@.stashed_recovering =~= old(self)@.stashed_recovering.push(
                old(self)@.pending[i as int].shaped(Bucket::StashedRecovering, 0),
            ));
            return true;
        }
        find(&self.recovering, instance).is_some() || find(
            &self.stashed_recovering,
            instance,
        ).is_some()
    }

    /// Moves the instance to the bucket of those that are up again: from
    /// `dead` or `recovering` to `recovered`, with its weight; from
    /// `stashed_dead`, `stashed_recovering` or `pending` to `stashed`.
    /// An instance that is up already stays where it is. Returns whether
    /// the ledger holds the instance; if not, the ledger is unchanged.
    pub fn revive(&mut self, instance: &str) -> (found: bool)
        ensures
            final(self)@ == old(self)@.revive(instance@),
            found == old(self)@.contains(instance@),
            final(self)@.contains(instance@) == old(self)@.contains(instance@),
            old(self)@.exclusive() ==> final(self)@.exclusive(),
            final(self)@.count() == old(self)@.count(),
    {
        proof {
            lemma_revive(self@, instance@);
            lemma_contains_home(self@, instance@);
        }
        if let Some(i) = find(&self.dead, instance) {
            let removed = self.dead.remove(i);
            self.recovered.push(HotRecord { instance: removed.0.instance, weight: removed.1 });
            assert(self@.dead =~= old(self)@.dead.remove(i as int));
            assert(self@.recovered =~= old(self)@.recovered.push(
                old(self)@.dead[i as int].shaped(Bucket::Recovered, 0),
            ));
            return true;
        }
        if let Some(i) = find(&self.recovering, instance) {
            let removed = self.recovering.remove(i);
            self.recovered.push(removed);
            assert(self@.recovering =~= old(self)@.recovering.remove(i as int));
            assert(self@.recovered =~= old(self)@.recovered.push(
                old(self)@.recovering[i as int].shaped(Bucket::Recovered, 0),
            ));
            return true;
        }
        if let Some(i) = find(&self.stashed_dead, instance) {
            let removed = self.stashed_dead.remove(i);
            self.stashed.push(removed.instance);
            assert(self@.stashed_dead =~= old(self)@.stashed_dead.remove(i as int));
            assert(self@.stashed =~= old(self)@.stashed.push(
                old(self)@.stashed_dead[i as int].shaped(Bucket::Stashed, 0),
            ));
            return true;
        }
        if let Some(i) = find(&self.stashed_recovering, instance) {
            let removed = self.stashed_recovering.remove(i);
            self.stashed.push(removed);
            assert(self@.stashed_recovering =~= old(self)@.stashed_recovering.remove(i as int));
            assert(self@.stashed =~= old(self)@.stashed.push(
                old(self)@.stashed_recovering[i as int].shaped(Bucket::Stashed, 0),
            ));
            return true;
        }
        if let Some(i) = find(&self.pending, instance) {
            let removed = self.pending.remove(i);
            self.stashed.push(removed);
            assert(self@.pending =~= old(self)@.pending.remove(i as int));
            assert(self@.stashed =~= old(self)@.stashed.push(
                old(self)@.pending[i as int].shaped(Bucket::Stashed, 0),
            ));
            return true;
        }
        find(&self.hot, instance).is_some() || find(&self.recovered, instance).is_some() || find(
            &self.stashed,
            instance,
        ).is_some()
    }

    /// Moves the instance to the bucket of the dead, stamped with the
    /// current time. See [`RegionRecords::kill_at`].
    pub fn kill(&mut self, instance: &str) -> (found: bool)
        ensures
            exists|now: i64| final(self)@ == old(self)@.kill(instance@, now),
            found == old(self)@.contains(instance@),
            final(self)@.contains(instance@) == old(self)@.contains(instance@),
            old(self)@.exclusive() ==> final(self)@.exclusive(),
            final(self)@.count() == old(self)@.count(),
    {
        let now = unix_now();
        self.kill_at(instance, now)
    }

    /// The bucket that holds the address: the first one in scan order.
    pub fn home(&self, instance: &str) -> (bucket: Option<Bucket>)
        ensures
            bucket == self@.home(instance@),
    {
        if find(&self.hot, instance).is_some() {
            Some(Bucket::Hot)
        } else if find(&self.recovered, instance).is_some() {
            Some(Bucket::Recovered)
        } else if find(&self.recovering, instance).is_some() {
            Some(Bucket::Recovering)
        } else if find(&self.dead, instance).is_some() {
            Some(Bucket::Dead)
        } else if find(&self.stashed_dead, instance).is_some() {
            Some(Bucket::StashedDead)
        } else if find(&self.stashed_recovering, instance).is_some() {
            Some(Bucket::StashedRecovering)
        } else if find(&self.stashed, instance).is_some() {
            Some(Bucket::Stashed)
        } else if find(&self.pending, instance).is_some() {
            Some(Bucket::Pending)
        } else {
            None
        }
    }

    /// Whether some bucket holds the address.
    pub fn contains(&self, instance: &str) -> (held: bool)
        ensures
            held == self@.contains(instance@),
    {
        proof {
            lemma_contains_home(self@, instance@);
        }
        find(&self.hot, instance).is_some() || find(&self.recovered, instance).is_some() || find(
            &self.recovering,
            instance,
        ).is_some() || find(&self.dead, instance).is_some() || find(
            &self.stashed_dead,
            instance,
        ).is_some() || find(&self.stashed_recovering, instance).is_some() || find(
            &self.stashed,
            instance,
        ).is_some() || find(&self.pending, instance).is_some()
    }

    /// Every address of the ledger, bucket after bucket in scan order.
    pub fn all_instances(&self) -> (all: Vec<&str>)
        ensures
            slice_texts(all@) == self@.addresses(),
    {
        let mut all: Vec<&str> = Vec::new();
        assert(slice_texts(all@) =~= Seq::<Seq<char>>::empty());
        collect_addresses(&self.hot, &mut all);
        collect_addresses(&self.recovered, &mut all);
        collect_addresses(&self.recovering, &mut all);
        collect_addresses(&self.dead, &mut all);
        collect_addresses(&self.stashed_dead, &mut all);
        collect_addresses(&self.stashed_recovering, &mut all);
        collect_addresses(&self.stashed, &mut all);
        collect_addresses(&self.pending, &mut all);
        assert(slice_texts(all@) =~= self@.addresses());
        all
    }

    /// Notes `ip` as a backer of the instance, unless it already is one.
    /// Returns whether the ledger knows the instance; if not, the ledger is
    /// unchanged.
    pub fn add_backer(&mut self, instance: &str, ip: &str) -> (found: bool)
        ensures
            final(self)@ == old(self)@.add_backer(instance@, ip@),
            found == old(self)@.contains(instance@),
            old(self)@.exclusive() ==> final(self)@.exclusive(),
            final(self)@.count() == old(self)@.count(),
    {
        proof {
            lemma_add_backer(self@, instance@, ip@);
        }
        proof {
            lemma_contains_home(self@, instance@);
        }
        if confirm_in(&mut self.hot, instance, ip) {
            return true;
        }
        if confirm_in(&mut self.recovered, instance, ip) {
            return true;
        }
        if confirm_in(&mut self.recovering, instance, ip) {
            return true;
        }
        if confirm_in(&mut self.dead, instance, ip) {
            return true;
        }
        if confirm_in(&mut self.stashed_dead, instance, ip) {
            return true;
        }
        if confirm_in(&mut self.stashed_recovering, instance, ip) {
            return true;
        }
        if confirm_in(&mut self.stashed, instance, ip) {
            return true;
        }
        if confirm_in(&mut self.pending, instance, ip) {
            return true;
        }
        false
    }

    /// Multiplies the weight of the hot instance by `multiplier`, counted
    /// in millionths. Returns whether the instance is hot; if not, the
    /// ledger is unchanged.
    pub fn update_weight(&mut self, instance: &str, multiplier: u64) -> (found: bool)
        ensures
            final(self)@ == old(self)@.update_weight(instance@, multiplier),
            found == old(self)@.holds(Bucket::Hot, instance@),
            old(self)@.exclusive() ==> final(self)@.exclusive(),
            final(self)@.count() == old(self)@.count(),
    {
        proof {
            lemma_update_weight(self@, instance@, multiplier);
        }
        match find(&self.hot, instance) {
            Some(i) => {
                self.hot[i].update_weight(multiplier);
                assert(self@.hot =~= old(self)@.hot.update(
                    i as int,
                    old(self)@.hot[i as int].reweighed(multiplier),
                ));
                true
            },
            None => false,
        }
    }

    /// The numbers of instances that are up, recovering, dead and pending.
    /// Together they count every instance of the ledger once. Each number
    /// has to fit the result.
    pub fn stat(&self) -> (counts: (usize, usize, usize, usize))
        requires
            self@.up() <= usize::MAX,
            self@.resting() <= usize::MAX,
            self@.gone() <= usize::MAX,
        ensures
            counts.0 == self@.up(),
            counts.1 == self@.resting(),
            counts.2 == self@.gone(),
            counts.3 == self@.waiting(),
            counts.0 + counts.1 + counts.2 + counts.3 == self@.count(),
    {
        (
            self.hot.len() + self.recovered.len() + self.stashed.len(),
            self.recovering.len() + self.stashed_recovering.len(),
            self.dead.len() + self.stashed_dead.len(),
            self.pending.len(),
        )
    }

    /// The numbers of instances that are up, recovering, dead and pending,
    /// as [`RegionRecords::stat`] gives them, or nothing where one of them
    /// is too large to be held.
    pub fn try_stat(&self) -> (counts: Option<(usize, usize, usize, usize)>)
        ensures
            counts is Some <==> {
                &&& self@.up() <= usize::MAX
                &&& self@.resting() <= usize::MAX
                &&& self@.gone() <= usize::MAX
            },
            counts is Some ==> {
                &&& counts.unwrap().0 == self@.up()
                &&& counts.unwrap().1 == self@.resting()
                &&& counts.unwrap().2 == self@.gone()
                &&& counts.unwrap().3 == self@.waiting()
                &&& counts.unwrap().0 + counts.unwrap().1 + counts.unwrap().2 + counts.unwrap().3
                    == self@.count()
            },
    {
        let limit: u128 = usize::MAX as u128;
        let up: u128 = self.hot.len() as u128 + self.recovered.len() as u128
            + self.stashed.len() as u128;
        let resting: u128 = self.recovering.len() as u128 + self.stashed_recovering.len() as u128;
        let gone: u128 = self.dead.len() as u128 + self.stashed_dead.len() as u128;
        if up > limit || resting > limit || gone > limit {
            None
        } else {
            Some(self.stat())
        }
    }

    /// Fills the hot pool up to `hot_per_region` instances from the end of
    /// `recovered` and, once that is empty, from the end of `stashed`.
    pub fn replenish(&mut self, hot_per_region: u32)
        ensures
            final(self)@ == old(self)@.replenish(hot_per_region as nat),
            old(self)@.exclusive() ==> final(self)@.exclusive(),
            final(self)@.count() == old(self)@.count(),
            old(self)@.recovered.len() == 0 && old(self)@.stashed.len() == 0 ==> final(self)@ == old(
                self,
            )@,
    {
        proof {
            lemma_replenish(self@, hot_per_region as nat);
            lemma_replenish_settles(self@, hot_per_region as nat);
        }
        loop
            invariant
                self@.replenish(hot_per_region as nat) == old(self)@.replenish(hot_per_region as nat),
            ensures
                self@ == old(self)@.replenish(hot_per_region as nat),
            decreases self.recovered.len() + self.stashed.len(),
        {
            if self.hot.len() >= hot_per_region as usize {
                break;
            }
            let ghost before = self@;
            if let Some(record) = self.recovered.pop() {
                self.hot.push(record);
                assert(self@.recovered =~= before.recovered.remove(before.recovered.len() - 1));
                assert(self@.hot =~= before.hot.push(
                    before.recovered[before.recovered.len() - 1].shaped(Bucket::Hot, 0),
                ));
            } else if let Some(instance) = self.stashed.pop() {
                self.hot.push(HotRecord { instance, weight: DEFAULT_WEIGHT });
                assert(self@.stashed =~= before.stashed.remove(before.stashed.len() - 1));
                assert(self@.hot =~= before.hot.push(
                    before.stashed[before.stashed.len() - 1].shaped(Bucket::Hot, 0),
                ));
            } else {
                break;
            }
        }
    }

    /// Applies a probe outcome to the instance as of time `now`: revives it
    /// when every enabled probe succeeded, kills it when every enabled probe
    /// failed, rests it otherwise; then fills up the hot pool. Returns
    /// whether the ledger knows the instance; if not, the ledger is
    /// unchanged.
    pub fn update_single_at(
        &mut self,
        instance: &str,
        record: PolledSingleRecord,
        enabled: &PollingFeaturesConfig,
        hot_per_region: u32,
        now: i64,
    ) -> (found: bool)
        ensures
            final(self)@ == old(self)@.update_single(
                instance@,
                record.health(*enabled),
                hot_per_region as nat,
                now,
            ),
            found == old(self)@.contains(instance@),
            old(self)@.exclusive() ==> final(self)@.exclusive(),
            final(self)@.count() == old(self)@.count(),
    {
        proof {
            lemma_update_single(
                self@,
                instance@,
                record.health(*enabled),
                hot_per_region as nat,
                now,
            );
        }
        if !self.contains(instance) {
            return false;
        }
        match record.classify(enabled) {
            Health::Well => {
                self.revive(instance);
            },
            Health::Dead => {
                self.kill_at(instance, now);
            },
            Health::Partial => {
                self.rest(instance);
            },
        }
        self.replenish(hot_per_region);
        true
    }

    /// Applies a probe outcome to the instance as of the current time. See
    /// [`RegionRecords::update_single_at`].
    pub fn update_single(
        &mut self,
        instance: &str,
        record: PolledSingleRecord,
        enabled: &PollingFeaturesConfig,
        hot_per_region: u32,
    ) -> (found: bool)
        ensures
            exists|now: i64|
                final(self)@ == old(self)@.update_single(
                    instance@,
                    record.health(*enabled),
                    hot_per_region as nat,
                    now,
                ),
            found == old(self)@.contains(instance@),
            old(self)@.exclusive() ==> final(self)@.exclusive(),
            final(self)@.count() == old(self)@.count(),
    {
        let now = unix_now();
        self.update_single_at(instance, record, enabled, hot_per_region, now)
    }
}

impl Default for RegionRecords {
    fn default() -> (ledger: Self)
        ensures
            ledger@ == LedgerView::empty(),
    {
        let ledger = RegionRecords {
            hot: Vec::new(),
            recovered: Vec::new(),
            recovering: Vec::new(),
            dead: Vec::new(),
            stashed_recovering: Vec::new(),
            stashed_dead: Vec::new(),
            stashed: Vec::new(),
            pending: Vec::new(),
        };
        assert(ledger@.hot =~= Seq::empty());
        assert(ledger@.recovered =~= Seq::empty());
        assert(ledger@.recovering =~= Seq::empty());
        assert(ledger@.dead =~= Seq::empty());
        assert(ledger@.stashed_recovering =~= Seq::empty());
        assert(ledger@.stashed_dead =~= Seq::empty());
        assert(ledger@.stashed =~= Seq::empty());
        assert(ledger@.pending =~= Seq::empty());
        ledger
    }
}

impl Clone for RegionRecords {
    fn clone(&self) -> (copy: Self)
        ensures
            copy@ == self@,
    {
        let mut copy = RegionRecords::default();
        extend_with(&mut copy.hot, &self.hot);
        extend_with(&mut copy.recovered, &self.recovered);
        extend_with(&mut copy.recovering, &self.recovering);
        extend_with(&mut copy.dead, &self.dead);
        extend_with(&mut copy.stashed_recovering, &self.stashed_recovering);
        extend_with(&mut copy.stashed_dead, &self.stashed_dead);
        extend_with(&mut copy.stashed, &self.stashed);
        extend_with(&mut copy.pending, &self.pending);
        assert(copy@.hot =~= self@.hot);
        assert(copy@.recovered =~= self@.recovered);
        assert(copy@.recovering =~= self@.recovering);
        assert(copy@.dead =~= self@.dead);
        assert(copy@.stashed_recovering =~= self@.stashed_recovering);
        assert(copy@.stashed_dead =~= self@.stashed_dead);
        assert(copy@.stashed =~= self@.stashed);
        assert(copy@.pending =~= self@.pending);
        copy
    }
}

} // verus!
