//! The registry: the ledgers of all regions, and what spans them.

use vstd::prelude::*;
use crate::clock::unix_now;
use crate::config::{OffsetsConfig, PollingFeaturesConfig};
use crate::instances::{extend_with, Entry, InstanceRecord, InstanceView};
use crate::ledger::{lemma_contains_home, LedgerView, RegionRecords};
use crate::polling::{Health, PolledSingleRecord};
use crate::registry_laws::{lemma_taken_in_sums, lemma_taken_in, lemma_registry_update_single};
use crate::text::{lemma_first_at, lemma_first_none, same_text};

verus! {

/// One region of the registry as mathematical values.
pub struct RegionView {
    pub name: Seq<char>,
    pub ledger: LedgerView,
}

/// The registry as mathematical values: its regions in order.
pub struct RegistryView {
    pub regions: Seq<RegionView>,
}

impl LedgerView {
    /// The ledger that holds the entries of `self` followed, bucket by
    /// bucket, by those of `other`.
    pub open spec fn merged(self, other: LedgerView) -> LedgerView {
        LedgerView {
            hot: self.hot + other.hot,
            recovered: self.recovered + other.recovered,
            recovering: self.recovering + other.recovering,
            dead: self.dead + other.dead,
            stashed_recovering: self.stashed_recovering + other.stashed_recovering,
            stashed_dead: self.stashed_dead + other.stashed_dead,
            stashed: self.stashed + other.stashed,
            pending: self.pending + other.pending,
        }
    }

    /// The ledger with a new instance at the end of `pending`, backed by
    /// its reporter.
    pub open spec fn admit_pending(self, address: Seq<char>, region: Seq<char>, ip: Seq<char>) -> LedgerView {
        LedgerView {
            pending: self.pending.push(
                Entry {
                    instance: InstanceView { address, region, backers: seq![ip] },
                    weight: None,
                    dead_since: None,
                },
            ),
            ..self
        }
    }
}

/// The ledgers of the regions merged into one, region after region.
pub open spec fn merged_ledgers(regions: Seq<RegionView>) -> LedgerView
    decreases regions.len(),
{
    if regions.len() == 0 {
        LedgerView::empty()
    } else {
        merged_ledgers(regions.drop_last()).merged(regions.last().ledger)
    }
}

/// The number of instances that are up in the regions together.
pub open spec fn sum_up(regions: Seq<RegionView>) -> nat
    decreases regions.len(),
{
    if regions.len() == 0 {
        0
    } else {
        sum_up(regions.drop_last()) + regions.last().ledger.up()
    }
}

/// The number of instances that are recovering in the regions together.
pub open spec fn sum_resting(regions: Seq<RegionView>) -> nat
    decreases regions.len(),
{
    if regions.len() == 0 {
        0
    } else {
        sum_resting(regions.drop_last()) + regions.last().ledger.resting()
    }
}

/// The number of instances that are dead in the regions together.
pub open spec fn sum_gone(regions: Seq<RegionView>) -> nat
    decreases regions.len(),
{
    if regions.len() == 0 {
        0
    } else {
        sum_gone(regions.drop_last()) + regions.last().ledger.gone()
    }
}

/// The number of instances that are pending in the regions together.
pub open spec fn sum_waiting(regions: Seq<RegionView>) -> nat
    decreases regions.len(),
{
    if regions.len() == 0 {
        0
    } else {
        sum_waiting(regions.drop_last()) + regions.last().ledger.waiting()
    }
}

/// The number of instances in the regions together.
pub open spec fn sum_count(regions: Seq<RegionView>) -> nat
    decreases regions.len(),
{
    if regions.len() == 0 {
        0
    } else {
        sum_count(regions.drop_last()) + regions.last().ledger.count()
    }
}

/// Index of the first region whose ledger holds the address, or the
/// number of regions where none does.
pub open spec fn first_owner(regions: Seq<RegionView>, address: Seq<char>) -> int
    decreases regions.len(),
{
    if regions.len() == 0 {
        0
    } else if regions[0].ledger.contains(address) {
        0
    } else {
        1 + first_owner(regions.drop_first(), address)
    }
}

impl RegistryView {
    /// The names of the regions, in order.
    pub open spec fn names(self) -> Seq<Seq<char>> {
        self.regions.map_values(|r: RegionView| r.name)
    }

    /// Index of the first region whose ledger holds the address.
    pub open spec fn owner(self, address: Seq<char>) -> Option<int> {
        let i = first_owner(self.regions, address);
        if i < self.regions.len() {
            Some(i)
        } else {
            None
        }
    }

    /// Whether no two regions have one name. A registry that grows by
    /// reports alone is of this kind.
    pub open spec fn distinct(self) -> bool {
        self.names().no_duplicates()
    }

    /// Whether some region's ledger holds the address.
    pub open spec fn contains(self, address: Seq<char>) -> bool {
        self.owner(address) is Some
    }

    /// The registry with `ledger` in place of the ledger of region `i`.
    pub open spec fn with_ledger(self, i: int, ledger: LedgerView) -> RegistryView {
        RegistryView {
            regions: self.regions.update(i, RegionView { name: self.regions[i].name, ledger }),
        }
    }

    /// All regions' ledgers merged into one.
    pub open spec fn global(self) -> LedgerView {
        merged_ledgers(self.regions)
    }

    /// The number of instances in the registry.
    pub open spec fn count(self) -> nat {
        sum_count(self.regions)
    }

    /// No address occurs twice in the registry, neither within a region
    /// nor across regions.
    pub open spec fn exclusive(self) -> bool {
        self.global().exclusive()
    }

    /// The registry after `ip` reported the instance under `region`, where
    /// `configured` are the names of the regions that are configured. A
    /// report under a region that is not configured leaves the registry as
    /// it is; any other is taken in.
    pub open spec fn add(
        self,
        configured: Seq<Seq<char>>,
        address: Seq<char>,
        region: Seq<char>,
        ip: Seq<char>,
    ) -> RegistryView {
        if configured.contains(region) {
            self.taken_in(address, region, ip)
        } else {
            self
        }
    }

    /// The registry after the report of `ip` that the instance exists in
    /// `region` was taken in. A known instance gains `ip` as a backer where
    /// it is new and stays in the region that holds it. An unknown one joins
    /// the end of `pending` in the first region of that name, which is
    /// created at the end of the registry where there is none.
    pub open spec fn taken_in(self, address: Seq<char>, region: Seq<char>, ip: Seq<char>) -> RegistryView {
        match self.owner(address) {
            Some(i) => self.with_ledger(i, self.regions[i].ledger.add_backer(address, ip)),
            None => match self.names().index_of_first(region) {
                Some(j) => self.with_ledger(
                    j,
                    self.regions[j].ledger.admit_pending(address, region, ip),
                ),
                None => RegistryView {
                    regions: self.regions.push(
                        RegionView {
                            name: region,
                            ledger: LedgerView::empty().admit_pending(address, region, ip),
                        },
                    ),
                },
            },
        }
    }

    /// The registry after a probe outcome was applied to the instance in
    /// the first region that holds it. An unknown address leaves the
    /// registry as it is.
    pub open spec fn update_single(
        self,
        address: Seq<char>,
        health: Health,
        quota: nat,
        now: i64,
    ) -> RegistryView {
        match self.owner(address) {
            Some(i) => self.with_ledger(
                i,
                self.regions[i].ledger.update_single(address, health, quota, now),
            ),
            None => self,
        }
    }
}

/// What a first owner is: its ledger holds the address and no ledger
/// before it does.
pub proof fn lemma_first_owner(regions: Seq<RegionView>, address: Seq<char>)
    ensures
        0 <= first_owner(regions, address) <= regions.len(),
        first_owner(regions, address) < regions.len() ==> regions[first_owner(
            regions,
            address,
        )].ledger.contains(address),
        forall|j: int| 0 <= j < first_owner(regions, address) ==> !regions[j].ledger.contains(address),
    decreases regions.len(),
{
    if regions.len() > 0 && !regions[0].ledger.contains(address) {
        lemma_first_owner(regions.drop_first(), address);
        assert forall|j: int| 0 <= j < first_owner(regions, address) implies !regions[j].ledger.contains(
            address,
        ) by {
            if j > 0 {
                assert(regions[j] == regions.drop_first()[j - 1]);
            }
        }
    }
}

/// The first owner is at `i` when the ledger there holds the address and
/// none before it does; there is none when no ledger holds it.
pub proof fn lemma_first_owner_at(regions: Seq<RegionView>, address: Seq<char>, i: int)
    requires
        0 <= i <= regions.len(),
        i < regions.len() ==> regions[i].ledger.contains(address),
        forall|j: int| 0 <= j < i ==> !regions[j].ledger.contains(address),
    ensures
        first_owner(regions, address) == i,
{
    lemma_first_owner(regions, address);
}

/// The statistics after a report with the given outcome: a created
/// instance counts as one more pending instance, up to the largest number
/// that can be held.
pub open spec fn counted(stats: (u32, u32, u32, u32), outcome: AddOutcome) -> (u32, u32, u32, u32) {
    if outcome is Created && stats.3 < u32::MAX {
        (stats.0, stats.1, stats.2, (stats.3 + 1) as u32)
    } else {
        stats
    }
}

/// Whether the four numbers add up to the number of instances in the
/// registry.
pub open spec fn adds_up(stats: (u32, u32, u32, u32), registry: RegistryView) -> bool {
    stats.0 + stats.1 + stats.2 + stats.3 == registry.count()
}

/// Whether the four numbers are the registry's numbers of instances that
/// are up, recovering, dead and pending.
pub open spec fn mirrors(stats: (u32, u32, u32, u32), registry: RegistryView) -> bool {
    &&& stats.0 == sum_up(registry.regions)
    &&& stats.1 == sum_resting(registry.regions)
    &&& stats.2 == sum_gone(registry.regions)
    &&& stats.3 == sum_waiting(registry.regions)
}

impl RegistryView {
    /// Whether `outcome` tells what a report of the instance under
    /// `region` meets: an instance that the reported region holds, one that
    /// another region holds, whose name the outcome carries, or none.
    pub open spec fn told(self, address: Seq<char>, region: Seq<char>, outcome: AddOutcome) -> bool {
        match outcome {
            AddOutcome::Confirmed => {
                &&& self.owner(address) is Some
                &&& self.regions[self.owner(address).unwrap()].name == region
            },
            AddOutcome::RegionMismatch { stored } => {
                &&& self.owner(address) is Some
                &&& self.regions[self.owner(address).unwrap()].name == stored@
                &&& stored@ != region
            },
            AddOutcome::Created => self.owner(address) is None,
        }
    }
}

/// The failure of a report under a region that is not configured.
#[derive(Clone, Copy, PartialEq, Eq, Structural, Debug)]
pub struct UnknownRegion;

/// How the outcome of a report is told to the caller.
#[derive(Clone, PartialEq, Eq, Debug)]
pub enum AddOutcome {
    /// The instance was known under the reported region.
    Confirmed,
    /// The instance was known under another region, which keeps it.
    RegionMismatch { stored: String },
    /// The instance was new and is now pending.
    Created,
}

/// The registry: the ledger of each region under the region's name.
#[derive(Clone, PartialEq, Eq, Debug)]
pub struct InstancesRecords(pub Vec<(String, RegionRecords)>);

impl View for InstancesRecords {
    type V = RegistryView;

    open spec fn view(&self) -> RegistryView {
        RegistryView {
            regions: self.0@.map_values(
                |e: (String, RegionRecords)| RegionView { name: e.0@, ledger: e.1@ },
            ),
        }
    }
}

impl InstancesRecords {
    /// The registry without a region.
    pub fn new() -> (registry: Self)
        ensures
            registry@.regions == Seq::<RegionView>::empty(),
            registry@.distinct(),
            registry@.exclusive(),
    {
        let registry = InstancesRecords(Vec::new());
        assert(registry@.regions =~= Seq::<RegionView>::empty());
        assert(registry@.global().addresses() =~= Seq::<Seq<char>>::empty());
        registry
    }

    /// Index of the first region of the given name.
    pub fn position(&self, region: &str) -> (at: Option<usize>)
        ensures
            match at {
                Some(i) => i < self.0.len() && self@.names().index_of_first(region@) == Some(i as int),
                None => self@.names().index_of_first(region@) is None,
            },
    {
        let ghost names = self@.names();
        let mut i: usize = 0;
        while i < self.0.len()
            invariant
                i <= self.0.len(),
                names == self@.names(),
                forall|j: int| 0 <= j < i ==> names[j] != region@,
            decreases self.0.len() - i,
        {
            if same_text(self.0[i].0.as_str(), region) {
                proof {
                    lemma_first_at(names, region@, i as int);
                }
                return Some(i);
            }
            i += 1;
        }
        proof {
            lemma_first_none(names, region@);
        }
        None
    }

    /// Applies a probe outcome, as of time `now`, to the instance in the
    /// first region that holds it. Returns whether there is such a region;
    /// if not, the registry is unchanged.
    pub fn update_single_at(
        &mut self,
        instance: &str,
        record: PolledSingleRecord,
        enabled: &PollingFeaturesConfig,
        hot_per_region: u32,
        now: i64,
    ) -> (found: bool)
        ensures
            final(self)@ == old(self)@.update_single(
                instance@,
                record.health(*enabled),
                hot_per_region as nat,
                now,
            ),
            found == old(self)@.contains(instance@),
            old(self)@.exclusive() ==> final(self)@.exclusive(),
            final(self)@.count() == old(self)@.count(),
            final(self)@.names() == old(self)@.names(),
    {
        proof {
            lemma_registry_update_single(
                self@,
                instance@,
                record.health(*enabled),
                hot_per_region as nat,
                now,
            );
        }
        let mut i: usize = 0;
        while i < self.0.len()
            invariant
                i <= self.0.len(),
                self@ == old(self)@,
                forall|j: int| 0 <= j < i ==> !old(self)@.regions[j].ledger.contains(instance@),
            decreases self.0.len() - i,
        {
            let ghost before = self@;
            if self.0[i].1.update_single_at(instance, record, enabled, hot_per_region, now) {
                proof {
                    lemma_registry_update_single(
                        before,
                        instance@,
                        record.health(*enabled),
                        hot_per_region as nat,
                        now,
                    );
                    lemma_first_owner_at(before.regions, instance@, i as int);
                    assert(self@.regions =~= before.with_ledger(
                        i as int,
                        before.regions[i as int].ledger.update_single(
                            instance@,
                            record.health(*enabled),
                            hot_per_region as nat,
                            now,
                        ),
                    ).regions);
                }
                return true;
            }
            assert(self@.regions =~= before.regions);
            i += 1;
        }
        proof {
            lemma_first_owner_at(self@.regions, instance@, i as int);
        }
        false
    }

    /// Applies a probe outcome, as of the current time, to the instance in
    /// the first region that holds it. See
    /// [`InstancesRecords::update_single_at`].
    pub fn update_single(
        &mut self,
        instance: &str,
        record: PolledSingleRecord,
        enabled: &PollingFeaturesConfig,
        hot_per_region: u32,
    ) -> (found: bool)
        ensures
            exists|now: i64|
                final(self)@ == old(self)@.update_single(
                    instance@,
                    record.health(*enabled),
                    hot_per_region as nat,
                    now,
                ),
            found == old(self)@.contains(instance@),
            old(self)@.exclusive() ==> final(self)@.exclusive(),
            final(self)@.count() == old(self)@.count(),
            final(self)@.names() == old(self)@.names(),
    {
        let now = unix_now();
        self.update_single_at(instance, record, enabled, hot_per_region, now)
    }

    /// Takes the report of `backer` that `instance` exists in `region`, and
    /// counts a new instance as pending in `stats`.
    ///
    /// A report under a region that `offsets` does not configure is refused,
    /// and nothing changes. Otherwise: where a region's ledger knows the
    /// instance, the reporter is noted as its backer and the instance stays
    /// where it is; the outcome says whether the region that holds it is the
    /// reported one. Where none does, the instance joins `pending` in the
    /// reported region, whose ledger is created if there is none, and the
    /// number of pending instances in `stats` goes up by one, unless it is
    /// at its largest.
    pub fn add(
        &mut self,
        offsets: &OffsetsConfig,
        instance: String,
        region: String,
        backer: String,
        stats: &mut (u32, u32, u32, u32),
    ) -> (outcome: Result<AddOutcome, UnknownRegion>)
        ensures
            outcome is Ok <==> offsets.knows(region@),
            final(self)@ == old(self)@.add(offsets.names(), instance@, region@, backer@),
            match outcome {
                Ok(told) => {
                    &&& old(self)@.told(instance@, region@, told)
                    &&& *final(stats) == counted(*old(stats), told)
                },
                Err(_) => final(self)@ == old(self)@ && *final(stats) == *old(stats),
            },
            old(self)@.exclusive() ==> final(self)@.exclusive(),
            old(self)@.distinct() ==> final(self)@.distinct(),
            final(self)@.count() == if offsets.knows(region@) && !old(self)@.contains(instance@) {
                old(self)@.count() + 1
            } else {
                old(self)@.count()
            },
            adds_up(*old(stats), old(self)@) && old(stats).3 < u32::MAX ==> adds_up(
                *final(stats),
                final(self)@,
            ),
            mirrors(*old(stats), old(self)@) && sum_waiting(final(self)@.regions) <= u32::MAX
                ==> mirrors(*final(stats), final(self)@),
    {
        if !offsets.contains_key(region.as_str()) {
            return Err(UnknownRegion);
        }
        proof {
            lemma_taken_in_sums(self@, instance@, region@, backer@);
        }
        let outcome = self.take_in(instance, region, backer);
        match outcome {
            AddOutcome::Created => {
                if stats.3 < u32::MAX {
                    stats.3 = stats.3 + 1;
                }
            },
            _ => {},
        }
        Ok(outcome)
    }

    /// Takes in the report of `backer` that `instance` exists in `region`,
    /// whatever the region.
    fn take_in(&mut self, instance: String, region: String, backer: String) -> (outcome: AddOutcome)
        ensures
            final(self)@ == old(self)@.taken_in(instance@, region@, backer@),
            old(self)@.told(instance@, region@, outcome),
            old(self)@.exclusive() ==> final(self)@.exclusive(),
            old(self)@.distinct() ==> final(self)@.distinct(),
            final(self)@.count() == if old(self)@.contains(instance@) {
                old(self)@.count()
            } else {
                old(self)@.count() + 1
            },
    {
        proof {
            lemma_taken_in(self@, instance@, region@, backer@);
        }
        let mut i: usize = 0;
        while i < self.0.len()
            invariant
                i <= self.0.len(),
                self@ == old(self)@,
                forall|j: int| 0 <= j < i ==> !old(self)@.regions[j].ledger.contains(instance@),
            decreases self.0.len() - i,
        {
            let ghost before = self@;
            if self.0[i].1.add_backer(instance.as_str(), backer.as_str()) {
                proof {
                    lemma_taken_in(before, instance@, region@, backer@);
                    lemma_first_owner_at(before.regions, instance@, i as int);
                    assert(self@.regions =~= before.with_ledger(
                        i as int,
                        before.regions[i as int].ledger.add_backer(instance@, backer@),
                    ).regions);
                }
                if same_text(self.0[i].0.as_str(), region.as_str()) {
                    return AddOutcome::Confirmed;
                } else {
                    return AddOutcome::RegionMismatch { stored: self.0[i].0.clone() };
                }
            }
            proof {
                lemma_contains_home(before.regions[i as int].ledger, instance@);
            }
            assert(self@.regions =~= before.regions);
            i += 1;
        }
        proof {
            lemma_first_owner_at(self@.regions, instance@, i as int);
        }
        let ghost before = self@;
        let found = self.position(region.as_str());
        let mut backers: Vec<String> = Vec::new();
        backers.push(backer);
        let record = InstanceRecord { address: instance, region: region.clone(), backer: backers };
        assert(record@.backers =~= seq![backer@]);
        match found {
            Some(j) => {
                self.0[j].1.pending.push(record);
                assert(self@.regions[j as int].ledger.pending =~= before.regions[j as int].ledger.admit_pending(
                    instance@,
                    region@,
                    backer@,
                ).pending);
                assert(self@.regions =~= before.with_ledger(
                    j as int,
                    before.regions[j as int].ledger.admit_pending(instance@, region@, backer@),
                ).regions);
            },
            None => {
                let mut ledger = RegionRecords::default();
                ledger.pending.push(record);
                assert(ledger@.pending =~= LedgerView::empty().admit_pending(
                    instance@,
                    region@,
                    backer@,
                ).pending);
                self.0.push((region, ledger));
                assert(self@.regions =~= before.regions.push(
                    RegionView {
                        name: region@,
                        ledger: LedgerView::empty().admit_pending(instance@, region@, backer@),
                    },
                ));
            },
        }
        AddOutcome::Created
    }

    /// One ledger that holds, bucket by bucket, a copy of every region's
    /// records, region after region.
    pub fn as_global(&self) -> (global: RegionRecords)
        ensures
            global@ == self@.global(),
    {
        let mut global = RegionRecords::default();
        let mut i: usize = 0;
        while i < self.0.len()
            invariant
                i <= self.0.len(),
                global@ == merged_ledgers(self@.regions.take(i as int)),
            decreases self.0.len() - i,
        {
            let ghost before = global@;
            let region = &self.0[i].1;
            extend_with(&mut global.hot, &region.hot);
            extend_with(&mut global.recovered, &region.recovered);
            extend_with(&mut global.recovering, &region.recovering);
            extend_with(&mut global.dead, &region.dead);
            extend_with(&mut global.stashed_recovering, &region.stashed_recovering);
            extend_with(&mut global.stashed_dead, &region.stashed_dead);
            extend_with(&mut global.stashed, &region.stashed);
            extend_with(&mut global.pending, &region.pending);
            i += 1;
            proof {
                assert(self@.regions.take(i as int).drop_last() =~= self@.regions.take(i - 1));
                assert(global@ == before.merged(self@.regions[i - 1].ledger));
            }
        }
        assert(self@.regions.take(i as int) =~= self@.regions);
        global
    }

    /// The numbers of instances that are up, recovering, dead and pending
    /// in all regions together. They count every instance of the registry
    /// once. Each number has to fit the result.
    pub fn stat(&self) -> (counts: (u32, u32, u32, u32))
        requires
            sum_up(self@.regions) <= u32::MAX,
            sum_resting(self@.regions) <= u32::MAX,
            sum_gone(self@.regions) <= u32::MAX,
            sum_waiting(self@.regions) <= u32::MAX,
        ensures
            counts.0 == sum_up(self@.regions),
            counts.1 == sum_resting(self@.regions),
            counts.2 == sum_gone(self@.regions),
            counts.3 == sum_waiting(self@.regions),
            counts.0 + counts.1 + counts.2 + counts.3 == self@.count(),
    {
        let mut up: u32 = 0;
        let mut resting: u32 = 0;
        let mut gone: u32 = 0;
        let mut waiting: u32 = 0;
        let mut i: usize = 0;
        while i < self.0.len()
            invariant
                i <= self.0.len(),
                up == sum_up(self@.regions.take(i as int)),
                resting == sum_resting(self@.regions.take(i as int)),
                gone == sum_gone(self@.regions.take(i as int)),
                waiting == sum_waiting(self@.regions.take(i as int)),
                up + resting + gone + waiting == sum_count(self@.regions.take(i as int)),
                sum_up(self@.regions) <= u32::MAX,
                sum_resting(self@.regions) <= u32::MAX,
                sum_gone(self@.regions) <= u32::MAX,
                sum_waiting(self@.regions) <= u32::MAX,
            decreases self.0.len() - i,
        {
            proof {
                assert(self@.regions.take(i + 1).drop_last() =~= self@.regions.take(i as int));
                lemma_sums_grow(self@.regions, i + 1);
            }
            let (a, b, c, d) = self.0[i].1.stat();
            up = up + a as u32;
            resting = resting + b as u32;
            gone = gone + c as u32;
            waiting = waiting + d as u32;
            i += 1;
        }
        assert(self@.regions.take(i as int) =~= self@.regions);
        (up, resting, gone, waiting)
    }
}

impl InstancesRecords {
    /// The numbers of instances that are up, recovering, dead and pending
    /// in all regions together, as [`InstancesRecords::stat`] gives them, or
    /// nothing where one of them is too large to be held.
    pub fn try_stat(&self) -> (counts: Option<(u32, u32, u32, u32)>)
        ensures
            counts is Some <==> {
                &&& sum_up(self@.regions) <= u32::MAX
                &&& sum_resting(self@.regions) <= u32::MAX
                &&& sum_gone(self@.regions) <= u32::MAX
                &&& sum_waiting(self@.regions) <= u32::MAX
            },
            counts is Some ==> {
                &&& counts.unwrap().0 == sum_up(self@.regions)
                &&& counts.unwrap().1 == sum_resting(self@.regions)
                &&& counts.unwrap().2 == sum_gone(self@.regions)
                &&& counts.unwrap().3 == sum_waiting(self@.regions)
                &&& counts.unwrap().0 + counts.unwrap().1 + counts.unwrap().2 + counts.unwrap().3
                    == self@.count()
            },
    {
        let limit: u128 = 0xffff_ffff;
        let mut up: u128 = 0;
        let mut resting: u128 = 0;
        let mut gone: u128 = 0;
        let mut waiting: u128 = 0;
        let mut i: usize = 0;
        while i < self.0.len()
            invariant
                i <= self.0.len(),
                limit == u32::MAX,
                up == sum_up(self@.regions.take(i as int)) <= limit,
                resting == sum_resting(self@.regions.take(i as int)) <= limit,
                gone == sum_gone(self@.regions.take(i as int)) <= limit,
                waiting == sum_waiting(self@.regions.take(i as int)) <= limit,
            decreases self.0.len() - i,
        {
            proof {
                assert(self@.regions.take(i + 1).drop_last() =~= self@.regions.take(i as int));
                lemma_sums_grow(self@.regions, i + 1);
            }
            let ledger = &self.0[i].1;
            up = up + ledger.hot.len() as u128 + ledger.recovered.len() as u128
                + ledger.stashed.len() as u128;
            resting = resting + ledger.recovering.len() as u128
                + ledger.stashed_recovering.len() as u128;
            gone = gone + ledger.dead.len() as u128 + ledger.stashed_dead.len() as u128;
            waiting = waiting + ledger.pending.len() as u128;
            if up > limit || resting > limit || gone > limit || waiting > limit {
                return None;
            }
            i += 1;
        }
        proof {
            assert(self@.regions.take(i as int) =~= self@.regions);
        }
        Some(self.stat())
    }
}

/// The sums over the first `n` regions are no greater than the sums over
/// all of them.
pub proof fn lemma_sums_grow(regions: Seq<RegionView>, n: int)
    requires
        0 <= n <= regions.len(),
    ensures
        sum_up(regions.take(n)) <= sum_up(regions),
        sum_resting(regions.take(n)) <= sum_resting(regions),
        sum_gone(regions.take(n)) <= sum_gone(regions),
        sum_waiting(regions.take(n)) <= sum_waiting(regions),
        sum_count(regions.take(n)) <= sum_count(regions),
    decreases regions.len() - n,
{
    if n < regions.len() {
        lemma_sums_grow(regions, n + 1);
        assert(regions.take(n + 1).drop_last() =~= regions.take(n));
    } else {
        assert(regions.take(n) =~= regions);
    }
}

} // verus!
