//! What holds of the registry: its statistics count every instance once,
//! probe outcomes move instances without adding or losing any, and a report
//! of a known instance adds a backer and nothing else.

use vstd::prelude::*;
use vstd::multiset::Multiset;
use vstd::seq_lib::{lemma_multiset_commutative, to_multiset_build, to_multiset_contains};
use crate::instances::{addresses, Entry, InstanceView};
use crate::ledger::{lemma_contains_home, Bucket, LedgerView};
use crate::ledger_laws::{
    lemma_add_backer, lemma_exclusive_by_population, lemma_population_by_bucket, lemma_update_single,
};
use crate::polling::Health;
use crate::registry::{
    first_owner, lemma_first_owner, lemma_first_owner_at, merged_ledgers, sum_count, sum_gone,
    sum_resting, sum_up, sum_waiting, RegionView, RegistryView,
};
use crate::text::{lemma_first, lemma_first_push};

verus! {

impl RegistryView {
    /// The addresses of the registry, each counted as often as it occurs
    /// in all regions together.
    pub open spec fn population(self) -> Multiset<Seq<char>> {
        self.global().population()
    }

    /// The entry of the instance: the first with its address in the first
    /// region that holds it.
    pub open spec fn entry_of(self, address: Seq<char>) -> Option<Entry> {
        match self.owner(address) {
            Some(i) => {
                let ledger = self.regions[i].ledger;
                let b = ledger.home(address).unwrap();
                Some(ledger.bucket(b)[ledger.at(b, address).unwrap()])
            },
            None => None,
        }
    }
}

/// Merging two ledgers adds up their populations and their counts.
pub proof fn lemma_merged(a: LedgerView, b: LedgerView)
    ensures
        a.merged(b).population() == a.population().add(b.population()),
        a.merged(b).count() == a.count() + b.count(),
        a.merged(b).up() == a.up() + b.up(),
        a.merged(b).resting() == a.resting() + b.resting(),
        a.merged(b).gone() == a.gone() + b.gone(),
        a.merged(b).waiting() == a.waiting() + b.waiting(),
{
    broadcast use vstd::multiset::group_multiset_axioms;

    let m = a.merged(b);
    lemma_population_by_bucket(a);
    lemma_population_by_bucket(b);
    lemma_population_by_bucket(m);
    assert(addresses(m.hot) =~= addresses(a.hot) + addresses(b.hot));
    assert(addresses(m.recovered) =~= addresses(a.recovered) + addresses(b.recovered));
    assert(addresses(m.recovering) =~= addresses(a.recovering) + addresses(b.recovering));
    assert(addresses(m.dead) =~= addresses(a.dead) + addresses(b.dead));
    assert(addresses(m.stashed_dead) =~= addresses(a.stashed_dead) + addresses(b.stashed_dead));
    assert(addresses(m.stashed_recovering) =~= addresses(a.stashed_recovering) + addresses(
        b.stashed_recovering,
    ));
    assert(addresses(m.stashed) =~= addresses(a.stashed) + addresses(b.stashed));
    assert(addresses(m.pending) =~= addresses(a.pending) + addresses(b.pending));
    lemma_multiset_commutative(addresses(a.hot), addresses(b.hot));
    lemma_multiset_commutative(addresses(a.recovered), addresses(b.recovered));
    lemma_multiset_commutative(addresses(a.recovering), addresses(b.recovering));
    lemma_multiset_commutative(addresses(a.dead), addresses(b.dead));
    lemma_multiset_commutative(addresses(a.stashed_dead), addresses(b.stashed_dead));
    lemma_multiset_commutative(addresses(a.stashed_recovering), addresses(b.stashed_recovering));
    lemma_multiset_commutative(addresses(a.stashed), addresses(b.stashed));
    lemma_multiset_commutative(addresses(a.pending), addresses(b.pending));
    assert(m.population() =~= a.population().add(b.population()));
}

/// The four numbers that the registry reports add up to
/// the number of its instances, and so do the numbers of each ledger.
pub proof fn lemma_stat_consistent(regions: Seq<RegionView>)
    ensures
        sum_up(regions) + sum_resting(regions) + sum_gone(regions) + sum_waiting(regions)
            == sum_count(regions),
        merged_ledgers(regions).count() == sum_count(regions),
        merged_ledgers(regions).up() == sum_up(regions),
        merged_ledgers(regions).resting() == sum_resting(regions),
        merged_ledgers(regions).gone() == sum_gone(regions),
        merged_ledgers(regions).waiting() == sum_waiting(regions),
    decreases regions.len(),
{
    if regions.len() > 0 {
        lemma_stat_consistent(regions.drop_last());
        lemma_merged(merged_ledgers(regions.drop_last()), regions.last().ledger);
    }
}

/// Replacing the ledger of one region takes its population and count out
/// of the registry's and puts the new ledger's in.
pub proof fn lemma_with_ledger(registry: RegistryView, i: int, ledger: LedgerView)
    requires
        0 <= i < registry.regions.len(),
    ensures
        registry.regions[i].ledger.population().subset_of(registry.population()),
        registry.with_ledger(i, ledger).population() == registry.population().sub(
            registry.regions[i].ledger.population(),
        ).add(ledger.population()),
        registry.with_ledger(i, ledger).count() == registry.count() - registry.regions[i].ledger.count()
            + ledger.count(),
        registry.with_ledger(i, ledger).names() == registry.names(),
    decreases registry.regions.len(),
{
    broadcast use vstd::multiset::group_multiset_axioms;

    let regions = registry.regions;
    let after = registry.with_ledger(i, ledger).regions;
    let rest = RegistryView { regions: regions.drop_last() };
    lemma_merged(merged_ledgers(regions.drop_last()), regions.last().ledger);
    lemma_merged(merged_ledgers(after.drop_last()), after.last().ledger);
    if i == regions.len() - 1 {
        assert(after.drop_last() =~= regions.drop_last());
    } else {
        lemma_with_ledger(rest, i, ledger);
        assert(after.drop_last() =~= rest.with_ledger(i, ledger).regions);
        assert(after.last() == regions.last());
    }
    assert(registry.with_ledger(i, ledger).population() =~= registry.population().sub(
        registry.regions[i].ledger.population(),
    ).add(ledger.population()));
    assert(registry.with_ledger(i, ledger).names() =~= registry.names());
}

/// Replacing the ledger of one region takes its four numbers out of the
/// registry's and puts the new ledger's in.
pub proof fn lemma_with_ledger_sums(registry: RegistryView, i: int, ledger: LedgerView)
    requires
        0 <= i < registry.regions.len(),
    ensures
        sum_up(registry.with_ledger(i, ledger).regions) == sum_up(registry.regions)
            - registry.regions[i].ledger.up() + ledger.up(),
        sum_resting(registry.with_ledger(i, ledger).regions) == sum_resting(registry.regions)
            - registry.regions[i].ledger.resting() + ledger.resting(),
        sum_gone(registry.with_ledger(i, ledger).regions) == sum_gone(registry.regions)
            - registry.regions[i].ledger.gone() + ledger.gone(),
        sum_waiting(registry.with_ledger(i, ledger).regions) == sum_waiting(registry.regions)
            - registry.regions[i].ledger.waiting() + ledger.waiting(),
    decreases registry.regions.len(),
{
    let regions = registry.regions;
    let after = registry.with_ledger(i, ledger).regions;
    let rest = RegistryView { regions: regions.drop_last() };
    if i == regions.len() - 1 {
        assert(after.drop_last() =~= regions.drop_last());
    } else {
        lemma_with_ledger_sums(rest, i, ledger);
        assert(after.drop_last() =~= rest.with_ledger(i, ledger).regions);
        assert(after.last() == regions.last());
    }
}

/// A report of a known instance changes none of the registry's four
/// numbers; a report of an unknown one raises the number of pending
/// instances by one and leaves the other three.
pub proof fn lemma_taken_in_sums(
    registry: RegistryView,
    address: Seq<char>,
    region: Seq<char>,
    ip: Seq<char>,
)
    ensures
        sum_up(registry.taken_in(address, region, ip).regions) == sum_up(registry.regions),
        sum_resting(registry.taken_in(address, region, ip).regions) == sum_resting(registry.regions),
        sum_gone(registry.taken_in(address, region, ip).regions) == sum_gone(registry.regions),
        sum_waiting(registry.taken_in(address, region, ip).regions) == sum_waiting(registry.regions)
            + if registry.contains(address) {
            0nat
        } else {
            1nat
        },
{
    lemma_first_owner(registry.regions, address);
    match registry.owner(address) {
        Some(i) => {
            let ledger = registry.regions[i].ledger;
            match ledger.home(address) {
                Some(b) => {
                    lemma_first(addresses(ledger.bucket(b)), address);
                },
                None => {},
            }
            lemma_with_ledger_sums(registry, i, ledger.add_backer(address, ip));
        },
        None => {
            lemma_first(registry.names(), region);
            match registry.names().index_of_first(region) {
                Some(j) => {
                    lemma_with_ledger_sums(
                        registry,
                        j,
                        registry.regions[j].ledger.admit_pending(address, region, ip),
                    );
                },
                None => {
                    let grown = registry.regions.push(
                        RegionView {
                            name: region,
                            ledger: LedgerView::empty().admit_pending(address, region, ip),
                        },
                    );
                    assert(grown.drop_last() =~= registry.regions);
                },
            }
        },
    }
}

/// A registry holds an address exactly when its population counts it.
pub proof fn lemma_registry_contains(registry: RegistryView, address: Seq<char>)
    ensures
        registry.contains(address) <==> registry.population().count(address) > 0,
    decreases registry.regions.len(),
{
    broadcast use vstd::multiset::group_multiset_axioms;

    let regions = registry.regions;
    lemma_first_owner(regions, address);
    if regions.len() > 0 {
        let rest = RegistryView { regions: regions.drop_last() };
        lemma_registry_contains(rest, address);
        lemma_first_owner(rest.regions, address);
        lemma_merged(merged_ledgers(regions.drop_last()), regions.last().ledger);
        to_multiset_contains(regions.last().ledger.addresses(), address);
        if rest.contains(address) {
            let k = first_owner(rest.regions, address);
            assert(regions[k] == rest.regions[k]);
        }
        if registry.contains(address) {
            let k = first_owner(regions, address);
            if k < regions.len() - 1 {
                assert(regions[k] == rest.regions[k]);
                lemma_first_owner_at(rest.regions, address, k);
            }
        } else {
            assert forall|j: int| 0 <= j < rest.regions.len() implies !rest.regions[j].ledger.contains(
                address,
            ) by {
                assert(rest.regions[j] == regions[j]);
            }
            lemma_first_owner_at(rest.regions, address, rest.regions.len() as int);
        }
    } else {
        assert(registry.population() =~= Multiset::<Seq<char>>::empty()) by {
            lemma_population_by_bucket(LedgerView::empty());
            assert(addresses(Seq::<Entry>::empty()) =~= Seq::<Seq<char>>::empty());
        }
    }
}

/// Applying a probe outcome keeps the registry's population, and with it
/// exclusivity and the number of instances.
pub proof fn lemma_registry_update_single(
    registry: RegistryView,
    address: Seq<char>,
    health: Health,
    quota: nat,
    now: i64,
)
    ensures
        registry.update_single(address, health, quota, now).population() == registry.population(),
        registry.exclusive() ==> registry.update_single(address, health, quota, now).exclusive(),
        registry.update_single(address, health, quota, now).count() == registry.count(),
        registry.update_single(address, health, quota, now).names() == registry.names(),
{
    broadcast use vstd::multiset::group_multiset_axioms;

    let after = registry.update_single(address, health, quota, now);
    match registry.owner(address) {
        Some(i) => {
            lemma_first_owner(registry.regions, address);
            let ledger = registry.regions[i].ledger;
            lemma_update_single(ledger, address, health, quota, now);
            lemma_with_ledger(registry, i, ledger.update_single(address, health, quota, now));
            assert(after.population() =~= registry.population());
        },
        None => {},
    }
    lemma_exclusive_by_population(registry.global(), after.global());
}

/// A report keeps every instance that the registry holds. Of a known
/// instance it changes neither the population nor the count; an unknown one
/// joins the population once and raises the count by one. Either way a
/// registry in which no address occurs twice stays one.
pub proof fn lemma_taken_in(
    registry: RegistryView,
    address: Seq<char>,
    region: Seq<char>,
    ip: Seq<char>,
)
    ensures
        registry.taken_in(address, region, ip).population() == if registry.contains(address) {
            registry.population()
        } else {
            registry.population().insert(address)
        },
        registry.taken_in(address, region, ip).count() == if registry.contains(address) {
            registry.count()
        } else {
            registry.count() + 1
        },
        registry.exclusive() ==> registry.taken_in(address, region, ip).exclusive(),
        registry.distinct() ==> registry.taken_in(address, region, ip).distinct(),
        registry.taken_in(address, region, ip).contains(address),
{
    broadcast use vstd::multiset::group_multiset_axioms;

    let after = registry.taken_in(address, region, ip);
    lemma_first_owner(registry.regions, address);
    lemma_registry_contains(registry, address);
    lemma_registry_contains(after, address);
    match registry.owner(address) {
        Some(i) => {
            let ledger = registry.regions[i].ledger;
            lemma_add_backer(ledger, address, ip);
            lemma_with_ledger(registry, i, ledger.add_backer(address, ip));
            assert(after.population() =~= registry.population());
            lemma_exclusive_by_population(registry.global(), after.global());
        },
        None => {
            lemma_first(registry.names(), region);
            match registry.names().index_of_first(region) {
                Some(j) => {
                    let ledger = registry.regions[j].ledger;
                    lemma_admit_pending(ledger, address, region, ip);
                    lemma_with_ledger(registry, j, ledger.admit_pending(address, region, ip));
                },
                None => {
                    let ledger = LedgerView::empty();
                    lemma_admit_pending(ledger, address, region, ip);
                    let grown = registry.regions.push(
                        RegionView { name: region, ledger: ledger.admit_pending(address, region, ip) },
                    );
                    assert(grown.drop_last() =~= registry.regions);
                    assert(after.names() =~= registry.names().push(region));
                    lemma_merged(registry.global(), ledger.admit_pending(address, region, ip));
                    lemma_population_by_bucket(ledger);
                    assert(addresses(Seq::<Entry>::empty()) =~= Seq::<Seq<char>>::empty());
                    assert(ledger.population() =~= Multiset::<Seq<char>>::empty());
                },
            }
            assert(after.population() =~= registry.population().insert(address));
            if registry.exclusive() {
                registry.global().addresses().lemma_multiset_has_no_duplicates();
                after.global().addresses().lemma_multiset_has_no_duplicates_conv();
            }
        },
    }
}

/// Admitting a pending instance adds its address to the ledger's
/// population once and raises the ledger's count by one.
pub proof fn lemma_admit_pending(ledger: LedgerView, address: Seq<char>, region: Seq<char>, ip: Seq<char>)
    ensures
        ledger.admit_pending(address, region, ip).population() == ledger.population().insert(address),
        ledger.admit_pending(address, region, ip).count() == ledger.count() + 1,
{
    broadcast use vstd::multiset::group_multiset_axioms;

    let after = ledger.admit_pending(address, region, ip);
    lemma_population_by_bucket(ledger);
    lemma_population_by_bucket(after);
    assert(addresses(after.pending) =~= addresses(ledger.pending).push(address));
    to_multiset_build(addresses(ledger.pending), address);
    assert(after.population() =~= ledger.population().insert(address));
}

/// The entry that a first report creates.
pub open spec fn reported(address: Seq<char>, region: Seq<char>, backers: Seq<Seq<char>>) -> Entry {
    Entry {
        instance: InstanceView { address, region, backers },
        weight: None,
        dead_since: None,
    }
}

/// An instance that was admitted to a ledger that did not hold its address
/// is held by `pending` alone, as its last entry.
pub proof fn lemma_admitted_home(ledger: LedgerView, address: Seq<char>, region: Seq<char>, ip: Seq<char>)
    requires
        !ledger.contains(address),
    ensures
        ledger.admit_pending(address, region, ip).home(address) == Some(Bucket::Pending),
        ledger.admit_pending(address, region, ip).at(Bucket::Pending, address) == Some(
            ledger.pending.len() as int,
        ),
        ledger.admit_pending(address, region, ip).contains(address),
{
    let after = ledger.admit_pending(address, region, ip);
    lemma_contains_home(ledger, address);
    lemma_contains_home(after, address);
    lemma_first(addresses(ledger.pending), address);
    assert(addresses(after.pending) =~= addresses(ledger.pending).push(address));
    lemma_first_push(addresses(ledger.pending), address, address);
}

/// A report under a region that is not configured changes nothing. One
/// under a configured region keeps every instance that the registry holds:
/// of a known instance it changes neither the population nor the count; an
/// unknown one joins the population once and raises the count by one.
/// Either way a registry in which no address occurs twice stays one, and so
/// does one in which no two regions have one name.
pub proof fn lemma_registry_add(
    registry: RegistryView,
    configured: Seq<Seq<char>>,
    address: Seq<char>,
    region: Seq<char>,
    ip: Seq<char>,
)
    ensures
        !configured.contains(region) ==> registry.add(configured, address, region, ip) == registry,
        registry.add(configured, address, region, ip).population() == if configured.contains(region)
            && !registry.contains(address) {
            registry.population().insert(address)
        } else {
            registry.population()
        },
        registry.add(configured, address, region, ip).count() == if configured.contains(region)
            && !registry.contains(address) {
            registry.count() + 1
        } else {
            registry.count()
        },
        registry.exclusive() ==> registry.add(configured, address, region, ip).exclusive(),
        registry.distinct() ==> registry.add(configured, address, region, ip).distinct(),
        configured.contains(region) ==> registry.add(configured, address, region, ip).contains(
            address,
        ),
{
    lemma_taken_in(registry, address, region, ip);
}

/// When an unknown instance is reported, and then reported again by
/// another reporter, each time under a configured region, the registry
/// holds one record of it: pending in the region of the first report, which
/// stays its region, with the two reporters as its backers, and counted
/// once. A second report by the same reporter changes nothing.
pub proof fn lemma_dedup_on_add(
    registry: RegistryView,
    configured: Seq<Seq<char>>,
    address: Seq<char>,
    region: Seq<char>,
    first_ip: Seq<char>,
    other_region: Seq<char>,
    second_ip: Seq<char>,
)
    requires
        !registry.contains(address),
        first_ip != second_ip,
        configured.contains(region),
        configured.contains(other_region),
    ensures
        ({
            let once = registry.add(configured, address, region, first_ip);
            let twice = once.add(configured, address, other_region, second_ip);
            &&& once.entry_of(address) == Some(reported(address, region, seq![first_ip]))
            &&& twice.entry_of(address) == Some(reported(address, region, seq![first_ip, second_ip]))
            &&& twice.owner(address) == once.owner(address)
            &&& twice.owner(address) is Some
            &&& twice.regions[twice.owner(address).unwrap()].name == region
            &&& twice.regions[twice.owner(address).unwrap()].ledger.home(address) == Some(
                Bucket::Pending,
            )
            &&& twice.population() == registry.population().insert(address)
            &&& twice.population().count(address) == 1
            &&& twice.count() == registry.count() + 1
            &&& once.add(configured, address, other_region, first_ip) == once
        }),
{
    broadcast use vstd::multiset::group_multiset_axioms;

    let once = registry.taken_in(address, region, first_ip);
    let twice = once.taken_in(address, other_region, second_ip);
    lemma_first_owner(registry.regions, address);
    lemma_first(registry.names(), region);
    let k = match registry.names().index_of_first(region) {
        Some(j) => j,
        None => registry.regions.len() as int,
    };
    let old_ledger = if k < registry.regions.len() {
        registry.regions[k].ledger
    } else {
        LedgerView::empty()
    };
    if k == registry.regions.len() {
        assert(addresses(Seq::<Entry>::empty()) =~= Seq::<Seq<char>>::empty());
        assert(LedgerView::empty().addresses() =~= Seq::<Seq<char>>::empty());
    }
    let admitted = old_ledger.admit_pending(address, region, first_ip);
    lemma_admitted_home(old_ledger, address, region, first_ip);
    assert(once.regions[k].ledger == admitted);
    assert(once.regions[k].name == region);
    assert forall|j: int| 0 <= j < k implies !once.regions[j].ledger.contains(address) by {
        assert(once.regions[j] == registry.regions[j]);
    }
    lemma_first_owner_at(once.regions, address, k);
    let entry = admitted.pending[old_ledger.pending.len() as int];
    assert(entry == reported(address, region, seq![first_ip]));
    assert(!seq![first_ip].contains(second_ip));
    assert(seq![first_ip].contains(first_ip)) by {
        assert(seq![first_ip][0] == first_ip);
    }
    assert(seq![first_ip].push(second_ip) =~= seq![first_ip, second_ip]);
    let backed = admitted.add_backer(address, second_ip);
    assert(addresses(backed.pending) =~= addresses(admitted.pending));
    lemma_add_backer(admitted, address, second_ip);
    lemma_exclusive_by_population(admitted, backed);
    lemma_contains_home(backed, address);
    lemma_contains_home(admitted, address);
    assert(twice.regions[k].ledger == backed);
    assert forall|j: int| 0 <= j < k implies !twice.regions[j].ledger.contains(address) by {
        assert(twice.regions[j] == registry.regions[j]);
    }
    lemma_first_owner_at(twice.regions, address, k);
    assert(backed.home(address) == Some(Bucket::Pending));
    lemma_taken_in(registry, address, region, first_ip);
    lemma_taken_in(once, address, other_region, second_ip);
    lemma_registry_contains(registry, address);
    let same = admitted.add_backer(address, first_ip);
    assert(same.pending =~= admitted.pending);
    assert(same == admitted);
    assert(once.taken_in(address, other_region, first_ip).regions =~= once.regions);
}

} // verus!
