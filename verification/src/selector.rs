//! The instance selector: a random pick among the hot instances, each in
//! proportion to its weight.

use vstd::prelude::*;
use crate::config::OffsetsConfig;
use crate::instances::{entries, Entry, HotRecord, InstanceRecord, InstanceView, Located};
use crate::random::random_below;
use crate::registry::{merged_ledgers, InstancesRecords, RegistryView};

verus! {

/// The weight of an entry, zero where it has none.
pub open spec fn weight_of(entry: Entry) -> nat {
    match entry.weight {
        Some(w) => w as nat,
        None => 0,
    }
}

/// The sum of the weights of the candidates.
pub open spec fn total_weight(candidates: Seq<Entry>) -> nat
    decreases candidates.len(),
{
    if candidates.len() == 0 {
        0
    } else {
        total_weight(candidates.drop_last()) + weight_of(candidates.last())
    }
}

/// The index that a draw selects. The candidates are walked in order and
/// each one's weight is taken off the draw; the first candidate whose
/// weight the draw no longer covers is selected, and the last one where the
/// draw covers them all.
pub open spec fn walk(candidates: Seq<Entry>, draw: int) -> int
    decreases candidates.len(),
{
    if candidates.len() <= 1 {
        0
    } else if draw < weight_of(candidates[0]) {
        0
    } else {
        1 + walk(candidates.drop_first(), draw - weight_of(candidates[0]))
    }
}

/// Why no instance was picked.
#[derive(Clone, Copy, PartialEq, Eq, Structural, Debug)]
pub enum PickError {
    /// The requested region is not configured.
    NoSuchRegion,
    /// No instance is hot in the requested scope.
    NoInstance,
}

impl RegistryView {
    /// The candidates for a pick: the hot instances of the first region of
    /// the given name, or of all regions together where none is given.
    pub open spec fn candidates(self, region: Option<Seq<char>>) -> Seq<Entry> {
        match region {
            Some(name) => match self.names().index_of_first(name) {
                Some(i) => self.regions[i].ledger.hot,
                None => Seq::empty(),
            },
            None => self.global().hot,
        }
    }

    /// The outcome of a pick with the given draw.
    pub open spec fn pick(
        self,
        region: Option<Seq<char>>,
        configured: Seq<Seq<char>>,
        draw: int,
    ) -> Result<InstanceView, PickError> {
        if region is Some && !configured.contains(region.unwrap()) {
            Err(PickError::NoSuchRegion)
        } else if self.candidates(region).len() == 0 {
            Err(PickError::NoInstance)
        } else {
            Ok(self.candidates(region)[walk(self.candidates(region), draw)].instance)
        }
    }
}

/// The scope of a pick as characters.
pub open spec fn scope_of(region: Option<&str>) -> Option<Seq<char>> {
    match region {
        Some(name) => Some(name@),
        None => None,
    }
}

/// The outcome of a pick as mathematical values.
pub open spec fn picked_view(picked: Result<InstanceRecord, PickError>) -> Result<
    InstanceView,
    PickError,
> {
    match picked {
        Ok(instance) => Ok(instance@),
        Err(e) => Err(e),
    }
}

/// The entries of a list of references to hot records.
pub open spec fn ref_entries(candidates: Seq<&HotRecord>) -> Seq<Entry> {
    candidates.map_values(|r: &HotRecord| r.entry())
}

/// A walk ends at one of the candidates.
pub proof fn lemma_walk_bounds(candidates: Seq<Entry>, draw: int)
    requires
        candidates.len() > 0,
    ensures
        0 <= walk(candidates, draw) < candidates.len(),
    decreases candidates.len(),
{
    if candidates.len() > 1 && draw >= weight_of(candidates[0]) {
        lemma_walk_bounds(candidates.drop_first(), draw - weight_of(candidates[0]));
    }
}

/// Appends a reference to each record of `bucket` to `out`.
fn collect_refs<'a>(bucket: &'a Vec<HotRecord>, out: &mut Vec<&'a HotRecord>)
    ensures
        ref_entries(final(out)@) == ref_entries(old(out)@) + entries(bucket@),
{
    let mut i: usize = 0;
    while i < bucket.len()
        invariant
            i <= bucket.len(),
            out@.len() == old(out)@.len() + i,
            forall|j: int| 0 <= j < old(out)@.len() ==> out@[j] == old(out)@[j],
            forall|j: int| 0 <= j < i ==> *out@[old(out)@.len() + j] == bucket@[j],
        decreases bucket.len() - i,
    {
        out.push(&bucket[i]);
        i += 1;
    }
    assert(ref_entries(out@) =~= ref_entries(old(out)@) + entries(bucket@));
}

/// The sum of the candidates' weights.
pub fn sum_weights(candidates: &Vec<&HotRecord>) -> (sum: u128)
    ensures
        sum == total_weight(ref_entries(candidates@)),
{
    let ghost all = ref_entries(candidates@);
    let mut sum: u128 = 0;
    let mut i: usize = 0;
    while i < candidates.len()
        invariant
            i <= candidates.len(),
            all == ref_entries(candidates@),
            sum == total_weight(all.take(i as int)),
            sum <= i * 0xffff_ffff_ffff_ffff,
        decreases candidates.len() - i,
    {
        assert(all.take(i + 1).drop_last() =~= all.take(i as int));
        assert((i + 1) * 0xffff_ffff_ffff_ffff <= 0xffff_ffff_ffff_ffff * 0xffff_ffff_ffff_ffff
            + 0xffff_ffff_ffff_ffff) by (nonlinear_arith)
            requires
                i < 0xffff_ffff_ffff_ffff,
        ;
        sum = sum + candidates[i].weight as u128;
        i += 1;
    }
    assert(all.take(i as int) =~= all);
    sum
}

/// The index among the candidates that `draw` selects: the first
/// candidate at which the weights walked so far exceed the draw, or the
/// last candidate where they never do.
pub fn select(candidates: &Vec<&HotRecord>, draw: u128) -> (index: usize)
    requires
        candidates.len() > 0,
    ensures
        index == walk(ref_entries(candidates@), draw as int),
        index < candidates.len(),
{
    let ghost all = ref_entries(candidates@);
    let mut take: u128 = draw;
    let mut i: usize = 0;
    assert(all.skip(0) =~= all);
    while i < candidates.len() - 1
        invariant
            i < candidates.len(),
            all == ref_entries(candidates@),
            walk(all, draw as int) == i + walk(all.skip(i as int), take as int),
        decreases candidates.len() - i,
    {
        let weight = candidates[i].weight as u128;
        let ghost rest = all.skip(i as int);
        assert(rest[0] == all[i as int]);
        assert(rest.drop_first() =~= all.skip(i + 1));
        if take < weight {
            return i;
        }
        take = take - weight;
        i += 1;
    }
    i
}

impl InstancesRecords {
    /// The candidates for a pick in the given scope.
    fn candidates<'a>(&'a self, region: Option<&str>) -> (found: Vec<&'a HotRecord>)
        ensures
            ref_entries(found@) == self@.candidates(scope_of(region)),
    {
        let mut found: Vec<&HotRecord> = Vec::new();
        assert(ref_entries(found@) =~= Seq::<Entry>::empty());
        match region {
            Some(name) => {
                match self.position(name) {
                    Some(i) => {
                        collect_refs(&self.0[i].1.hot, &mut found);
                        assert(ref_entries(found@) =~= self@.regions[i as int].ledger.hot);
                    },
                    None => {},
                }
            },
            None => {
                let mut i: usize = 0;
                while i < self.0.len()
                    invariant
                        i <= self.0.len(),
                        ref_entries(found@) == merged_ledgers(self@.regions.take(i as int)).hot,
                    decreases self.0.len() - i,
                {
                    collect_refs(&self.0[i].1.hot, &mut found);
                    i += 1;
                    assert(self@.regions.take(i as int).drop_last() =~= self@.regions.take(i - 1));
                }
                assert(self@.regions.take(i as int) =~= self@.regions);
            },
        }
        found
    }

    /// Picks the instance that `draw` selects among the hot instances of
    /// `region`, or of all regions where none is given.
    ///
    /// Fails with `NoSuchRegion` where a region is given that `offsets`
    /// does not configure, and with `NoInstance` where the scope has no hot
    /// instance.
    pub fn pick_with(
        &self,
        region: Option<&str>,
        offsets: &OffsetsConfig,
        draw: u128,
    ) -> (picked: Result<InstanceRecord, PickError>)
        ensures
            picked_view(picked) == self@.pick(scope_of(region), offsets.names(), draw as int),
    {
        if let Some(name) = region {
            if !offsets.contains_key(name) {
                return Err(PickError::NoSuchRegion);
            }
        }
        let found = self.candidates(region);
        if found.len() == 0 {
            return Err(PickError::NoInstance);
        }
        let index = select(&found, draw);
        Ok(found[index].instance.clone())
    }

    /// Picks an instance at random among the hot instances of `region`, or
    /// of all regions where none is given, each in proportion to its
    /// weight: the draw is uniform below the sum of the weights, and zero
    /// where that sum is zero. See [`InstancesRecords::pick_with`].
    pub fn pick(
        &self,
        region: Option<&str>,
        offsets: &OffsetsConfig,
    ) -> (picked: Result<InstanceRecord, PickError>)
        ensures
            exists|draw: int|
                {
                    &&& 0 <= draw
                    &&& draw < total_weight(self@.candidates(scope_of(region))) || draw == 0
                    &&& picked_view(picked) == #[trigger] self@.pick(
                        scope_of(region),
                        offsets.names(),
                        draw,
                    )
                },
    {
        let found = self.candidates(region);
        let sum = sum_weights(&found);
        let draw: u128 = if sum > 0 {
            random_below(sum)
        } else {
            0
        };
        self.pick_with(region, offsets, draw)
    }
}

} // verus!
