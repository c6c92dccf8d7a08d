//! Instance records: what is known of one instance, and what a bucket of
//! the ledger keeps of it.

use vstd::prelude::*;
use crate::text::{holds_text, lemma_first_at, lemma_first_none, same_text, slice_texts, texts};

verus! {

/// The weight given to an instance that enters the hot pool without one.
/// Weights are counted in millionths, so this stands for a weight of one.
pub const DEFAULT_WEIGHT: u64 = 1_000_000;

/// A weight after it was multiplied by `multiplier`, both in millionths.
/// The product is rounded down and stops at the largest weight that can be
/// held.
pub open spec fn scaled(weight: u64, multiplier: u64) -> u64 {
    let product = (weight as int) * (multiplier as int) / 1_000_000;
    if product > u64::MAX {
        u64::MAX
    } else {
        product as u64
    }
}

/// Identity of one remote instance.
#[derive(PartialEq, Eq, Debug)]
pub struct InstanceRecord {
    /// Host name, the key by which the instance is found.
    pub address: String,
    /// Region the instance was first reported under.
    pub region: String,
    /// Reporter addresses that have confirmed the instance.
    pub backer: Vec<String>,
}

/// What an [`InstanceRecord`] holds, as mathematical values.
pub struct InstanceView {
    pub address: Seq<char>,
    pub region: Seq<char>,
    pub backers: Seq<Seq<char>>,
}

impl View for InstanceRecord {
    type V = InstanceView;

    open spec fn view(&self) -> InstanceView {
        InstanceView {
            address: self.address@,
            region: self.region@,
            backers: texts(self.backer@),
        }
    }
}

/// An instance that can be served, with its selection weight in millionths.
#[derive(Clone, PartialEq, Eq, Debug)]
pub struct HotRecord {
    pub instance: InstanceRecord,
    pub weight: u64,
}

impl HotRecord {
    /// Multiplies the weight by `multiplier`, counted in millionths. The
    /// product is rounded down and stops at the largest weight that can be
    /// held.
    pub fn update_weight(&mut self, multiplier: u64)
        ensures
            final(self).weight == scaled(old(self).weight, multiplier),
            final(self).instance == old(self).instance,
    {
        assert((self.weight as int) * (multiplier as int) <= 0xffff_ffff_ffff_ffff
            * 0xffff_ffff_ffff_ffff) by (nonlinear_arith)
            requires
                self.weight <= 0xffff_ffff_ffff_ffff,
                multiplier <= 0xffff_ffff_ffff_ffff,
        ;
        let product: u128 = (self.weight as u128) * (multiplier as u128) / 1_000_000;
        self.weight = if product > u64::MAX as u128 {
            u64::MAX
        } else {
            product as u64
        };
    }
}

/// An instance found dead, with the time of death in seconds since the epoch.
#[derive(Clone, PartialEq, Eq, Debug)]
pub struct DeadRecord {
    pub instance: InstanceRecord,
    pub dead_since: i64,
}

/// One instance as it sits in a bucket: its identity, its weight where the
/// bucket keeps one, and its time of death where the bucket keeps one.
pub struct Entry {
    pub instance: InstanceView,
    pub weight: Option<u64>,
    pub dead_since: Option<i64>,
}

/// The addresses of a bucket's entries, in order.
pub open spec fn addresses(bucket: Seq<Entry>) -> Seq<Seq<char>> {
    bucket.map_values(|e: Entry| e.instance.address)
}

/// A record that sits in a bucket of the ledger.
pub trait Located: Sized {
    /// The record as a bucket entry.
    spec fn entry(&self) -> Entry;

    /// The address of the record's instance.
    fn address(&self) -> (a: &str)
        ensures
            a@ == self.entry().instance.address,
    ;

    /// Notes `ip` as a backer of the instance unless it already is one.
    fn confirm(&mut self, ip: &str)
        ensures
            final(self).entry() == old(self).entry().confirmed(ip@),
    ;

    /// A copy of the record.
    fn duplicate(&self) -> (copy: Self)
        ensures
            copy.entry() == self.entry(),
    ;
}

impl InstanceView {
    /// The instance with `ip` among its backers: appended when it is new,
    /// unchanged when it is already there.
    pub open spec fn confirmed(self, ip: Seq<char>) -> InstanceView {
        if self.backers.contains(ip) {
            self
        } else {
            InstanceView { backers: self.backers.push(ip), ..self }
        }
    }
}

impl Entry {
    /// The entry with `ip` among its instance's backers.
    pub open spec fn confirmed(self, ip: Seq<char>) -> Entry {
        Entry { instance: self.instance.confirmed(ip), ..self }
    }
}

/// The entries of a bucket's records, in order.
pub open spec fn entries<T: Located>(bucket: Seq<T>) -> Seq<Entry> {
    bucket.map_values(|r: T| r.entry())
}

impl Clone for InstanceRecord {
    fn clone(&self) -> (copy: Self)
        ensures
            copy@ == self@,
    {
        let mut backer: Vec<String> = Vec::new();
        let mut i: usize = 0;
        while i < self.backer.len()
            invariant
                i <= self.backer.len(),
                backer@.len() == i,
                forall|j: int| 0 <= j < i ==> backer@[j]@ == self.backer@[j]@,
            decreases self.backer.len() - i,
        {
            backer.push(self.backer[i].clone());
            i += 1;
        }
        assert(texts(backer@) =~= texts(self.backer@));
        InstanceRecord { address: self.address.clone(), region: self.region.clone(), backer }
    }
}

impl InstanceRecord {
    /// Notes `ip` as a backer unless it already is one.
    pub fn add_backer(&mut self, ip: &str)
        ensures
            final(self)@ == old(self)@.confirmed(ip@),
    {
        if !holds_text(&self.backer, ip) {
            self.backer.push(ip.to_owned());
            assert(texts(self.backer@) =~= texts(old(self).backer@).push(ip@));
        }
    }
}

impl Located for InstanceRecord {
    open spec fn entry(&self) -> Entry {
        Entry { instance: self@, weight: None, dead_since: None }
    }

    fn address(&self) -> (a: &str) {
        self.address.as_str()
    }

    fn confirm(&mut self, ip: &str) {
        self.add_backer(ip);
    }

    fn duplicate(&self) -> (copy: Self) {
        self.clone()
    }
}

impl Located for HotRecord {
    open spec fn entry(&self) -> Entry {
        Entry { instance: self.instance@, weight: Some(self.weight), dead_since: None }
    }

    fn address(&self) -> (a: &str) {
        self.instance.address.as_str()
    }

    fn confirm(&mut self, ip: &str) {
        self.instance.add_backer(ip);
    }

    fn duplicate(&self) -> (copy: Self) {
        HotRecord { instance: self.instance.clone(), weight: self.weight }
    }
}

impl Located for DeadRecord {
    open spec fn entry(&self) -> Entry {
        Entry { instance: self.instance@, weight: None, dead_since: Some(self.dead_since) }
    }

    fn address(&self) -> (a: &str) {
        self.instance.address.as_str()
    }

    fn confirm(&mut self, ip: &str) {
        self.instance.add_backer(ip);
    }

    fn duplicate(&self) -> (copy: Self) {
        DeadRecord { instance: self.instance.clone(), dead_since: self.dead_since }
    }
}

impl Located for (DeadRecord, u64) {
    open spec fn entry(&self) -> Entry {
        Entry {
            instance: self.0.instance@,
            weight: Some(self.1),
            dead_since: Some(self.0.dead_since),
        }
    }

    fn address(&self) -> (a: &str) {
        self.0.instance.address.as_str()
    }

    fn confirm(&mut self, ip: &str) {
        self.0.instance.add_backer(ip);
    }

    fn duplicate(&self) -> (copy: Self) {
        (DeadRecord { instance: self.0.instance.clone(), dead_since: self.0.dead_since }, self.1)
    }
}

/// Index of the first record of `bucket` whose address is `instance`.
pub(crate) fn find<T: Located>(bucket: &Vec<T>, instance: &str) -> (at: Option<usize>)
    ensures
        match at {
            Some(i) => {
                &&& i < bucket.len()
                &&& addresses(entries(bucket@)).index_of_first(instance@) == Some(i as int)
            },
            None => addresses(entries(bucket@)).index_of_first(instance@) is None,
        },
{
    let ghost names = addresses(entries(bucket@));
    let mut i: usize = 0;
    while i < bucket.len()
        invariant
            i <= bucket.len(),
            names == addresses(entries(bucket@)),
            forall|j: int| 0 <= j < i ==> names[j] != instance@,
        decreases bucket.len() - i,
    {
        if same_text(bucket[i].address(), instance) {
            proof {
                lemma_first_at(names, instance@, i as int);
            }
            return Some(i);
        }
        i += 1;
    }
    proof {
        lemma_first_none(names, instance@);
    }
    None
}

/// Notes `ip` as a backer of the first record of `bucket` whose address is
/// `instance`. Returns whether there is such a record.
pub(crate) fn confirm_in<T: Located>(bucket: &mut Vec<T>, instance: &str, ip: &str) -> (found: bool)
    ensures
        found == addresses(entries(old(bucket)@)).index_of_first(instance@).is_some(),
        entries(final(bucket)@) == match addresses(entries(old(bucket)@)).index_of_first(instance@) {
            Some(i) => entries(old(bucket)@).update(i, entries(old(bucket)@)[i].confirmed(ip@)),
            None => entries(old(bucket)@),
        },
{
    match find(bucket, instance) {
        Some(i) => {
            bucket[i].confirm(ip);
            assert(entries(bucket@) =~= entries(old(bucket)@).update(
                i as int,
                entries(old(bucket)@)[i as int].confirmed(ip@),
            ));
            true
        },
        None => false,
    }
}

/// Appends the addresses of `bucket`, in order, to `out`.
pub(crate) fn collect_addresses<'a, T: Located>(bucket: &'a Vec<T>, out: &mut Vec<&'a str>)
    ensures
        slice_texts(final(out)@) == slice_texts(old(out)@) + addresses(entries(bucket@)),
{
    let mut i: usize = 0;
    while i < bucket.len()
        invariant
            i <= bucket.len(),
            out@.len() == old(out)@.len() + i,
            forall|j: int| 0 <= j < old(out)@.len() ==> out@[j] == old(out)@[j],
            forall|j: int| 0 <= j < i ==> out@[old(out)@.len() + j]@ == addresses(entries(bucket@))[j],
        decreases bucket.len() - i,
    {
        out.push(bucket[i].address());
        i += 1;
    }
    assert(slice_texts(out@) =~= slice_texts(old(out)@) + addresses(entries(bucket@)));
}

/// Appends a copy of each record of `bucket`, in order, to `out`.
pub(crate) fn extend_with<T: Located>(out: &mut Vec<T>, bucket: &Vec<T>)
    ensures
        entries(final(out)@) == entries(old(out)@) + entries(bucket@),
{
    let mut i: usize = 0;
    while i < bucket.len()
        invariant
            i <= bucket.len(),
            out@.len() == old(out)@.len() + i,
            forall|j: int| 0 <= j < old(out)@.len() ==> out@[j].entry() == old(out)@[j].entry(),
            forall|j: int| 0 <= j < i ==> out@[old(out)@.len() + j].entry() == bucket@[j].entry(),
        decreases bucket.len() - i,
    {
        out.push(bucket[i].duplicate());
        i += 1;
    }
    assert(entries(out@) =~= entries(old(out)@) + entries(bucket@));
}

} // verus!
