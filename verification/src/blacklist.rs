//! Lists of reporters and instances that are not served.

use vstd::prelude::*;
use vstd::hash_set::StringHashSet;
use crate::text::{text_set, texts};

verus! {

/// A list of addresses that are not served.
#[derive(Clone, PartialEq, Eq, Debug)]
pub struct BlackList(Vec<String>);

impl View for BlackList {
    type V = Seq<Seq<char>>;

    closed spec fn view(&self) -> Seq<Seq<char>> {
        texts(self.0@)
    }
}

impl BlackList {
    /// The list of the given addresses.
    pub fn new(entries: Vec<String>) -> (list: Self)
        ensures
            list@ == texts(entries@),
    {
        BlackList(entries)
    }

    /// The addresses of the list as a set.
    pub fn hashset(&self) -> (set: StringHashSet)
        ensures
            forall|address: Seq<char>| set@.contains(address) <==> self@.contains(address),
    {
        text_set(&self.0)
    }
}

/// The list of reporters and the list of instances that are not served.
#[derive(Clone, PartialEq, Eq, Debug)]
pub struct BlackLists {
    pub ip: BlackList,
    pub instance: BlackList,
}

impl BlackLists {
    /// Both lists as sets: first the reporters, then the instances.
    pub fn init(&self) -> (sets: (StringHashSet, StringHashSet))
        ensures
            forall|address: Seq<char>| sets.0@.contains(address) <==> self.ip@.contains(address),
            forall|address: Seq<char>| sets.1@.contains(address) <==> self.instance@.contains(address),
    {
        (self.ip.hashset(), self.instance.hashset())
    }
}

} // verus!
