//! The sample source: the identifiers that probes are run against.

use vstd::prelude::*;
use crate::random::random_index;
use crate::text::texts;

verus! {

/// The identifiers that one probe kind can be run against.
#[derive(Clone, PartialEq, Eq, Debug)]
pub struct SampleSet(Vec<String>);

impl View for SampleSet {
    type V = Seq<Seq<char>>;

    closed spec fn view(&self) -> Seq<Seq<char>> {
        texts(self.0@)
    }
}

impl SampleSet {
    /// The sample set of the given identifiers.
    pub fn new(samples: Vec<String>) -> (set: Self)
        ensures
            set@ == texts(samples@),
    {
        SampleSet(samples)
    }

    /// The number of identifiers.
    pub fn len(&self) -> (len: usize)
        ensures
            len == self@.len(),
    {
        self.0.len()
    }

    /// Whether the set has no identifier.
    pub fn is_empty(&self) -> (empty: bool)
        ensures
            empty == (self@.len() == 0),
    {
        self.0.len() == 0
    }

    /// The identifier at `index`.
    pub fn sample(&self, index: usize) -> (id: String)
        requires
            index < self@.len(),
        ensures
            id@ == self@[index as int],
    {
        self.0[index].clone()
    }

    /// One of the identifiers, chosen at random. The set must not be
    /// empty.
    pub fn gen(&self) -> (id: String)
        requires
            self@.len() > 0,
        ensures
            self@.contains(id@),
    {
        let index = random_index(self.0.len());
        self.sample(index)
    }
}

/// The sample sets of the four probe kinds.
#[derive(Clone, PartialEq, Eq, Debug)]
pub struct Samples {
    pub video: SampleSet,
    pub playlist: SampleSet,
    pub channel: SampleSet,
    pub search: SampleSet,
}

/// The identifiers that the current probes are run against, one per probe
/// kind.
#[derive(Clone, PartialEq, Eq, Debug)]
pub struct PolledOn {
    pub video: String,
    pub playlist: String,
    pub channel: String,
    pub search: String,
}

impl Samples {
    /// Whether each probe kind has an identifier to draw.
    pub open spec fn usable(self) -> bool {
        &&& self.video@.len() > 0
        &&& self.playlist@.len() > 0
        &&& self.channel@.len() > 0
        &&& self.search@.len() > 0
    }

    /// Whether `ids` holds, for each probe kind, one of its identifiers.
    pub open spec fn offers(self, ids: PolledOn) -> bool {
        &&& self.video@.contains(ids.video@)
        &&& self.playlist@.contains(ids.playlist@)
        &&& self.channel@.contains(ids.channel@)
        &&& self.search@.contains(ids.search@)
    }

    /// Whether each probe kind has an identifier to draw.
    pub fn is_usable(&self) -> (usable: bool)
        ensures
            usable == self.usable(),
    {
        !self.video.is_empty() && !self.playlist.is_empty() && !self.channel.is_empty()
            && !self.search.is_empty()
    }

    /// Draws the first identifiers: for each probe kind one of its sample
    /// set, at random. No sample set may be empty.
    pub fn init(&self) -> (ids: PolledOn)
        requires
            self.usable(),
        ensures
            self.offers(ids),
    {
        PolledOn {
            video: self.video.gen(),
            playlist: self.playlist.gen(),
            channel: self.channel.gen(),
            search: self.search.gen(),
        }
    }

    /// Draws the identifiers anew, in place of the current ones: for each
    /// probe kind one of its sample set, at random. No sample set may be
    /// empty.
    pub fn gen(&self, current: &mut PolledOn)
        requires
            self.usable(),
        ensures
            self.offers(*final(current)),
    {
        let video = self.video.gen();
        let playlist = self.playlist.gen();
        let channel = self.channel.gen();
        let search = self.search.gen();
        current.video = video;
        current.playlist = playlist;
        current.channel = channel;
        current.search = search;
    }
}

impl PolledOn {
    /// The identifiers that probes are run against, as a value of its own.
    pub fn get(video: &str, playlist: &str, channel: &str, search: &str) -> (ids: Self)
        ensures
            ids.video@ == video@,
            ids.playlist@ == playlist@,
            ids.channel@ == channel@,
            ids.search@ == search@,
    {
        PolledOn {
            video: video.to_owned(),
            playlist: playlist.to_owned(),
            channel: channel.to_owned(),
            search: search.to_owned(),
        }
    }
}

} // verus!
