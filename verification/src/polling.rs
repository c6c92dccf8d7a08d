//! Probe results: the latest outcome per instance and its classification.

use vstd::prelude::*;
use crate::clock::unix_now;
use crate::config::{PollingFeaturesConfig, ProbeKind};
use crate::text::{lemma_first, lemma_first_at, lemma_first_none, lemma_first_push, same_text};

verus! {

/// The latest probe outcome of one instance: for each probe kind the
/// latency in milliseconds if the probe succeeded, and the time of the probe
/// pass in seconds since the epoch.
///
/// A missing latency does not tell a failed probe from a disabled one;
/// classification always consults the enabled probe kinds.
#[derive(Clone, Copy, PartialEq, Eq, Debug)]
pub struct PolledSingleRecord {
    pub last_polled: u64,
    pub video: Option<u32>,
    pub playlist: Option<u32>,
    pub channel: Option<u32>,
    pub search: Option<u32>,
}

/// What a probe outcome says of an instance's health.
#[derive(Clone, Copy, PartialEq, Eq, Structural, Debug)]
pub enum Health {
    /// Every enabled probe succeeded.
    Well,
    /// Every enabled probe failed.
    Dead,
    /// Some enabled probes succeeded and some failed.
    Partial,
}

impl Default for PolledSingleRecord {
    fn default() -> (record: Self)
        ensures
            record == (PolledSingleRecord {
                last_polled: 0,
                video: None,
                playlist: None,
                channel: None,
                search: None,
            }),
    {
        PolledSingleRecord { last_polled: 0, video: None, playlist: None, channel: None, search: None }
    }
}

/// The latency of a probe, or zero where it has none.
pub open spec fn latency_or_zero(latency: Option<u32>) -> int {
    match latency {
        Some(ms) => ms as int,
        None => 0,
    }
}

impl PolledSingleRecord {
    /// Every enabled probe kind has a latency. True when none is enabled.
    pub open spec fn is_well(self, enabled: PollingFeaturesConfig) -> bool {
        &&& enabled.video ==> self.video is Some
        &&& enabled.playlist ==> self.playlist is Some
        &&& enabled.channel ==> self.channel is Some
        &&& enabled.search ==> self.search is Some
    }

    /// Every enabled probe kind lacks a latency. True when none is enabled.
    pub open spec fn is_dead(self, enabled: PollingFeaturesConfig) -> bool {
        &&& enabled.video ==> self.video is None
        &&& enabled.playlist ==> self.playlist is None
        &&& enabled.channel ==> self.channel is None
        &&& enabled.search ==> self.search is None
    }

    /// Some enabled probe kind has a latency and some enabled kind lacks
    /// one.
    pub open spec fn is_partial(self, enabled: PollingFeaturesConfig) -> bool {
        !self.is_well(enabled) && !self.is_dead(enabled)
    }

    /// The health that the outcome stands for. Wellness is tested first, so
    /// with no probe kind enabled the outcome counts as well.
    pub open spec fn health(self, enabled: PollingFeaturesConfig) -> Health {
        if self.is_well(enabled) {
            Health::Well
        } else if self.is_dead(enabled) {
            Health::Dead
        } else {
            Health::Partial
        }
    }

    /// The latency measured for the probe kind, if the probe succeeded.
    pub open spec fn latency_of(self, kind: ProbeKind) -> Option<u32> {
        match kind {
            ProbeKind::Video => self.video,
            ProbeKind::Playlist => self.playlist,
            ProbeKind::Channel => self.channel,
            ProbeKind::Search => self.search,
        }
    }

    /// The record of a probe pass that measured the given latencies and
    /// ended at `completed`: the latencies of the enabled probe kinds, and
    /// the time of the end, or the epoch where that lies before it.
    pub open spec fn assembled(
        enabled: PollingFeaturesConfig,
        video: Option<u32>,
        playlist: Option<u32>,
        channel: Option<u32>,
        search: Option<u32>,
        completed: i64,
    ) -> PolledSingleRecord {
        PolledSingleRecord {
            last_polled: if completed < 0 {
                0
            } else {
                completed as u64
            },
            video: if enabled.video {
                video
            } else {
                None
            },
            playlist: if enabled.playlist {
                playlist
            } else {
                None
            },
            channel: if enabled.channel {
                channel
            } else {
                None
            },
            search: if enabled.search {
                search
            } else {
                None
            },
        }
    }

    /// The sum of the four latencies, a missing one counting as zero.
    pub open spec fn total_latency(self) -> int {
        latency_or_zero(self.video) + latency_or_zero(self.playlist) + latency_or_zero(self.search)
            + latency_or_zero(self.channel)
    }

    /// The sum of the four latencies in milliseconds, a missing one counting
    /// as zero. The sum has to fit the result.
    pub fn score(&self) -> (sum: u32)
        requires
            self.total_latency() <= u32::MAX,
        ensures
            sum == self.total_latency(),
    {
        let video: u32 = match self.video { Some(ms) => ms, None => 0 };
        let playlist: u32 = match self.playlist { Some(ms) => ms, None => 0 };
        let search: u32 = match self.search { Some(ms) => ms, None => 0 };
        let channel: u32 = match self.channel { Some(ms) => ms, None => 0 };
        video + playlist + search + channel
    }

    /// The sum of the four latencies, as [`PolledSingleRecord::score`]
    /// gives it, or nothing where it is too large to be held.
    pub fn try_score(&self) -> (sum: Option<u32>)
        ensures
            sum is Some <==> self.total_latency() <= u32::MAX,
            sum is Some ==> sum.unwrap() == self.total_latency(),
    {
        let video: u64 = match self.video { Some(ms) => ms as u64, None => 0 };
        let playlist: u64 = match self.playlist { Some(ms) => ms as u64, None => 0 };
        let search: u64 = match self.search { Some(ms) => ms as u64, None => 0 };
        let channel: u64 = match self.channel { Some(ms) => ms as u64, None => 0 };
        if video + playlist + search + channel > u32::MAX as u64 {
            None
        } else {
            Some(self.score())
        }
    }

    /// The latency measured for the probe kind, if the probe succeeded.
    pub fn latency(&self, kind: ProbeKind) -> (latency: Option<u32>)
        ensures
            latency == self.latency_of(kind),
    {
        match kind {
            ProbeKind::Video => self.video,
            ProbeKind::Playlist => self.playlist,
            ProbeKind::Channel => self.channel,
            ProbeKind::Search => self.search,
        }
    }

    /// Whether every enabled probe kind succeeded.
    pub fn well(&self, enabled: &PollingFeaturesConfig) -> (all: bool)
        ensures
            all == self.is_well(*enabled),
    {
        !((self.video.is_none() && enabled.video)
            || (self.playlist.is_none() && enabled.playlist)
            || (self.channel.is_none() && enabled.channel)
            || (self.search.is_none() && enabled.search))
    }

    /// Whether every enabled probe kind failed.
    pub fn dead(&self, enabled: &PollingFeaturesConfig) -> (none: bool)
        ensures
            none == self.is_dead(*enabled),
    {
        !((self.video.is_some() && enabled.video)
            || (self.playlist.is_some() && enabled.playlist)
            || (self.channel.is_some() && enabled.channel)
            || (self.search.is_some() && enabled.search))
    }

    /// The health that the outcome stands for under the enabled probe
    /// kinds.
    pub fn classify(&self, enabled: &PollingFeaturesConfig) -> (health: Health)
        ensures
            health == self.health(*enabled),
    {
        if self.well(enabled) {
            Health::Well
        } else if self.dead(enabled) {
            Health::Dead
        } else {
            Health::Partial
        }
    }

    /// The record of one probe pass that ended at `completed`, in seconds
    /// since the epoch. A probe kind that is not enabled has no latency
    /// whatever was measured for it; a time before the epoch counts as the
    /// epoch.
    pub fn assemble_at(
        enabled: &PollingFeaturesConfig,
        video: Option<u32>,
        playlist: Option<u32>,
        channel: Option<u32>,
        search: Option<u32>,
        completed: i64,
    ) -> (record: Self)
        ensures
            record == Self::assembled(*enabled, video, playlist, channel, search, completed),
    {
        PolledSingleRecord {
            last_polled: if completed < 0 { 0 } else { completed as u64 },
            video: if enabled.video { video } else { None },
            playlist: if enabled.playlist { playlist } else { None },
            channel: if enabled.channel { channel } else { None },
            search: if enabled.search { search } else { None },
        }
    }

    /// The record of one probe pass that ends now. See
    /// [`PolledSingleRecord::assemble_at`].
    pub fn assemble(
        enabled: &PollingFeaturesConfig,
        video: Option<u32>,
        playlist: Option<u32>,
        channel: Option<u32>,
        search: Option<u32>,
    ) -> (record: Self)
        ensures
            exists|completed: i64|
                record == Self::assembled(*enabled, video, playlist, channel, search, completed),
    {
        let completed = unix_now();
        Self::assemble_at(enabled, video, playlist, channel, search, completed)
    }
}

/// The latency of a probe that took `elapsed` milliseconds: the number of
/// milliseconds, or the largest latency that can be held where it is more.
pub fn latency_millis(elapsed: u128) -> (latency: u32)
    ensures
        latency == if elapsed > u32::MAX { u32::MAX as int } else { elapsed as int },
{
    if elapsed > u32::MAX as u128 {
        u32::MAX
    } else {
        elapsed as u32
    }
}

/// An outcome is well exactly when every enabled probe kind has a latency,
/// and dead exactly when every enabled probe kind lacks one.
pub proof fn lemma_health_by_kind(record: PolledSingleRecord, enabled: PollingFeaturesConfig)
    ensures
        record.is_well(enabled) <==> forall|kind: ProbeKind|
            enabled.enables(kind) ==> record.latency_of(kind) is Some,
        record.is_dead(enabled) <==> forall|kind: ProbeKind|
            enabled.enables(kind) ==> record.latency_of(kind) is None,
{
    if forall|kind: ProbeKind| enabled.enables(kind) ==> record.latency_of(kind) is Some {
        assert(enabled.enables(ProbeKind::Video) ==> record.latency_of(ProbeKind::Video) is Some);
        assert(enabled.enables(ProbeKind::Playlist) ==> record.latency_of(ProbeKind::Playlist) is Some);
        assert(enabled.enables(ProbeKind::Channel) ==> record.latency_of(ProbeKind::Channel) is Some);
        assert(enabled.enables(ProbeKind::Search) ==> record.latency_of(ProbeKind::Search) is Some);
    }
    if forall|kind: ProbeKind| enabled.enables(kind) ==> record.latency_of(kind) is None {
        assert(enabled.enables(ProbeKind::Video) ==> record.latency_of(ProbeKind::Video) is None);
        assert(enabled.enables(ProbeKind::Playlist) ==> record.latency_of(ProbeKind::Playlist) is None);
        assert(enabled.enables(ProbeKind::Channel) ==> record.latency_of(ProbeKind::Channel) is None);
        assert(enabled.enables(ProbeKind::Search) ==> record.latency_of(ProbeKind::Search) is None);
    }
}

/// Classification is total: under any set of enabled probe kinds an outcome
/// is well, dead or partial; partial excludes the other two; and well and
/// dead hold together exactly when no probe kind is enabled, in which case
/// the outcome counts as well.
pub proof fn lemma_classification_total(record: PolledSingleRecord, enabled: PollingFeaturesConfig)
    ensures
        record.is_well(enabled) || record.is_dead(enabled) || record.is_partial(enabled),
        !(record.is_partial(enabled) && record.is_well(enabled)),
        !(record.is_partial(enabled) && record.is_dead(enabled)),
        (record.is_well(enabled) && record.is_dead(enabled)) <==> enabled.none_enabled(),
        enabled.none_enabled() ==> record.health(enabled) == Health::Well,
        record.health(enabled) == Health::Well <==> record.is_well(enabled),
        record.health(enabled) == Health::Dead <==> record.is_dead(enabled) && !enabled.none_enabled(),
        record.health(enabled) == Health::Partial <==> record.is_partial(enabled),
{
}

/// The poll ledger: the latest probe outcome of each instance, by address.
/// Where an address stands more than once, its first entry counts.
#[derive(Clone, PartialEq, Eq, Debug)]
pub struct PollingRecord(pub Vec<(String, PolledSingleRecord)>);

impl PollingRecord {
    /// The addresses of the entries, in order.
    pub open spec fn names(self) -> Seq<Seq<char>> {
        self.0@.map_values(|e: (String, PolledSingleRecord)| e.0@)
    }

    /// Whether no address has two entries. A poll ledger that grows by
    /// updates alone is of this kind.
    pub open spec fn distinct(self) -> bool {
        self.names().no_duplicates()
    }
}

impl View for PollingRecord {
    type V = Map<Seq<char>, PolledSingleRecord>;

    open spec fn view(&self) -> Map<Seq<char>, PolledSingleRecord> {
        Map::new(
            |address: Seq<char>| self.names().contains(address),
            |address: Seq<char>| self.0@[self.names().index_of_first(address).unwrap()].1,
        )
    }
}

/// When an instance was last probed, by the poll ledger: the epoch where it
/// never was.
pub open spec fn last_polled_of(polled: Map<Seq<char>, PolledSingleRecord>, address: Seq<char>) -> u64 {
    if polled.contains_key(address) {
        polled[address].last_polled
    } else {
        0
    }
}

impl PollingRecord {
    /// The poll ledger without an entry.
    pub fn new() -> (ledger: Self)
        ensures
            ledger@ == Map::<Seq<char>, PolledSingleRecord>::empty(),
            ledger.distinct(),
    {
        let ledger = PollingRecord(Vec::new());
        assert(ledger@ =~= Map::<Seq<char>, PolledSingleRecord>::empty());
        ledger
    }

    /// Index of the first entry for the address.
    fn position(&self, instance: &str) -> (at: Option<usize>)
        ensures
            match at {
                Some(i) => i < self.0.len() && self.names().index_of_first(instance@) == Some(i as int),
                None => self.names().index_of_first(instance@) is None,
            },
    {
        let ghost names = self.names();
        let mut i: usize = 0;
        while i < self.0.len()
            invariant
                i <= self.0.len(),
                names == self.names(),
                forall|j: int| 0 <= j < i ==> names[j] != instance@,
            decreases self.0.len() - i,
        {
            if same_text(self.0[i].0.as_str(), instance) {
                proof {
                    lemma_first_at(names, instance@, i as int);
                }
                return Some(i);
            }
            i += 1;
        }
        proof {
            lemma_first_none(names, instance@);
        }
        None
    }

    /// The latest probe outcome of the instance, if it has one.
    pub fn get(&self, instance: &str) -> (found: Option<PolledSingleRecord>)
        ensures
            found == if self@.contains_key(instance@) {
                Some(self@[instance@])
            } else {
                None
            },
    {
        proof {
            lemma_first(self.names(), instance@);
        }
        match self.position(instance) {
            Some(i) => Some(self.0[i].1),
            None => None,
        }
    }

    /// When the instance was last probed, in seconds since the epoch; the
    /// epoch itself where it never was.
    pub fn last_polled(&self, instance: &str) -> (at: u64)
        ensures
            at == last_polled_of(self@, instance@),
    {
        match self.get(instance) {
            Some(record) => record.last_polled,
            None => 0,
        }
    }

    /// Makes `record` the latest probe outcome of the instance, in place of
    /// the one it had, if any.
    pub fn update(&mut self, instance: String, record: PolledSingleRecord)
        ensures
            final(self)@ == old(self)@.insert(instance@, record),
            old(self).distinct() ==> final(self).distinct(),
    {
        let ghost names = self.names();
        proof {
            lemma_first(names, instance@);
        }
        let at = self.position(instance.as_str());
        let ghost found = at is Some;
        match at {
            Some(i) => {
                self.0[i].1 = record;
                assert(self.names() =~= names);
            },
            None => {
                self.0.push((instance, record));
                assert(self.names() =~= names.push(instance@));
            },
        }
        assert forall|address: Seq<char>| #[trigger] self@.contains_key(address) == old(
            self,
        )@.insert(instance@, record).contains_key(address) by {
            lemma_first(names, address);
            lemma_first(self.names(), address);
            if !found {
                lemma_first_push(names, instance@, address);
            }
        }
        assert forall|address: Seq<char>| #[trigger] self@.contains_key(address) implies self@[address] == old(
            self,
        )@.insert(instance@, record)[address] by {
            lemma_first(names, address);
            lemma_first(self.names(), address);
            if !found {
                lemma_first_push(names, instance@, address);
            }
        }
        assert(self@ =~= old(self)@.insert(instance@, record));
    }
}

} // verus!
