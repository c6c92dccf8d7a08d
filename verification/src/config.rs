//! Configuration values that the registry, the scheduler and the selector
//! are handed by their caller.

use vstd::prelude::*;
use crate::text::{
    lemma_first, lemma_first_at, lemma_first_none, lemma_first_push, same_text, texts,
};

verus! {

/// Process-wide settings.
#[derive(Clone, PartialEq, Eq, Debug)]
pub struct MasterConfig {
    /// Target size of each region's hot pool.
    pub hot_per_region: u32,
    /// Time allowed to one probe, in milliseconds.
    pub timeout: u32,
    /// Whether the service sits behind a reverse proxy.
    pub reverse_proxy: bool,
    /// Port the service listens on.
    pub port: u16,
}

/// Which probe kinds are run against an instance.
#[derive(Clone, Copy, PartialEq, Eq, Structural, Debug)]
pub struct PollingFeaturesConfig {
    pub video: bool,
    pub playlist: bool,
    pub search: bool,
    pub channel: bool,
}

/// One of the checks that are run against an instance.
#[derive(Clone, Copy, PartialEq, Eq, Structural, Debug)]
pub enum ProbeKind {
    Video,
    Playlist,
    Channel,
    Search,
}

impl PollingFeaturesConfig {
    /// Whether no probe kind is enabled.
    pub open spec fn none_enabled(self) -> bool {
        !self.video && !self.playlist && !self.search && !self.channel
    }

    /// Whether the probe kind is enabled.
    pub open spec fn enables(self, kind: ProbeKind) -> bool {
        match kind {
            ProbeKind::Video => self.video,
            ProbeKind::Playlist => self.playlist,
            ProbeKind::Channel => self.channel,
            ProbeKind::Search => self.search,
        }
    }

    /// The enabled probe kinds, in the order video, playlist, channel,
    /// search.
    pub open spec fn enabled_kinds(self) -> Seq<ProbeKind> {
        (if self.video {
            seq![ProbeKind::Video]
        } else {
            Seq::empty()
        }) + (if self.playlist {
            seq![ProbeKind::Playlist]
        } else {
            Seq::empty()
        }) + (if self.channel {
            seq![ProbeKind::Channel]
        } else {
            Seq::empty()
        }) + (if self.search {
            seq![ProbeKind::Search]
        } else {
            Seq::empty()
        })
    }

    /// The probes to run against an instance: one of each enabled kind, in
    /// the order video, playlist, channel, search.
    pub fn kinds(&self) -> (kinds: Vec<ProbeKind>)
        ensures
            kinds@ == self.enabled_kinds(),
            forall|kind: ProbeKind| kinds@.contains(kind) <==> self.enables(kind),
            kinds@.no_duplicates(),
    {
        let mut kinds: Vec<ProbeKind> = Vec::new();
        if self.video {
            kinds.push(ProbeKind::Video);
        }
        if self.playlist {
            kinds.push(ProbeKind::Playlist);
        }
        if self.channel {
            kinds.push(ProbeKind::Channel);
        }
        if self.search {
            kinds.push(ProbeKind::Search);
        }
        assert(kinds@ =~= self.enabled_kinds());
        assert forall|kind: ProbeKind| kinds@.contains(kind) <==> self.enables(kind) by {
            if self.enables(kind) {
                let videos: int = if self.video { 1 } else { 0 };
                let playlists: int = if self.playlist { 1 } else { 0 };
                let at: int = match kind {
                    ProbeKind::Video => 0,
                    ProbeKind::Playlist => videos,
                    ProbeKind::Channel => videos + playlists,
                    ProbeKind::Search => kinds@.len() - 1,
                };
                assert(kinds@[at] == kind);
            }
        }
        kinds
    }
}

/// How instances are probed.
#[derive(Clone, PartialEq, Eq, Debug)]
pub struct PollingConfig {
    /// Seconds after which an instance is due for its next probe.
    pub interval: u64,
    /// The probe kinds to run.
    pub features: PollingFeaturesConfig,
    /// Ceiling on the number of probe workers that run at once.
    pub max_concurrent: u32,
}

/// For each bucket, the share of its overdue instances that one scheduling
/// cycle takes up, in millionths.
#[derive(Clone, Copy, PartialEq, Eq, Structural, Debug)]
pub struct PollProbabilitiesConfig {
    pub hot: u32,
    pub recovered: u32,
    pub recovering: u32,
    pub dead: u32,
    pub stashed_recovering: u32,
    pub stashed_dead: u32,
    pub stashed: u32,
    pub pending: u32,
}

impl PollProbabilitiesConfig {
    /// The sum of the eight shares, in millionths.
    pub fn total(&self) -> (sum: u64)
        ensures
            sum == self.hot + self.recovered + self.recovering + self.dead
                + self.stashed_recovering + self.stashed_dead + self.stashed + self.pending,
    {
        self.hot as u64 + self.recovered as u64 + self.recovering as u64 + self.dead as u64
            + self.stashed_recovering as u64 + self.stashed_dead as u64 + self.stashed as u64
            + self.pending as u64
    }
}

/// The configured regions, each with the latency offset, in milliseconds,
/// that is added to its instances' measured latencies for display. Where a
/// name stands more than once, its first entry counts.
#[derive(Clone, PartialEq, Eq, Debug)]
pub struct OffsetsConfig(pub Vec<(String, i32)>);

impl OffsetsConfig {
    /// The names of the entries, in order.
    pub open spec fn names(self) -> Seq<Seq<char>> {
        self.0@.map_values(|e: (String, i32)| e.0@)
    }

    /// Whether no region has two entries. A configuration that grows by
    /// insertions alone is of this kind.
    pub open spec fn distinct(self) -> bool {
        self.names().no_duplicates()
    }

    /// Whether `region` is configured.
    pub open spec fn knows(self, region: Seq<char>) -> bool {
        self.names().contains(region)
    }

    /// The offset of `region`: that of the first entry with its name.
    pub open spec fn offset_of(self, region: Seq<char>) -> Option<i32> {
        match self.names().index_of_first(region) {
            Some(i) => Some(self.0@[i].1),
            None => None,
        }
    }

    /// The configuration without a region.
    pub fn new() -> (offsets: Self)
        ensures
            offsets.names() == Seq::<Seq<char>>::empty(),
            offsets.distinct(),
    {
        let offsets = OffsetsConfig(Vec::new());
        assert(offsets.names() =~= Seq::<Seq<char>>::empty());
        offsets
    }

    /// Configures `region` with `offset`, in place of the offset it had, if
    /// any. No other region is touched, and a new region joins at the end.
    pub fn insert(&mut self, region: String, offset: i32)
        ensures
            final(self).names() == if old(self).knows(region@) {
                old(self).names()
            } else {
                old(self).names().push(region@)
            },
            forall|other: Seq<char>| #[trigger]
                final(self).offset_of(other) == if other == region@ {
                    Some(offset)
                } else {
                    old(self).offset_of(other)
                },
            old(self).distinct() ==> final(self).distinct(),
    {
        let ghost names = self.names();
        proof {
            lemma_first(names, region@);
        }
        let mut at: Option<usize> = None;
        let mut i: usize = 0;
        while i < self.0.len() && at.is_none()
            invariant
                i <= self.0.len(),
                names == self.names(),
                self == old(self),
                match at {
                    Some(k) => k < self.0.len() && names.index_of_first(region@) == Some(k as int),
                    None => forall|j: int| 0 <= j < i ==> names[j] != region@,
                },
            decreases self.0.len() - i + if at is None { 1int } else { 0 },
        {
            if same_text(self.0[i].0.as_str(), region.as_str()) {
                proof {
                    lemma_first_at(names, region@, i as int);
                }
                at = Some(i);
            } else {
                i += 1;
            }
        }
        match at {
            Some(k) => {
                self.0[k].1 = offset;
                assert(self.names() =~= names);
            },
            None => {
                proof {
                    lemma_first_none(names, region@);
                }
                self.0.push((region, offset));
                assert(self.names() =~= names.push(region@));
            },
        }
        assert forall|other: Seq<char>| #[trigger]
            self.offset_of(other) == if other == region@ {
                Some(offset)
            } else {
                old(self).offset_of(other)
            } by {
            lemma_first(names, other);
            lemma_first(self.names(), other);
            if at is None {
                lemma_first_push(names, region@, other);
            }
        }
    }

    /// The offset configured for `region`, if the region is configured.
    pub fn offset(&self, region: &str) -> (found: Option<i32>)
        ensures
            found == self.offset_of(region@),
            found is Some <==> self.knows(region@),
    {
        let ghost names = self.names();
        let mut i: usize = 0;
        while i < self.0.len()
            invariant
                i <= self.0.len(),
                names == self.names(),
                forall|j: int| 0 <= j < i ==> names[j] != region@,
            decreases self.0.len() - i,
        {
            if same_text(self.0[i].0.as_str(), region) {
                proof {
                    lemma_first_at(names, region@, i as int);
                    lemma_first(names, region@);
                }
                return Some(self.0[i].1);
            }
            i += 1;
        }
        proof {
            lemma_first_none(names, region@);
            lemma_first(names, region@);
        }
        None
    }

    /// Whether `region` is configured.
    pub fn contains_key(&self, region: &str) -> (known: bool)
        ensures
            known == self.knows(region@),
    {
        self.offset(region).is_some()
    }

    /// The names of the configured regions, in order.
    pub fn regions(&self) -> (names: Vec<String>)
        ensures
            texts(names@) == self.names(),
            self.distinct() ==> texts(names@).no_duplicates(),
    {
        let mut names: Vec<String> = Vec::new();
        let mut i: usize = 0;
        while i < self.0.len()
            invariant
                i <= self.0.len(),
                names@.len() == i,
                forall|j: int| 0 <= j < i ==> names@[j]@ == self.0@[j].0@,
            decreases self.0.len() - i,
        {
            names.push(self.0[i].0.clone());
            i += 1;
        }
        assert(texts(names@) =~= self.names());
        names
    }
}

/// Where no region has two entries, every entry counts: the offset of a
/// region is that of its one entry.
pub proof fn lemma_offsets_distinct(offsets: OffsetsConfig, i: int)
    requires
        offsets.distinct(),
        0 <= i < offsets.0@.len(),
    ensures
        offsets.knows(offsets.0@[i].0@),
        offsets.offset_of(offsets.0@[i].0@) == Some(offsets.0@[i].1),
{
    let names = offsets.names();
    assert(names[i] == offsets.0@[i].0@);
    lemma_first(names, names[i]);
}

/// A measured latency as it is shown for a region: the latency plus the
/// region's offset, held within the range of latencies.
pub open spec fn shown_latency(latency: u32, offset: i32) -> u32 {
    let sum = latency + offset;
    if sum < 0 {
        0
    } else if sum > u32::MAX {
        u32::MAX
    } else {
        sum as u32
    }
}

/// The latency to show for a measured latency in a region with the given
/// offset, both in milliseconds.
pub fn adjusted_latency(latency: u32, offset: i32) -> (shown: u32)
    ensures
        shown == shown_latency(latency, offset),
{
    let sum: i64 = latency as i64 + offset as i64;
    if sum < 0 {
        0
    } else if sum > u32::MAX as i64 {
        u32::MAX
    } else {
        sum as u32
    }
}

/// Settings of the outbound side: probing and scheduling.
#[derive(Clone, PartialEq, Eq, Debug)]
pub struct OutboundConfig {
    pub polling: PollingConfig,
    pub offsets: OffsetsConfig,
    pub poll_probabilities: PollProbabilitiesConfig,
    /// Seconds between two scheduling cycles.
    pub check_interval: u64,
}

/// One entry of the region selector that is shown to users.
#[derive(Clone, PartialEq, Eq, Debug)]
pub struct RegionSelectorEntry {
    /// Name shown to the user.
    pub display: String,
    /// Name of the region in the registry.
    pub internal: String,
}

/// Latency bounds, in milliseconds, that separate a good probe result from a
/// moderate one and a moderate one from a bad one.
#[derive(Clone, Copy, PartialEq, Eq, Structural, Debug)]
pub struct LatencyThresholds {
    pub good: u32,
    pub moderate: u32,
}

/// The quality class of a latency as characters.
pub open spec fn quality_of(thresholds: LatencyThresholds, latency: u32) -> Seq<char> {
    if latency < thresholds.good {
        "good"@
    } else if latency < thresholds.moderate {
        "moderate"@
    } else {
        "bad"@
    }
}

impl LatencyThresholds {
    /// The quality class of `latency`: `"good"` below the first bound,
    /// `"moderate"` below the second, `"bad"` from there on.
    pub fn quality(&self, latency: u32) -> (class: &'static str)
        ensures
            class@ == quality_of(*self, latency),
    {
        if latency < self.good {
            "good"
        } else if latency < self.moderate {
            "moderate"
        } else {
            "bad"
        }
    }
}

/// Settings of the pages shown to users.
#[derive(Clone, PartialEq, Eq, Debug)]
pub struct InterfaceConfig {
    pub regions_selector: Vec<RegionSelectorEntry>,
    pub latency_thresholds: LatencyThresholds,
}

} // verus!
