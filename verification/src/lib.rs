//! Health registry for a fleet of federated service instances.
//!
//! The crate keeps, per region, a ledger of instances bucketed by lifecycle
//! state, decides which instances are due for a probe, classifies probe
//! results, and picks a healthy instance at random in proportion to its
//! weight.
//!
//! Contracts are stated over mathematical views of the data and proved by
//! Verus. Four functions call out to other code and are believed by their
//! contracts instead: the comparison of two string slices, the system clock
//! and the two random draws.
//!
//! Weights and shares are whole numbers of millionths; times are whole
//! seconds since the Unix epoch.

pub mod text;
pub mod clock;
pub mod random;
pub mod config;
pub mod blacklist;
pub mod samples;
pub mod instances;
pub mod ledger;
pub mod ledger_laws;
pub mod polling;
pub mod registry;
pub mod registry_laws;
pub mod scheduler;
pub mod scheduler_laws;
pub mod selector;
pub mod selector_laws;
pub mod pool;

pub use blacklist::{BlackList, BlackLists};
pub use config::{
    adjusted_latency, InterfaceConfig, LatencyThresholds, MasterConfig, OffsetsConfig, OutboundConfig,
    PollProbabilitiesConfig, PollingConfig, PollingFeaturesConfig, ProbeKind, RegionSelectorEntry,
};
pub use instances::{DeadRecord, HotRecord, InstanceRecord, Located, DEFAULT_WEIGHT};
pub use ledger::{Bucket, RegionRecords};
pub use polling::{latency_millis, Health, PolledSingleRecord, PollingRecord};
pub use pool::{PollQueue, WorkerAction};
pub use registry::{AddOutcome, InstancesRecords, UnknownRegion};
pub use samples::{PolledOn, SampleSet, Samples};
pub use selector::{select, sum_weights, PickError};
