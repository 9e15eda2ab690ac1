//! The worker's configuration: where scene files and rendered frames are
//! stored, how many tasks may run at once, and the mode the worker runs in.

use vstd::prelude::*;

verus! {

/// Default free-space threshold in bytes below which no new task is taken.
pub const DEFAULT_DISKLIMIT: u64 = 200000000000;

/// Default cap on concurrent non-terminal tasks.
pub const DEFAULT_WORKLOAD: u64 = 1;

/// Default dwell time in seconds before an unused scene file may be reclaimed.
pub const DEFAULT_GRACE_PERIOD: u64 = 60;

/// Default upper bound in seconds on the heartbeat rate.
pub const DEFAULT_HEART_RATE: u64 = 60;

/// The mode the worker runs in: co-located with the coordinator (`Server`)
/// or standalone, talking to it over HTTP (`Independent`).
#[derive(Clone, Copy, PartialEq, Eq, Structural, Debug)]
pub enum Mode {
    Server,
    Independent,
}

impl Mode {
    /// True for the `Server` variant.
    pub fn is_server(&self) -> (r: bool)
        ensures
            r == (*self == Mode::Server),
    {
        match *self {
            Mode::Server => true,
            _ => false,
        }
    }

    /// True for the `Independent` variant.
    pub fn is_independent(&self) -> (r: bool)
        ensures
            r == (*self == Mode::Independent),
    {
        match *self {
            Mode::Independent => true,
            _ => false,
        }
    }
}

/// Holds the worker's configuration.  Immutable once the engine is built.
#[derive(Clone, Debug)]
pub struct WorkerConfig {
    /// Base URL of the coordinator.
    pub bender_url: String,
    /// Stable worker identity; generated by the caller on first start.
    pub id: String,
    /// Directory where scene files are stored.
    pub blendpath: String,
    /// Directory where rendered frames are stored.
    pub outpath: String,
    /// Refuse new tasks when free bytes at `outpath` are not above this.
    pub disklimit: u64,
    /// Cap on concurrent non-terminal tasks.
    pub workload: u64,
    /// Minimum age in seconds since last access before scene reclamation.
    pub grace_period: u64,
    /// The mode the worker runs in.
    pub mode: Mode,
    /// At most one heartbeat per this many seconds.
    pub heart_rate_seconds: u64,
}

impl WorkerConfig {
    /// The bounds every configuration the engine accepts must satisfy:
    /// a positive workload, a positive heartbeat rate, and second-valued
    /// tunables small enough that millisecond arithmetic cannot overflow.
    pub open spec fn wf(&self) -> bool {
        &&& self.workload >= 1
        &&& 1 <= self.heart_rate_seconds <= 1000000000
        &&& self.grace_period <= 1000000000
    }

    /// Create a configuration with the default values.  The identity and the
    /// two directories are left empty; the caller fills them in.
    pub fn new() -> (r: Self)
        ensures
            r.wf(),
            r.bender_url@ == "http://0.0.0.0:8000"@,
            r.id@ == Seq::<char>::empty(),
            r.blendpath@ == Seq::<char>::empty(),
            r.outpath@ == Seq::<char>::empty(),
            r.disklimit == DEFAULT_DISKLIMIT,
            r.workload == DEFAULT_WORKLOAD,
            r.grace_period == DEFAULT_GRACE_PERIOD,
            r.mode == Mode::Independent,
            r.heart_rate_seconds == DEFAULT_HEART_RATE,
    {
        WorkerConfig {
            bender_url: "http://0.0.0.0:8000".to_owned(),
            id: String::new(),
            blendpath: String::new(),
            outpath: String::new(),
            disklimit: DEFAULT_DISKLIMIT,
            workload: DEFAULT_WORKLOAD,
            grace_period: DEFAULT_GRACE_PERIOD,
            mode: Mode::Independent,
            heart_rate_seconds: DEFAULT_HEART_RATE,
        }
    }

    /// Whether this configuration is one the engine accepts, decided at run
    /// time so an unverified caller can test it before building the engine.
    pub fn is_valid(&self) -> (r: bool)
        ensures
            r == self.wf(),
    {
        self.workload >= 1 && 1 <= self.heart_rate_seconds
            && self.heart_rate_seconds <= 1000000000 && self.grace_period <= 1000000000
    }
}

impl Default for WorkerConfig {
    /// The default configuration equals `WorkerConfig::new()`.
    fn default() -> (r: Self)
        ensures
            r.wf(),
    {
        WorkerConfig::new()
    }
}

} // verus!
