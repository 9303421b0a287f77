//! Bandwidth control decisions for an rsync transfer whose destination
//! write latency is watched drive by drive: parsing the kernel's and
//! ZFS's reports, latching each drive FAST or SLOW, choosing the pool's
//! canary and bandwidth, and the startup answers.

pub mod algs;
pub mod assessment;
pub mod fleet;
pub mod latency_control;
pub mod launch;
pub mod log;
pub mod nvme;
pub mod observe;
pub mod phase;
pub mod preflight;
pub mod probe;
pub mod state;
pub mod text;
pub mod topology;
pub mod types;

pub use algs::{classify, drive_bytes_written, evaluate, progress_delta, rank, write_deltas};
pub use assessment::{Assessment, BurstCounter, Verdict};
pub use fleet::{bwlimit_kb, control_actions, pool_is_fast, sample_index, ControlActions, select_canary, DriveStatus, FAST_POKE_KB, SLOW_POKE_KB};
pub use latency_control::{Reading, ReadingOutcome, SlowLatch, SMOOTHING_SAMPLES};
pub use launch::{parse_byte_count, parse_progress, ProgressRecords};
pub use log::{event_label, header_compatible, poke_state, CSV_HEADER};
pub use nvme::{block_name, nvme_controller, parse_temperature};
pub use observe::missing_flags;
pub use phase::Phase;
pub use preflight::{
    answer_is_yes, answer_or_default, last_run_contents, parse_last_run, run, validate_destination,
    validate_source, PathKind, PreflightError, PreflightResult,
};
pub use probe::{parse_disk_stats, DiskStatsError};
pub use state::{ActionRequest, RecoveryAction, RecoveryState};
pub use text::NumberError;
pub use topology::{is_nvme_name, pool_name, pool_paths, PoolError};
pub use types::{
    Canary, CanaryRole, Capabilities, Decision, DiskStats, DriveCapability, DriveId, MissingData,
    SampleLog, Severity, StorageLayout, StorageTopology, ThrottleAction,
};
