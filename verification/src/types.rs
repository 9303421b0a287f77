//! The values that observation, topology and decisions pass around.

use std::collections::VecDeque;

use vstd::prelude::*;

verus! {

/// The numeric fields of one `/proc/diskstats` row that follow the device
/// name: `fields[0]` is the row's fourth column.
#[derive(Debug, Clone)]
pub struct DiskStats {
    pub fields: Vec<u64>,
}

/// Which drives are watched and what each reports.
#[derive(Debug, Clone)]
pub struct Capabilities {
    pub drives: Vec<DriveCapability>,
}

#[derive(Debug, Clone)]
pub struct DriveCapability {
    pub id: DriveId,
    pub model: Option<String>,
    pub serial: Option<String>,
    pub reports_temperature: bool,
    pub reports_write_latency: bool,
    pub reports_write_counters: bool,
}

/// A block device, by its kernel name (such as `nvme0n1`).
#[derive(Debug, Clone, PartialEq, Eq, Hash)]
pub struct DriveId {
    pub name: String,
}

#[derive(Debug, Clone, Copy, PartialEq, Eq)]
pub enum StorageLayout {
    Direct,
    MdRaid1,
    MdRaid10,
    MdRaid5or6,
    Lvm,
    LvmOverRaid,
    Unknown,
}

#[derive(Debug, Clone, Copy, PartialEq, Eq)]
pub enum CanaryRole {
    Logical,
    Physical,
    /// A compartment-level sentinel, such as a CPU package sensor; it guards
    /// against a shared cooling failure and takes no part in burst assessment.
    Thermal,
}

#[derive(Debug, Clone)]
pub struct Canary {
    pub id: DriveId,
    pub role: CanaryRole,
}

#[derive(Debug, Clone)]
pub struct StorageTopology {
    pub destination_path: String,
    pub logical_device: DriveId,
    pub layout: StorageLayout,
    pub canaries: Vec<Canary>,
}

/// A measurement that one observation could not make.
#[derive(Debug, Clone, PartialEq, Eq)]
pub enum MissingData {
    NvmeTemperature(DriveId),
    WriteLatency(DriveId),
    WriteCounters(DriveId),
    RsyncProgress,
}

#[derive(Debug, Clone, Copy, PartialEq, Eq)]
pub enum Severity {
    Ignore,
    Warning,
    Pause,
    Abort,
}

#[derive(Debug, Clone)]
pub enum ThrottleAction {
    Hold,
    Increase(u16),
    Decrease(u16),
}

/// The verdict on one observation's missing measurements.
#[derive(Debug, Clone)]
pub struct Decision {
    pub severity: Severity,
    pub message: Option<String>,
    pub action: ThrottleAction,
}

/// The log after `o` is pushed onto `s` with room for `max` entries: the
/// oldest entry leaves first when the log is at or over its size.
pub open spec fn log_push<T>(s: Seq<T>, max: nat, o: T) -> Seq<T> {
    let kept = if s.len() >= max && s.len() > 0 {
        s.drop_first()
    } else {
        s
    };
    kept.push(o)
}

/// The most recent observations, oldest first, up to `max_samples` of them
/// (at least one is always kept once pushed).
#[derive(Debug, Clone)]
pub struct SampleLog<T> {
    pub samples: VecDeque<T>,
    pub max_samples: usize,
}

impl<T> SampleLog<T> {
    pub fn new(max_samples: usize) -> (l: SampleLog<T>)
        ensures
            l.samples@ == Seq::<T>::empty(),
            l.max_samples == max_samples,
    {
        SampleLog { samples: VecDeque::with_capacity(max_samples), max_samples }
    }

    /// Appends an observation, first dropping the oldest when the log is full.
    pub fn push(&mut self, observation: T)
        ensures
            final(self).samples@ == log_push(old(self).samples@, old(self).max_samples as nat, observation),
            final(self).max_samples == old(self).max_samples,
    {
        if self.samples.len() >= self.max_samples {
            self.samples.pop_front();
        }
        self.samples.push_back(observation);
    }

    pub fn len(&self) -> (n: usize)
        ensures
            n == self.samples@.len(),
    {
        self.samples.len()
    }

    pub fn is_empty(&self) -> (b: bool)
        ensures
            b == (self.samples@.len() == 0),
    {
        self.samples.len() == 0
    }
}

/// A log never grows past its size (or one entry, for a size of zero), and
/// its newest entry is the one pushed last, after the entries kept in order.
pub proof fn sample_log_bounded<T>(s: Seq<T>, max: nat, o: T)
    ensures
        s.len() <= max ==> log_push(s, max, o).len() <= if max > 0 { max } else { 1 },
        log_push(s, max, o).last() == o,
        s.len() < max ==> log_push(s, max, o) == s.push(o),
        s.len() >= max && s.len() > 0 ==> log_push(s, max, o) == s.drop_first().push(o),
{
}

} // verus!
