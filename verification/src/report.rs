//! The record of a completed workload for `--json`: one object per workload.

use vstd::prelude::*;

use crate::disk::DiskInfo;
use crate::duration::Duration;
use crate::fio::RunSample;
use crate::measure::Reading;
use crate::platform::Platform;
use crate::runner::{Config, OpResult};
use crate::task;
use crate::task::{Fault, Pattern, TaskSpec};
use crate::text;

verus! {

/// One completed operation. Bandwidths are in bytes per second.
#[derive(Debug)]
pub struct WorkloadReport {
    pub schema: u32,
    pub timestamp_unix: u64,
    pub task: String,
    pub label: String,
    pub pattern: &'static str,
    pub block_size: u64,
    pub queue_depth: u32,
    pub threads: u32,
    pub op: &'static str,
    pub runs: u32,
    pub duration: Duration,
    pub warmup: Duration,
    pub best: Score,
    pub all_runs: Vec<RunSample>,
    pub target: String,
    pub disk: Option<DiskReport>,
    pub size_bytes: u64,
    pub engine: &'static str,
    pub fio_version: String,
}

/// Identity of the volume under test, captured at startup.
#[derive(Debug)]
pub struct DiskReport {
    pub source: String,
    pub volume: Option<String>,
    pub file_system: String,
    pub mount: String,
    pub total_bytes: u64,
    pub available_bytes: u64,
}

/// The score of an operation.
#[derive(Debug, Clone, Copy, PartialEq, Eq, Structural)]
pub struct Score {
    pub bytes_per_sec: Reading,
    pub iops: Reading,
    pub lat_us: Reading,
}

/// The access pattern in words.
pub open spec fn pattern_name(pattern: Pattern) -> Seq<char> {
    match pattern {
        Pattern::Sequential => "sequential"@,
        Pattern::Random => "random"@,
    }
}

impl DiskReport {
    /// Whether this identifies `d`.
    pub open spec fn is_of(self, d: DiskInfo) -> bool {
        &&& self.source@ == d.source@
        &&& (match (self.volume, d.volume) {
            (Some(a), Some(b)) => a@ == b@,
            (None, None) => true,
            _ => false,
        })
        &&& self.file_system@ == d.file_system@
        &&& self.mount@ == d.mount@
        &&& self.total_bytes == d.total
        &&& self.available_bytes == d.available
    }
}

impl WorkloadReport {
    /// Whether the report describes `result`, a result of the session `cfg`.
    pub open spec fn is_of(self, result: OpResult, cfg: Config) -> bool {
        &&& self.schema == 1
        &&& self.task@ == result.spec.id_text()
        &&& self.label@ == result.spec.label_text()
        &&& self.pattern@ == pattern_name(result.spec.pattern)
        &&& self.block_size == result.spec.block_size
        &&& self.queue_depth == result.spec.queue_depth
        &&& self.threads == result.spec.threads
        &&& self.op@ == result.op.name_text()
        &&& self.runs == result.runs@.len() as u32
        &&& self.duration == cfg.duration
        &&& self.warmup == cfg.warmup
        &&& self.best == (Score {
            bytes_per_sec: result.bytes_per_sec,
            iops: result.iops,
            lat_us: result.lat_us,
        })
        &&& self.all_runs@ == result.runs@
        &&& self.target@ == cfg.target@
        &&& self.size_bytes == cfg.size
    }

    /// Whether the report names the volume `disk`, or none where there is none.
    pub open spec fn names_disk(self, disk: Option<&DiskInfo>) -> bool {
        match (self.disk, disk) {
            (Some(report), Some(d)) => report.is_of(*d),
            (None, None) => true,
            _ => false,
        }
    }
}

fn disk_report(d: &DiskInfo) -> (r: DiskReport)
    ensures
        r.is_of(*d),
{
    let volume = match &d.volume {
        Some(s) => Some(s.as_str().to_owned()),
        None => None,
    };
    DiskReport {
        source: d.source.as_str().to_owned(),
        volume,
        file_system: d.file_system.as_str().to_owned(),
        mount: d.mount.as_str().to_owned(),
        total_bytes: d.total,
        available_bytes: d.available,
    }
}

/// The record of one completed operation, made at `now` (seconds since the
/// Unix epoch).
pub fn workload_report(
    result: &OpResult,
    cfg: &Config,
    disk: Option<&DiskInfo>,
    platform: Platform,
    fio_version: &str,
    now: u64,
) -> (r: WorkloadReport)
    ensures
        r.is_of(*result, *cfg),
        r.names_disk(disk),
        r.engine@ == platform.engine_text(),
        r.fio_version@ == fio_version@,
        r.timestamp_unix == now,
{
    let mut all_runs: Vec<RunSample> = Vec::new();
    let mut i: usize = 0;
    while i < result.runs.len()
        invariant
            i <= result.runs.len(),
            all_runs@ == result.runs@.take(i as int),
        decreases result.runs.len() - i,
    {
        all_runs.push(result.runs[i]);
        assert(result.runs@.take(i as int + 1) =~= result.runs@.take(i as int).push(
            result.runs@[i as int],
        ));
        i += 1;
    }
    assert(result.runs@.take(i as int) =~= result.runs@);
    let pattern = match result.spec.pattern {
        Pattern::Sequential => "sequential",
        Pattern::Random => "random",
    };
    let disk = match disk {
        Some(d) => Some(disk_report(d)),
        None => None,
    };
    WorkloadReport {
        schema: 1,
        timestamp_unix: now,
        task: result.spec.id(),
        label: result.spec.to_string(),
        pattern,
        block_size: result.spec.block_size,
        queue_depth: result.spec.queue_depth,
        threads: result.spec.threads,
        op: result.op.name(),
        runs: result.runs.len() as u32,
        duration: cfg.duration,
        warmup: cfg.warmup,
        best: Score {
            bytes_per_sec: result.bytes_per_sec,
            iops: result.iops,
            lat_us: result.lat_us,
        },
        all_runs,
        target: cfg.target.as_str().to_owned(),
        disk,
        size_bytes: cfg.size,
        engine: platform.engine(),
        fio_version: fio_version.to_owned(),
    }
}

/// A record says what was measured, and of what: the task by an identifier that
/// reads back as that task and by each of its numbers, the direction, the best
/// values and every run, the session's settings and its file.
pub proof fn law_a_record_states_its_result(r: WorkloadReport, result: OpResult, cfg: Config)
    requires
        r.is_of(result, cfg),
    ensures
        result.spec.wf() ==> task::parse_task(r.task@) == Ok::<TaskSpec, Fault>(result.spec),
        r.schema == 1,
        r.label@ == result.spec.label_text(),
        result.spec.pattern is Sequential ==> r.pattern@ == "sequential"@,
        result.spec.pattern is Random ==> r.pattern@ == "random"@,
        r.block_size == result.spec.block_size,
        r.queue_depth == result.spec.queue_depth,
        r.threads == result.spec.threads,
        result.op is Read ==> r.op@ == "read"@,
        result.op is Write ==> r.op@ == "write"@,
        result.runs@.len() <= u32::MAX ==> r.runs == result.runs@.len(),
        r.best.bytes_per_sec == result.bytes_per_sec,
        r.best.iops == result.iops,
        r.best.lat_us == result.lat_us,
        r.all_runs@.len() == result.runs@.len(),
        forall|i: int|
            0 <= i < result.runs@.len() ==> #[trigger] r.all_runs@[i] == result.runs@[i],
        r.duration == cfg.duration,
        r.warmup == cfg.warmup,
        r.target@ == cfg.target@,
        r.size_bytes == cfg.size,
{
    if result.spec.wf() {
        task::law_id_round_trip(result.spec);
    }
}

/// A record names the volume under test with its capacity, and none where none
/// is known.
pub proof fn law_a_record_names_its_volume(r: WorkloadReport, disk: Option<&DiskInfo>)
    requires
        r.names_disk(disk),
    ensures
        r.disk is Some <==> disk is Some,
        disk matches Some(d) ==> {
            &&& r.disk->0.source@ == d.source@
            &&& r.disk->0.mount@ == d.mount@
            &&& r.disk->0.file_system@ == d.file_system@
            &&& r.disk->0.total_bytes == d.total
            &&& r.disk->0.available_bytes == d.available
            &&& text::optional(r.disk->0.volume) == text::optional(d.volume)
        },
{
}

} // verus!
