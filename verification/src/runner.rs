//! Benchmark orchestration. Tasks run in order and each task measures Read
//! then Write before moving on (unlike CDM's all-reads-then-all-writes — a
//! deliberate product choice); a pause between operations; per operation one
//! unscored warmup run plus N scored runs, of which the best (max bandwidth,
//! min latency) is kept.

use vstd::prelude::*;

use crate::cli::Cli;
use crate::duration::Duration;
use crate::fio::{LiveRate, Op, RunSample, Workload};
use crate::measure;
use crate::measure::Reading;
use crate::task::TaskSpec;
use crate::text;
use crate::text::decimal_string;

verus! {

/// Everything the runner needs, distilled from the CLI.
#[derive(Debug)]
pub struct Config {
    pub tasks: Vec<TaskSpec>,
    pub target: String,
    pub size: u64,
    pub runs: u32,
    pub duration: Duration,
    pub warmup: Duration,
    pub interval: Duration,
}

/// Identifies one table cell: a task row plus a direction column.
#[derive(Debug, Clone, Copy, PartialEq, Eq, Hash, Structural)]
pub struct Cell {
    pub task: usize,
    pub op: Op,
}

/// What a cell is currently doing.
#[derive(Debug, Clone, Copy, PartialEq, Eq, Structural)]
pub enum Phase {
    Warmup,
    Measuring { run: u32, total: u32 },
}

/// Aggregated outcome of one operation (one cell).
#[derive(Debug)]
pub struct OpResult {
    pub spec: TaskSpec,
    pub op: Op,
    /// Best run: max bandwidth (and therefore max IOPS — same block size).
    pub bytes_per_sec: Reading,
    pub iops: Reading,
    /// Best (lowest) mean latency across runs, in microseconds.
    pub lat_us: Reading,
    pub runs: Vec<RunSample>,
}

/// Progress stream from the runner thread to the UI thread.
#[derive(Debug)]
pub enum Event {
    /// Laying out the shared test file.
    Preparing,
    /// Pause between operations, with time left.
    Cooldown { next: Cell, remaining: Duration },
    Phase { cell: Cell, phase: Phase },
    Live { cell: Cell, rate: LiveRate },
    RunDone { cell: Cell, sample: RunSample },
    OpDone { cell: Cell, result: OpResult },
    /// All operations completed.
    Finished,
    /// Cancelled by the user; partial results stand.
    Aborted,
    /// Unrecoverable failure (message is user-facing).
    Failed(String),
}

// ---------------------------------------------------------------------------
// Configuration

/// The cells of `tasks` tasks in execution order: per task, Read first then
/// Write.
pub open spec fn cells_of(tasks: nat) -> Seq<Cell> {
    Seq::new(2 * tasks, |i: int| cell_at(i))
}

/// The `i`th cell in execution order.
pub open spec fn cell_at(i: int) -> Cell {
    Cell {
        task: (i / 2) as usize,
        op: if i % 2 == 0 {
            Op::Read
        } else {
            Op::Write
        },
    }
}

/// The place of a cell in execution order.
pub open spec fn index_of(cell: Cell) -> int {
    2 * cell.task + if cell.op is Read {
        0int
    } else {
        1int
    }
}

/// A cell is at its place.
pub broadcast proof fn lemma_index_of(cell: Cell)
    ensures
        cell_at(#[trigger] index_of(cell)) == cell,
{
}

impl Config {
    /// The settings of a session that benchmarks `target`.
    pub fn from_cli(cli: &Cli, target: String) -> (r: Config)
        ensures
            r.tasks@ == cli.tasks@,
            r.target@ == target@,
            r.size == cli.size,
            r.runs == cli.runs,
            r.duration == cli.duration,
            r.warmup == cli.warmup,
            r.interval == cli.interval,
    {
        let mut tasks: Vec<TaskSpec> = Vec::new();
        let mut i: usize = 0;
        while i < cli.tasks.len()
            invariant
                i <= cli.tasks.len(),
                tasks@ == cli.tasks@.take(i as int),
            decreases cli.tasks.len() - i,
        {
            tasks.push(cli.tasks[i]);
            assert(cli.tasks@.take(i as int + 1) =~= cli.tasks@.take(i as int).push(
                cli.tasks@[i as int],
            ));
            i += 1;
        }
        assert(cli.tasks@.take(i as int) =~= cli.tasks@);
        Config {
            tasks,
            target,
            size: cli.size,
            runs: cli.runs,
            duration: cli.duration,
            warmup: cli.warmup,
            interval: cli.interval,
        }
    }

    /// The cells in execution order.
    pub open spec fn plan(self) -> Seq<Cell> {
        cells_of(self.tasks@.len())
    }

    /// Operations in execution order: per task, Read first then Write.
    pub fn cells(&self) -> (r: Vec<Cell>)
        ensures
            r@ == self.plan(),
    {
        let mut r: Vec<Cell> = Vec::new();
        let mut task: usize = 0;
        while task < self.tasks.len()
            invariant
                task <= self.tasks.len(),
                r@ == cells_of(task as nat),
            decreases self.tasks.len() - task,
        {
            let ghost before = r@;
            r.push(Cell { task, op: Op::Read });
            r.push(Cell { task, op: Op::Write });
            proof {
                assert forall|i: int| 0 <= i < r@.len() implies r@[i] == #[trigger] cell_at(i) by {
                    if i < before.len() {
                        assert(r@[i] == before[i]);
                    }
                }
                assert(r@ =~= cells_of(task as nat + 1));
            }
            task += 1;
        }
        r
    }

    /// The workload of one run of `cell`.
    pub fn workload<'a>(&self, cell: Cell, file: &'a str, runtime: Duration) -> (r: Workload<'a>)
        requires
            cell.task < self.tasks@.len(),
        ensures
            r.spec == self.tasks@[cell.task as int],
            r.op == cell.op,
            r.file@ == file@,
            r.size == self.size,
            r.runtime == runtime,
    {
        Workload {
            spec: self.tasks[cell.task],
            op: cell.op,
            file,
            size: self.size,
            runtime,
        }
    }
}

/// Each task is read, then written, before the next one: the plan has two cells
/// for each task, in the order of the tasks, and no others.
pub proof fn law_each_task_reads_then_writes(cfg: Config, task: usize)
    requires
        task < cfg.tasks@.len(),
    ensures
        cfg.plan().len() == 2 * cfg.tasks@.len(),
        cfg.plan()[2 * task as int] == (Cell { task, op: Op::Read }),
        cfg.plan()[2 * task as int + 1] == (Cell { task, op: Op::Write }),
{
}

/// Every cell of the plan is run once: no two places hold the same cell.
pub proof fn law_plan_has_each_cell_once(cfg: Config, i: int, j: int)
    requires
        0 <= i < cfg.plan().len(),
        0 <= j < cfg.plan().len(),
        cfg.plan()[i] == cfg.plan()[j],
    ensures
        i == j,
{
    assert(cell_at(i) == cell_at(j));
    assert(i / 2 < cfg.tasks@.len() && j / 2 < cfg.tasks@.len());
    assert(cfg.tasks@.len() == cfg.tasks.len());
}

/// Every direction of every task is in the plan.
pub proof fn law_plan_has_every_cell(cfg: Config, cell: Cell)
    requires
        cell.task < cfg.tasks@.len(),
    ensures
        cfg.plan().contains(cell),
{
    assert(cfg.plan()[index_of(cell)] == cell);
}

/// Name of the shared benchmark file of process `pid`.
pub open spec fn test_file_name_text(pid: u32) -> Seq<char> {
    "iomark-"@ + text::decimal(pid as nat) + ".tmp"@
}

/// Name of the shared benchmark file of process `pid`.
pub fn test_file_name(pid: u32) -> (r: String)
    ensures
        r@ == test_file_name_text(pid),
{
    let mut out = "iomark-".to_owned();
    out.append(decimal_string(pid as u128).as_str());
    out.append(".tmp");
    out
}

/// A test file is recognised by its name, which holds the number of its
/// process.
pub proof fn law_a_test_file_is_named_by_its_process(pid: u32)
    ensures
        ({
            let s = test_file_name_text(pid);
            &&& s.len() > 11
            &&& s.take(7) == "iomark-"@
            &&& s.skip(s.len() - 4) == ".tmp"@
            &&& text::number(s.subrange(7, s.len() - 4)) == pid
        }),
{
    reveal_strlit("iomark-");
    reveal_strlit(".tmp");
    text::lemma_decimal(pid as nat);
    let s = test_file_name_text(pid);
    assert(s.take(7) =~= "iomark-"@);
    assert(s.skip(s.len() - 4) =~= ".tmp"@);
    assert(s.subrange(7, s.len() - 4) =~= text::decimal(pid as nat));
}

/// No two processes share a test file.
pub proof fn law_test_files_differ(a: u32, b: u32)
    requires
        test_file_name_text(a) == test_file_name_text(b),
    ensures
        a == b,
{
    reveal_strlit("iomark-");
    reveal_strlit(".tmp");
    text::lemma_decimal(a as nat);
    text::lemma_decimal(b as nat);
    let s = test_file_name_text(a);
    assert(s.subrange(7, s.len() - 4) =~= text::decimal(a as nat));
    assert(s.subrange(7, s.len() - 4) =~= text::decimal(b as nat));
}

// ---------------------------------------------------------------------------
// Scoring

/// The bandwidths of a list of runs.
pub open spec fn bandwidths(runs: Seq<RunSample>) -> Seq<Reading> {
    runs.map_values(|s: RunSample| s.bytes_per_sec)
}

/// The operation rates of a list of runs.
pub open spec fn op_rates(runs: Seq<RunSample>) -> Seq<Reading> {
    runs.map_values(|s: RunSample| s.iops)
}

/// The mean latencies of a list of runs.
pub open spec fn latencies(runs: Seq<RunSample>) -> Seq<Reading> {
    runs.map_values(|s: RunSample| s.lat_mean_us)
}

/// CDM scoring: best bandwidth/IOPS, lowest mean latency.
pub open spec fn is_score(r: OpResult, spec: TaskSpec, op: Op, runs: Seq<RunSample>) -> bool {
    &&& r.spec == spec
    &&& r.op == op
    &&& r.bytes_per_sec == measure::highest(bandwidths(runs))
    &&& r.iops == measure::highest(op_rates(runs))
    &&& r.lat_us == measure::lowest(latencies(runs))
    &&& r.runs@ == runs
}

/// CDM scoring: best bandwidth/IOPS, lowest mean latency.
pub fn aggregate(spec: TaskSpec, op: Op, runs: Vec<RunSample>) -> (r: OpResult)
    ensures
        is_score(r, spec, op, runs@),
{
    let mut bytes_per_sec = Reading::from_bits(0);
    let mut iops = Reading::from_bits(0);
    let mut lat_us = Reading { place: measure::INFINITY_PLACE };
    let mut i: usize = 0;
    proof {
        assert(bandwidths(runs@.take(0)) =~= Seq::empty());
        assert(op_rates(runs@.take(0)) =~= Seq::empty());
        assert(latencies(runs@.take(0)) =~= Seq::empty());
    }
    while i < runs.len()
        invariant
            i <= runs.len(),
            bytes_per_sec == measure::highest(bandwidths(runs@.take(i as int))),
            iops == measure::highest(op_rates(runs@.take(i as int))),
            lat_us == measure::lowest(latencies(runs@.take(i as int))),
        decreases runs.len() - i,
    {
        let s = runs[i];
        proof {
            let before = runs@.take(i as int);
            let after = runs@.take(i as int + 1);
            assert(bandwidths(after).drop_last() =~= bandwidths(before));
            assert(op_rates(after).drop_last() =~= op_rates(before));
            assert(latencies(after).drop_last() =~= latencies(before));
        }
        bytes_per_sec = bytes_per_sec.max(s.bytes_per_sec);
        iops = iops.max(s.iops);
        lat_us = lat_us.min(s.lat_mean_us);
        i += 1;
    }
    assert(runs@.take(i as int) =~= runs@);
    OpResult { spec, op, bytes_per_sec, iops, lat_us, runs }
}

/// The score is the best of the runs: the greatest bandwidth and operation
/// rate and the lowest mean latency, whichever runs they are of.
pub proof fn law_score_is_the_best_of_the_runs(
    r: OpResult,
    spec: TaskSpec,
    op: Op,
    runs: Seq<RunSample>,
)
    requires
        is_score(r, spec, op, runs),
    ensures
        r.spec == spec && r.op == op && r.runs@ == runs,
        measure::is_greatest(bandwidths(runs), r.bytes_per_sec),
        measure::is_greatest(op_rates(runs), r.iops),
        measure::is_least(latencies(runs), r.lat_us),
        forall|i: int|
            0 <= i < runs.len() ==> {
                let run = #[trigger] runs[i];
                &&& run.bytes_per_sec.is_number() ==> run.bytes_per_sec.place
                    <= r.bytes_per_sec.place
                &&& run.iops.is_number() ==> run.iops.place <= r.iops.place
                &&& run.lat_mean_us.is_number() ==> run.lat_mean_us.place >= r.lat_us.place
            },
{
    assert forall|i: int| 0 <= i < runs.len() implies {
        let run = #[trigger] runs[i];
        &&& bandwidths(runs)[i] == run.bytes_per_sec
        &&& op_rates(runs)[i] == run.iops
        &&& latencies(runs)[i] == run.lat_mean_us
    } by {}
    measure::law_highest_is_greatest(bandwidths(runs));
    measure::law_highest_is_greatest(op_rates(runs));
    measure::law_lowest_is_least(latencies(runs));
}

} // verus!
