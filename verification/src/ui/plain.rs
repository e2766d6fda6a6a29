//! Line-oriented output for non-interactive sessions. In `--json` mode the
//! NDJSON stream owns stdout and human-readable status goes to stderr.

use vstd::prelude::*;

use crate::cli::Unit;
use crate::disk;
use crate::disk::{human_bytes, DiskInfo};
use crate::duration::Duration;
use crate::runner;
use crate::runner::{Cell, Config, Event};
use crate::task::TaskSpec;
use crate::text;
use crate::text::push_decimal;
use crate::ui::Outcome;

verus! {

/// `secs` seconds and `nanos` nanoseconds as the `Debug` form of
/// `std::time::Duration` shows them.
pub uninterp spec fn duration_text(secs: u64, nanos: u32) -> Seq<char>;

/// `format!("{:?}", duration)` of a `std::time::Duration`: its `Debug` form,
/// which depends on its seconds and nanoseconds alone.
#[verifier::external_body]
fn show_duration(secs: u64, nanos: u32) -> (r: String)
    requires
        nanos < 1_000_000_000,
    ensures
        r@ == duration_text(secs, nanos),
{
    format!("{:?}", std::time::Duration::new(secs, nanos))
}

/// A duration in words.
pub open spec fn shown(d: Duration) -> Seq<char> {
    duration_text((d@ / 1_000_000_000) as u64, (d@ % 1_000_000_000) as u32)
}

fn show(d: Duration) -> (r: String)
    ensures
        r@ == shown(d),
{
    show_duration(d.as_secs(), d.subsec_nanos())
}

// ---------------------------------------------------------------------------
// Opening lines

/// The identifiers of `tasks`, with commas between them.
pub open spec fn id_list(tasks: Seq<TaskSpec>) -> Seq<char>
    decreases tasks.len(),
{
    if tasks.len() == 0 {
        Seq::empty()
    } else if tasks.len() == 1 {
        tasks[0].id_text()
    } else {
        id_list(tasks.drop_last()) + ", "@ + tasks.last().id_text()
    }
}

fn join_ids(tasks: &Vec<TaskSpec>) -> (r: String)
    ensures
        r@ == id_list(tasks@),
{
    let mut out = String::new();
    let mut i: usize = 0;
    assert(tasks@.take(0) =~= Seq::empty());
    while i < tasks.len()
        invariant
            i <= tasks.len(),
            out@ == id_list(tasks@.take(i as int)),
        decreases tasks.len() - i,
    {
        let ghost before = out@;
        if i > 0 {
            out.append(", ");
        }
        out.append(tasks[i].id().as_str());
        proof {
            assert(tasks@.take(i as int + 1).drop_last() =~= tasks@.take(i as int));
            assert(out@ =~= id_list(tasks@.take(i as int + 1)));
        }
        i += 1;
    }
    assert(tasks@.take(i as int) =~= tasks@);
    out
}

/// The line on what is planned, given its durations in words.
pub open spec fn plan_text(
    cfg: Config,
    duration: Seq<char>,
    warmup: Seq<char>,
    interval: Seq<char>,
) -> Seq<char> {
    "Plan: "@ + id_list(cfg.tasks@) + " | file "@ + disk::human_text(cfg.size as nat) + " | "@
        + text::decimal(cfg.runs as nat) + " run(s) x "@ + duration + " (warmup "@ + warmup
        + ", interval "@ + interval + ")"@
}

/// The line on what is planned, given its durations in words.
pub fn plan_line(cfg: &Config, duration: &str, warmup: &str, interval: &str) -> (r: String)
    ensures
        r@ == plan_text(*cfg, duration@, warmup@, interval@),
{
    let mut out = "Plan: ".to_owned();
    out.append(join_ids(&cfg.tasks).as_str());
    out.append(" | file ");
    out.append(human_bytes(cfg.size).as_str());
    out.append(" | ");
    push_decimal(&mut out, cfg.runs as u128);
    out.append(" run(s) x ");
    out.append(duration);
    out.append(" (warmup ");
    out.append(warmup);
    out.append(", interval ");
    out.append(interval);
    out.append(")");
    out
}

/// The line on the volume under test.
pub open spec fn disk_text(d: DiskInfo) -> Seq<char> {
    "Disk: "@ + d.label_text() + ", "@ + disk::human_text(d.available as nat) + " free of "@
        + disk::human_text(d.total as nat)
}

fn disk_line(d: &DiskInfo) -> (r: String)
    ensures
        r@ == disk_text(*d),
{
    let mut out = "Disk: ".to_owned();
    out.append(d.label().as_str());
    out.append(", ");
    out.append(human_bytes(d.available).as_str());
    out.append(" free of ");
    out.append(human_bytes(d.total).as_str());
    out
}

fn prefixed(prefix: &str, s: &str) -> (r: String)
    ensures
        r@ == prefix@ + s@,
{
    let mut out = prefix.to_owned();
    out.append(s);
    out
}

/// The lines ahead of the benchmark.
pub open spec fn opening_texts(
    version: Seq<char>,
    disk: Option<&DiskInfo>,
    cfg: Config,
    warnings: Seq<Seq<char>>,
) -> Seq<Seq<char>> {
    let plan = plan_text(cfg, shown(cfg.duration), shown(cfg.warmup), shown(cfg.interval));
    let disk_lines = match disk {
        Some(d) => seq![disk_text(*d)],
        None => Seq::empty(),
    };
    seq!["iomark "@ + version] + disk_lines + seq!["Target: "@ + cfg.target@, plan]
        + warnings.map_values(|w: Seq<char>| "Warning: "@ + w)
}

/// The lines ahead of the benchmark.
pub fn opening(version: &str, disk: Option<&DiskInfo>, cfg: &Config, warnings: &Vec<String>) -> (r:
    Vec<String>)
    ensures
        text::texts(r@) == opening_texts(version@, disk, *cfg, text::texts(warnings@)),
{
    let mut lines: Vec<String> = Vec::new();
    lines.push(prefixed("iomark ", version));
    match disk {
        Some(d) => lines.push(disk_line(d)),
        None => {},
    }
    lines.push(prefixed("Target: ", cfg.target.as_str()));
    let duration = show(cfg.duration);
    let warmup = show(cfg.warmup);
    let interval = show(cfg.interval);
    lines.push(plan_line(cfg, duration.as_str(), warmup.as_str(), interval.as_str()));
    let ghost all = opening_texts(version@, disk, *cfg, text::texts(warnings@));
    let ghost head: int = lines@.len() as int;
    let mut i: usize = 0;
    assert(text::texts(lines@) =~= all.take(head));
    while i < warnings.len()
        invariant
            i <= warnings.len(),
            all.len() == head + warnings@.len(),
            lines@.len() == head + i,
            text::texts(lines@) == all.take(head + i),
            forall|j: int|
                0 <= j < warnings@.len() ==> all[head + j] == "Warning: "@ + #[trigger] warnings@[j]@,
        decreases warnings.len() - i,
    {
        let ghost before = lines@;
        lines.push(prefixed("Warning: ", warnings[i].as_str()));
        proof {
            assert(all[head + i] == "Warning: "@ + warnings@[i as int]@);
            assert(text::texts(lines@) =~= text::texts(before).push(all[head + i]));
            assert(all.take(head + i + 1) =~= all.take(head + i).push(all[head + i]));
        }
        i += 1;
    }
    assert(all.take(head + i) =~= all);
    lines
}

// ---------------------------------------------------------------------------
// Progress

/// What was printed so far.
#[derive(Debug)]
pub struct Progress {
    /// The cells whose line was printed, in order.
    pub announced: Vec<Cell>,
    /// Cleared once the NDJSON consumer hangs up.
    pub stream_open: bool,
}

/// The numbers of an event, as they are printed.
#[derive(Debug)]
pub struct Numbers {
    /// In the session's unit, two decimals.
    pub value: String,
    /// MB/s, two decimals.
    pub mb: String,
    /// IOPS, no decimals.
    pub iops: String,
    /// Mean latency in microseconds, one decimal.
    pub lat: String,
}

/// What an event has the caller do.
#[derive(Debug)]
pub struct Reaction {
    /// A status line to print.
    pub line: Option<String>,
    /// An error to print on stderr.
    pub error: Option<String>,
    /// Whether to write the event's NDJSON line.
    pub record: bool,
    /// How the session ended, where it did.
    pub outcome: Option<Outcome>,
}

/// A reaction, with its texts as sequences.
#[verifier::ext_equal]
pub struct ReactionView {
    pub line: Option<Seq<char>>,
    pub error: Option<Seq<char>>,
    pub record: bool,
    pub outcome: Option<Outcome>,
}

impl View for Reaction {
    type V = ReactionView;

    open spec fn view(&self) -> ReactionView {
        ReactionView {
            line: text::optional(self.line),
            error: text::optional(self.error),
            record: self.record,
            outcome: self.outcome,
        }
    }
}

/// To print a line and nothing else.
pub open spec fn only_line(line: Seq<char>) -> ReactionView {
    ReactionView { line: Some(line), error: None, record: false, outcome: None }
}

/// To do nothing.
pub open spec fn nothing() -> ReactionView {
    ReactionView { line: None, error: None, record: false, outcome: None }
}

/// The line that announces a cell, the `n`th.
pub open spec fn cell_text(cfg: Config, n: nat, cell: Cell) -> Seq<char> {
    "["@ + text::decimal(n) + "/"@ + text::decimal(cfg.plan().len()) + "] "@
        + cfg.tasks@[cell.task as int].label_text() + " "@ + cell.op.name_text()
}

/// The line on a run.
pub open spec fn run_text(n: Numbers) -> Seq<char> {
    "    run: "@ + n.mb@ + " MB/s | "@ + n.iops@ + " IOPS | "@ + n.lat@ + " us"@
}

/// The line on a result.
pub open spec fn best_text(unit: Unit, n: Numbers) -> Seq<char> {
    "    best: "@ + n.value@ + " "@ + unit.heading_text() + " ("@ + n.iops@ + " IOPS, "@ + n.lat@
        + " us)"@
}

/// What `event` has the caller do, given what was printed before.
pub open spec fn reaction(
    announced: Seq<Cell>,
    stream_open: bool,
    cfg: Config,
    unit: Unit,
    json: bool,
    event: Event,
    n: Numbers,
) -> ReactionView {
    match event {
        Event::Preparing => only_line(
            "Preparing test file ("@ + disk::human_text(cfg.size as nat) + ")..."@,
        ),
        Event::Cooldown { .. } => nothing(),
        Event::Live { .. } => nothing(),
        Event::Phase { cell, .. } => if announced.contains(cell) {
            nothing()
        } else {
            only_line(cell_text(cfg, announced.len() + 1, cell))
        },
        Event::RunDone { .. } => only_line(run_text(n)),
        Event::OpDone { .. } => ReactionView {
            record: json && stream_open,
            ..only_line(best_text(unit, n))
        },
        Event::Finished => ReactionView {
            outcome: Some(
                if stream_open {
                    Outcome::Finished
                } else {
                    Outcome::Aborted
                },
            ),
            ..only_line("Done."@)
        },
        Event::Aborted => ReactionView {
            outcome: Some(Outcome::Aborted),
            ..only_line("Aborted."@)
        },
        Event::Failed(message) => ReactionView {
            error: Some("iomark: "@ + message@),
            outcome: Some(Outcome::Failed),
            ..nothing()
        },
    }
}

/// The cells announced once `event` is handled.
pub open spec fn announced_after(announced: Seq<Cell>, event: Event) -> Seq<Cell> {
    match event {
        Event::Phase { cell, .. } => if announced.contains(cell) {
            announced
        } else {
            announced.push(cell)
        },
        _ => announced,
    }
}

/// Whether the cell that `event` announces, if any, is one of the plan.
pub open spec fn is_planned(cfg: Config, event: Event) -> bool {
    event matches Event::Phase { cell, .. } ==> cell.task < cfg.tasks@.len()
}

fn line_only(line: String) -> (r: Reaction)
    ensures
        r@ == only_line(line@),
{
    Reaction { line: Some(line), error: None, record: false, outcome: None }
}

fn cell_line(cfg: &Config, n: u128, cell: Cell) -> (r: String)
    requires
        cell.task < cfg.tasks@.len(),
    ensures
        r@ == cell_text(*cfg, n as nat, cell),
{
    let mut out = "[".to_owned();
    push_decimal(&mut out, n);
    out.append("/");
    push_decimal(&mut out, cfg.cells().len() as u128);
    out.append("] ");
    out.append(cfg.tasks[cell.task].to_string().as_str());
    out.append(" ");
    out.append(cell.op.name());
    out
}

fn run_line(n: &Numbers) -> (r: String)
    ensures
        r@ == run_text(*n),
{
    let mut out = "    run: ".to_owned();
    out.append(n.mb.as_str());
    out.append(" MB/s | ");
    out.append(n.iops.as_str());
    out.append(" IOPS | ");
    out.append(n.lat.as_str());
    out.append(" us");
    out
}

fn best_line(unit: Unit, n: &Numbers) -> (r: String)
    ensures
        r@ == best_text(unit, *n),
{
    let mut out = "    best: ".to_owned();
    out.append(n.value.as_str());
    out.append(" ");
    out.append(unit.heading());
    out.append(" (");
    out.append(n.iops.as_str());
    out.append(" IOPS, ");
    out.append(n.lat.as_str());
    out.append(" us)");
    out
}

impl Progress {
    /// Before any event.
    pub fn new() -> (r: Progress)
        ensures
            r.announced@ == Seq::<Cell>::empty(),
            r.stream_open,
    {
        Progress { announced: Vec::new(), stream_open: true }
    }

    fn is_announced(&self, cell: Cell) -> (r: bool)
        ensures
            r == self.announced@.contains(cell),
    {
        let mut i: usize = 0;
        while i < self.announced.len()
            invariant
                i <= self.announced.len(),
                forall|j: int| 0 <= j < i ==> self.announced@[j] != cell,
            decreases self.announced.len() - i,
        {
            if self.announced[i] == cell {
                return true;
            }
            i += 1;
        }
        false
    }

    /// Takes an event, whose numbers are printed as `n`, and tells what to do.
    pub fn handle(
        &mut self,
        cfg: &Config,
        unit: Unit,
        json: bool,
        event: &Event,
        n: &Numbers,
    ) -> (r: Reaction)
        requires
            is_planned(*cfg, *event),
        ensures
            r@ == reaction(
                old(self).announced@,
                old(self).stream_open,
                *cfg,
                unit,
                json,
                *event,
                *n,
            ),
            final(self).announced@ == announced_after(old(self).announced@, *event),
            final(self).stream_open == old(self).stream_open,
    {
        match event {
            Event::Preparing => {
                let mut line = "Preparing test file (".to_owned();
                line.append(human_bytes(cfg.size).as_str());
                line.append(")...");
                line_only(line)
            },
            Event::Cooldown { .. } => Reaction {
                line: None,
                error: None,
                record: false,
                outcome: None,
            },
            Event::Live { .. } => Reaction {
                line: None,
                error: None,
                record: false,
                outcome: None,
            },
            Event::Phase { cell, .. } => {
                if self.is_announced(*cell) {
                    return Reaction { line: None, error: None, record: false, outcome: None };
                }
                let number: u128 = self.announced.len() as u128 + 1;
                self.announced.push(*cell);
                line_only(cell_line(cfg, number, *cell))
            },
            Event::RunDone { .. } => line_only(run_line(n)),
            Event::OpDone { .. } => Reaction {
                line: Some(best_line(unit, n)),
                error: None,
                record: json && self.stream_open,
                outcome: None,
            },
            Event::Finished => Reaction {
                line: Some("Done.".to_owned()),
                error: None,
                record: false,
                outcome: Some(
                    if self.stream_open {
                        Outcome::Finished
                    } else {
                        Outcome::Aborted
                    },
                ),
            },
            Event::Aborted => Reaction {
                line: Some("Aborted.".to_owned()),
                error: None,
                record: false,
                outcome: Some(Outcome::Aborted),
            },
            Event::Failed(message) => Reaction {
                line: None,
                error: Some(prefixed("iomark: ", message.as_str())),
                record: false,
                outcome: Some(Outcome::Failed),
            },
        }
    }

    /// Once the NDJSON consumer hangs up, the benchmark is to be stopped; no
    /// further line is written, and the session does not count as finished.
    pub fn stream_closed(&mut self)
        ensures
            !final(self).stream_open,
            final(self).announced@ == old(self).announced@,
    {
        self.stream_open = false;
    }

    /// The runner hung up without a terminal event: a failure, whatever was
    /// printed so far.
    pub fn hang_up(&self) -> (r: Outcome)
        ensures
            r == Outcome::Failed,
    {
        Outcome::Failed
    }
}

/// With `--json` there is one record for each result, for as long as somebody
/// reads them, and none for anything else; without it there is none at all.
pub proof fn law_one_record_per_result(
    announced: Seq<Cell>,
    stream_open: bool,
    cfg: Config,
    unit: Unit,
    json: bool,
    event: Event,
    n: Numbers,
)
    ensures
        reaction(announced, stream_open, cfg, unit, json, event, n).record <==> json && stream_open
            && event is OpDone,
{
}

/// A session ends exactly at a terminal event, and counts as finished only if
/// every record could be written.
pub proof fn law_sessions_end_at_terminal_events(
    announced: Seq<Cell>,
    stream_open: bool,
    cfg: Config,
    unit: Unit,
    json: bool,
    event: Event,
    n: Numbers,
)
    ensures
        ({
            let outcome = reaction(announced, stream_open, cfg, unit, json, event, n).outcome;
            &&& outcome is Some <==> event is Finished || event is Aborted || event is Failed
            &&& outcome == Some(Outcome::Finished) <==> event is Finished && stream_open
        }),
{
}

/// The cells announced after `events`.
pub open spec fn announced_by(events: Seq<Event>) -> Seq<Cell>
    decreases events.len(),
{
    if events.len() == 0 {
        Seq::empty()
    } else {
        announced_after(announced_by(events.drop_last()), events.last())
    }
}

/// Each operation is announced once, and never as one beyond the total.
pub proof fn law_operations_are_numbered_within_the_total(cfg: Config, events: Seq<Event>)
    requires
        forall|i: int| 0 <= i < events.len() ==> is_planned(cfg, #[trigger] events[i]),
    ensures
        announced_by(events).no_duplicates(),
        forall|i: int|
            0 <= i < announced_by(events).len() ==> cfg.plan().contains(
                #[trigger] announced_by(events)[i],
            ),
        announced_by(events).len() <= cfg.plan().len(),
    decreases events.len(),
{
    let cells = announced_by(events);
    if events.len() > 0 {
        let before = announced_by(events.drop_last());
        law_operations_are_numbered_within_the_total(cfg, events.drop_last());
        assert(is_planned(cfg, events[events.len() - 1]));
        if let Event::Phase { cell, .. } = events.last() {
            runner::law_plan_has_every_cell(cfg, cell);
            assert forall|i: int| 0 <= i < cells.len() implies cfg.plan().contains(
                #[trigger] cells[i],
            ) by {
                if i < before.len() {
                    assert(cells[i] == before[i]);
                }
            }
        }
    }
    let announced = cells.to_set();
    let planned = cfg.plan().to_set();
    cells.unique_seq_to_set();
    assert(cfg.plan().no_duplicates()) by {
        assert forall|i: int, j: int|
            0 <= i < cfg.plan().len() && 0 <= j < cfg.plan().len() && i != j implies cfg.plan()[i]
            != cfg.plan()[j] by {
            if cfg.plan()[i] == cfg.plan()[j] {
                runner::law_plan_has_each_cell_once(cfg, i, j);
            }
        }
    }
    cfg.plan().unique_seq_to_set();
    assert(announced.subset_of(planned)) by {
        assert forall|c: Cell| announced.contains(c) implies planned.contains(c) by {
            let i = choose|i: int| 0 <= i < cells.len() && cells[i] == c;
            assert(cfg.plan().contains(cells[i]));
        }
    }
    vstd::set_lib::lemma_len_subset(announced, planned);
}

/// What is printed of an event is what it says: the size of the file, each
/// operation by its number, its task and its direction when it is first begun,
/// each run and each result by its numbers, and how the session ended.
pub proof fn law_events_are_printed_as_they_are(
    announced: Seq<Cell>,
    stream_open: bool,
    cfg: Config,
    unit: Unit,
    json: bool,
    event: Event,
    n: Numbers,
)
    ensures
        ({
            let r = reaction(announced, stream_open, cfg, unit, json, event, n);
            &&& event is Preparing ==> r.line == Some(
                "Preparing test file ("@ + disk::human_text(cfg.size as nat) + ")..."@,
            )
            &&& event matches Event::Phase { cell, .. } ==> {
                let name = "["@ + text::decimal(announced.len() + 1) + "/"@ + text::decimal(
                    2 * cfg.tasks@.len(),
                ) + "] "@ + cfg.tasks@[cell.task as int].label_text() + " "@;
                &&& announced.contains(cell) ==> r.line is None
                &&& !announced.contains(cell) && cell.op is Read ==> r.line == Some(name + "read"@)
                &&& !announced.contains(cell) && cell.op is Write ==> r.line == Some(
                    name + "write"@,
                )
            }
            &&& event is Cooldown || event is Live ==> r.line is None
            &&& event is RunDone ==> r.line == Some(
                "    run: "@ + n.mb@ + " MB/s | "@ + n.iops@ + " IOPS | "@ + n.lat@ + " us"@,
            )
            &&& event is OpDone && unit is MegabytesPerSec ==> r.line == Some(
                "    best: "@ + n.value@ + " "@ + "MB/s"@ + " ("@ + n.iops@ + " IOPS, "@ + n.lat@
                    + " us)"@,
            )
            &&& event is OpDone && unit is Iops ==> r.line == Some(
                "    best: "@ + n.value@ + " "@ + "IOPS"@ + " ("@ + n.iops@ + " IOPS, "@ + n.lat@
                    + " us)"@,
            )
            &&& event is Finished ==> r.line == Some("Done."@)
            &&& event is Aborted ==> r.line == Some("Aborted."@) && r.outcome == Some(
                Outcome::Aborted,
            )
            &&& event matches Event::Failed(message) ==> r.line is None && r.error == Some(
                "iomark: "@ + message@,
            ) && r.outcome == Some(Outcome::Failed)
            &&& !(event is Failed) ==> r.error is None
        }),
{
}

/// A cell is announced once it is begun, behind those before it, and stays so.
pub proof fn law_announcements_stay(announced: Seq<Cell>, event: Event, cell: Cell)
    ensures
        announced.contains(cell) ==> announced_after(announced, event).contains(cell),
        event matches Event::Phase { cell: c, .. } ==> announced_after(announced, event).contains(
            c,
        ),
        announced.is_prefix_of(announced_after(announced, event)),
        !(event is Phase) ==> announced_after(announced, event) == announced,
{
    let after = announced_after(announced, event);
    assert(announced =~= after.take(announced.len() as int));
    if announced.contains(cell) {
        let i = choose|i: int| 0 <= i < announced.len() && announced[i] == cell;
        assert(after[i] == cell);
    }
    if let Event::Phase { cell: c, .. } = event {
        if !announced.contains(c) {
            assert(after[after.len() - 1] == c);
        }
    }
}

/// The tasks are listed by their identifiers, all of them and in order.
pub proof fn law_all_tasks_are_listed(tasks: Seq<TaskSpec>, task: TaskSpec)
    ensures
        id_list(seq![task]) == task.id_text(),
        tasks.len() > 0 ==> id_list(tasks.push(task)) == id_list(tasks) + ", "@ + task.id_text(),
{
    assert(tasks.push(task).drop_last() =~= tasks);
}

/// A session opens with its version, the volume where it is known, the target
/// directory, the plan with all its settings, and every warning, in this order.
pub proof fn law_a_session_opens_with_all_it_knows(
    version: Seq<char>,
    disk: Option<&DiskInfo>,
    cfg: Config,
    warnings: Seq<Seq<char>>,
    i: int,
)
    requires
        0 <= i < warnings.len(),
    ensures
        ({
            let r = opening_texts(version, disk, cfg, warnings);
            let k = if disk is Some {
                1int
            } else {
                0int
            };
            &&& r.len() == 3 + k + warnings.len()
            &&& r[0] == "iomark "@ + version
            &&& disk matches Some(d) ==> r[1] == "Disk: "@ + d.label_text() + ", "@
                + disk::human_text(d.available as nat) + " free of "@ + disk::human_text(
                d.total as nat,
            )
            &&& r[1 + k] == "Target: "@ + cfg.target@
            &&& r[2 + k] == "Plan: "@ + id_list(cfg.tasks@) + " | file "@ + disk::human_text(
                cfg.size as nat,
            ) + " | "@ + text::decimal(cfg.runs as nat) + " run(s) x "@ + shown(cfg.duration)
                + " (warmup "@ + shown(cfg.warmup) + ", interval "@ + shown(cfg.interval) + ")"@
            &&& r[3 + k + i] == "Warning: "@ + warnings[i]
        }),
{
}

/// A duration is shown to the nanosecond.
pub proof fn law_durations_are_shown_exactly(d: Duration, secs: u64, nanos: u32)
    requires
        nanos < 1_000_000_000,
        d@ == secs * 1_000_000_000 + nanos,
    ensures
        shown(d) == duration_text(secs, nanos),
{
}

} // verus!
