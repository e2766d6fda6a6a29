//! State of the interactive view: what is known of each cell, what goes on,
//! and how keys and progress change that.

use vstd::prelude::*;

use crate::cli::Unit;
use crate::duration;
use crate::duration::Duration;
use crate::fio::{LiveRate, Op};
use crate::measure;
use crate::measure::Reading;
use crate::runner;
use crate::runner::{Cell, Config, Event, OpResult, Phase};
use crate::steps::{EventView, ReplyView, ScoreView};
use crate::text;
use crate::trace;
use crate::ui::Outcome;

verus! {

/// What the UI currently knows about one cell.
#[derive(Debug)]
pub struct CellView {
    pub live: Option<LiveRate>,
    pub phase: Option<Phase>,
    pub result: Option<OpResult>,
}

/// What goes on.
#[derive(Debug, Clone, Copy)]
pub enum Activity {
    Idle,
    Preparing,
    Cooldown { next: Cell, remaining: Duration },
    Running { cell: Cell },
}

/// The interactive view.
#[derive(Debug)]
pub struct App {
    pub unit: Unit,
    /// The cells of which anything is known, none of them twice.
    pub cells: Vec<(Cell, CellView)>,
    pub activity: Activity,
    pub outcome: Option<Outcome>,
    pub failure: Option<String>,
    /// Set once the prepare phase ends; drives the overall ETA.
    pub bench_started: bool,
    pub planned: Duration,
}

// ---------------------------------------------------------------------------
// Model

/// What is known of a cell, its result as a score.
#[verifier::ext_equal]
pub struct CellState {
    pub live: Option<LiveRate>,
    pub phase: Option<Phase>,
    pub result: Option<ScoreView>,
}

/// The view of an optional result.
pub open spec fn result_view(r: Option<OpResult>) -> Option<ScoreView> {
    match r {
        Some(r) => Some(r@),
        None => None,
    }
}

impl View for CellView {
    type V = CellState;

    open spec fn view(&self) -> CellState {
        CellState { live: self.live, phase: self.phase, result: result_view(self.result) }
    }
}

/// Nothing is known.
pub open spec fn unknown() -> CellState {
    CellState { live: None, phase: None, result: None }
}

/// Whether the entry at `i` is that of `cell`.
pub open spec fn is_at(s: Seq<(Cell, CellView)>, cell: Cell, i: int) -> bool {
    0 <= i < s.len() && s[i].0 == cell
}

/// What is known of each cell in a list.
pub open spec fn table(s: Seq<(Cell, CellView)>) -> Map<Cell, CellState>
    decreases s.len(),
{
    if s.len() == 0 {
        Map::empty()
    } else {
        table(s.drop_last()).insert(s.last().0, s.last().1@)
    }
}

/// Whether no cell is in a list twice.
pub open spec fn is_distinct(s: Seq<(Cell, CellView)>) -> bool {
    forall|i: int, j: int| 0 <= i < j < s.len() ==> #[trigger] s[i].0 != #[trigger] s[j].0
}

/// What is known of `cell`.
pub open spec fn known(cells: Map<Cell, CellState>, cell: Cell) -> CellState {
    if cells.dom().contains(cell) {
        cells[cell]
    } else {
        unknown()
    }
}

/// The activity, with durations in nanoseconds.
pub enum ActivityView {
    Idle,
    Preparing,
    Cooldown { next: Cell, remaining: nat },
    Running { cell: Cell },
}

impl View for Activity {
    type V = ActivityView;

    open spec fn view(&self) -> ActivityView {
        match self {
            Activity::Idle => ActivityView::Idle,
            Activity::Preparing => ActivityView::Preparing,
            Activity::Cooldown { next, remaining } => ActivityView::Cooldown {
                next: *next,
                remaining: remaining@,
            },
            Activity::Running { cell } => ActivityView::Running { cell: *cell },
        }
    }
}

/// The interactive view as a model.
#[verifier::ext_equal]
pub struct AppState {
    pub unit: Unit,
    pub cells: Map<Cell, CellState>,
    pub activity: ActivityView,
    pub outcome: Option<Outcome>,
    pub failure: Option<Seq<char>>,
    pub bench_started: bool,
    pub planned: nat,
}

impl View for App {
    type V = AppState;

    open spec fn view(&self) -> AppState {
        AppState {
            unit: self.unit,
            cells: table(self.cells@),
            activity: self.activity@,
            outcome: self.outcome,
            failure: text::optional(self.failure),
            bench_started: self.bench_started,
            planned: self.planned@,
        }
    }
}

proof fn lemma_table(s: Seq<(Cell, CellView)>)
    requires
        is_distinct(s),
    ensures
        forall|i: int|
            0 <= i < s.len() ==> table(s).dom().contains(#[trigger] s[i].0) && table(s)[s[i].0]
                == s[i].1@,
        forall|c: Cell| #[trigger]
            table(s).dom().contains(c) ==> exists|i: int| #[trigger] is_at(s, c, i),
        table(s).dom().finite(),
    decreases s.len(),
{
    if s.len() > 0 {
        let t = s.drop_last();
        lemma_table(t);
        assert forall|i: int| 0 <= i < s.len() implies table(s).dom().contains(#[trigger] s[i].0)
            && table(s)[s[i].0] == s[i].1@ by {
            if i < t.len() {
                assert(t[i] == s[i]);
                assert(s[i].0 != s[s.len() - 1].0);
            }
        }
        assert forall|c: Cell| #[trigger] table(s).dom().contains(c) implies exists|i: int|
            #[trigger] is_at(s, c, i) by {
            if c == s.last().0 {
                assert(is_at(s, c, s.len() - 1));
            } else {
                assert(table(t).dom().contains(c));
                let i = choose|i: int| #[trigger] is_at(t, c, i);
                assert(is_at(s, c, i));
            }
        }
    }
}

/// Taking an entry out of a list takes its cell out of the table.
proof fn lemma_table_remove(s: Seq<(Cell, CellView)>, i: int)
    requires
        is_distinct(s),
        0 <= i < s.len(),
    ensures
        is_distinct(s.remove(i)),
        table(s.remove(i)) == table(s).remove(s[i].0),
        forall|j: int| 0 <= j < s.len() - 1 ==> #[trigger] s.remove(i)[j].0 != s[i].0,
{
    let r = s.remove(i);
    assert forall|j: int, k: int| 0 <= j < k < r.len() implies #[trigger] r[j].0
        != #[trigger] r[k].0 by {
        let a = if j < i {
            j
        } else {
            j + 1
        };
        let b = if k < i {
            k
        } else {
            k + 1
        };
        assert(r[j] == s[a] && r[k] == s[b]);
        assert(s[a].0 != s[b].0);
    }
    assert forall|j: int| 0 <= j < s.len() - 1 implies #[trigger] r[j].0 != s[i].0 by {
        if j < i {
            assert(r[j] == s[j]);
            assert(s[j].0 != s[i].0);
        } else {
            assert(r[j] == s[j + 1]);
            assert(s[i].0 != s[j + 1].0);
        }
    }
    lemma_table(s);
    lemma_table(r);
    let left = table(r);
    let right = table(s).remove(s[i].0);
    assert forall|c: Cell| #[trigger]
        left.dom().contains(c) == right.dom().contains(c) && (left.dom().contains(c) ==> left[c]
            == right[c]) by {
        if left.dom().contains(c) {
            let j = choose|j: int| #[trigger] is_at(r, c, j);
            if j < i {
                assert(r[j] == s[j]);
            } else {
                assert(r[j] == s[j + 1]);
            }
        }
        if right.dom().contains(c) {
            let j = choose|j: int| #[trigger] is_at(s, c, j);
            if j < i {
                assert(r[j] == s[j]);
            } else {
                assert(r[j - 1] == s[j]);
            }
        }
    }
    assert(left.dom() =~= right.dom());
    assert(left =~= right);
}

// ---------------------------------------------------------------------------
// Values

/// The value of a cell in the given unit, in bytes or operations per second;
/// completed beats live.
pub open spec fn value_of(c: CellState, unit: Unit) -> Option<Reading> {
    match c.result {
        Some(r) => Some(
            match unit {
                Unit::MegabytesPerSec => r.bytes_per_sec,
                Unit::Iops => r.iops,
            },
        ),
        None => match c.live {
            Some(l) => Some(
                match unit {
                    Unit::MegabytesPerSec => l.bytes_per_sec,
                    Unit::Iops => l.iops,
                },
            ),
            None => None,
        },
    }
}

impl CellView {
    /// Nothing is known.
    pub fn new() -> (r: CellView)
        ensures
            r@ == unknown(),
    {
        CellView { live: None, phase: None, result: None }
    }

    /// Value shown in the given unit, in bytes or operations per second;
    /// completed beats live.
    pub fn value(&self, unit: Unit) -> (r: Option<Reading>)
        ensures
            r == value_of(self@, unit),
    {
        match &self.result {
            Some(r) => {
                return Some(
                    match unit {
                        Unit::MegabytesPerSec => r.bytes_per_sec,
                        Unit::Iops => r.iops,
                    },
                );
            },
            None => {},
        }
        match self.live {
            Some(l) => Some(
                match unit {
                    Unit::MegabytesPerSec => l.bytes_per_sec,
                    Unit::Iops => l.iops,
                },
            ),
            None => None,
        }
    }
}

/// The values of the first `n` tasks in one direction, where they have any.
pub open spec fn column(cells: Map<Cell, CellState>, unit: Unit, op: Op, n: nat) -> Seq<Reading>
    decreases n,
{
    if n == 0 {
        Seq::empty()
    } else {
        let before = column(cells, unit, op, (n - 1) as nat);
        match value_of(known(cells, Cell { task: (n - 1) as usize, op }), unit) {
            Some(v) => before.push(v),
            None => before,
        }
    }
}

// ---------------------------------------------------------------------------
// Progress

/// The state with what is known of `cell` replaced.
pub open spec fn with_cell(s: AppState, cell: Cell, c: CellState) -> AppState {
    AppState { cells: s.cells.insert(cell, c), ..s }
}

/// The state after an event.
pub open spec fn applied(s: AppState, event: EventView) -> AppState {
    match event {
        EventView::Preparing => AppState { activity: ActivityView::Preparing, ..s },
        EventView::Cooldown { next, remaining } => AppState {
            bench_started: true,
            activity: ActivityView::Cooldown { next, remaining },
            ..s
        },
        EventView::Phase { cell, phase } => with_cell(
            AppState {
                bench_started: true,
                activity: ActivityView::Running { cell },
                ..s
            },
            cell,
            CellState { phase: Some(phase), live: None, ..known(s.cells, cell) },
        ),
        EventView::Live { cell, rate } => with_cell(
            s,
            cell,
            CellState { live: Some(rate), ..known(s.cells, cell) },
        ),
        EventView::RunDone { .. } => s,
        EventView::OpDone { cell, result } => with_cell(
            s,
            cell,
            CellState { live: None, phase: None, result: Some(result) },
        ),
        EventView::Finished => AppState {
            activity: ActivityView::Idle,
            outcome: Some(Outcome::Finished),
            ..s
        },
        EventView::Aborted => AppState {
            activity: ActivityView::Idle,
            outcome: Some(Outcome::Aborted),
            ..s
        },
        EventView::Failed(message) => AppState {
            failure: Some(message),
            outcome: Some(Outcome::Failed),
            ..s
        },
    }
}

/// The time that a session takes: its runs, and the pauses between them.
pub open spec fn planned_nanos(cfg: Config) -> nat {
    let ops = cfg.plan().len() as u32 as nat;
    let pauses = if ops == 0 {
        0
    } else {
        (ops - 1) as nat
    };
    let per_op = duration::saturate(cfg.warmup@ + duration::saturate(cfg.duration@ * cfg.runs as nat));
    duration::saturate(
        duration::saturate(per_op * ops) + duration::saturate(cfg.interval@ * pauses),
    )
}

/// A key, as far as it matters.
#[derive(Debug, Clone, Copy, PartialEq, Eq, Structural)]
pub enum Key {
    Char { c: char, ctrl: bool },
    Esc,
    Other,
}

/// What a key has the caller do.
#[derive(Debug, Clone, Copy, PartialEq, Eq, Structural)]
pub enum KeyAction {
    Nothing,
    /// Abort the session.
    Abort,
    /// Leave, with this outcome.
    Leave(Outcome),
}

/// Whether a key toggles the unit.
pub open spec fn is_toggle(key: Key) -> bool {
    key matches Key::Char { c, .. } && (c == 'k' || c == 'K')
}

/// Whether a key quits.
pub open spec fn is_quit(key: Key) -> bool {
    match key {
        Key::Char { c, ctrl } => c == 'q' || c == 'Q' || (c == 'c' && ctrl),
        Key::Esc => true,
        Key::Other => false,
    }
}

/// How far a session is.
#[derive(Debug, Clone, Copy, PartialEq, Eq, Structural)]
pub enum Completion {
    /// All of it.
    Whole,
    /// There is nothing to do.
    Empty,
    /// `done` of `total` operations, and `current` of one more.
    Partial { done: usize, total: usize, current: Option<Current> },
}

/// How far the current operation is: `runs_done` of `runs`, and `percent`, 0
/// to 100, of one more where it is known.
#[derive(Debug, Clone, Copy, PartialEq, Eq, Structural)]
pub struct Current {
    pub runs_done: u32,
    pub runs: u32,
    pub percent: Option<Reading>,
}

/// The cells that are completed.
pub open spec fn completed(cells: Map<Cell, CellState>) -> Set<Cell> {
    cells.dom().filter(|c: Cell| cells[c].result is Some)
}

/// How far the operation at `cell` is, if it is being measured.
pub open spec fn current_of(c: CellState) -> Option<Current> {
    match c.phase {
        Some(Phase::Measuring { run, total }) => if total > 0 && run > 0 {
            Some(
                Current {
                    runs_done: (run - 1) as u32,
                    runs: total,
                    percent: match c.live {
                        Some(l) => l.percent,
                        None => None,
                    },
                },
            )
        } else {
            None
        },
        _ => None,
    }
}

/// How far a session is: finished operations plus the current operation's
/// runs.
pub open spec fn completion_of(s: AppState, total: nat) -> Completion {
    if s.outcome == Some(Outcome::Finished) {
        Completion::Whole
    } else if total == 0 {
        Completion::Empty
    } else {
        Completion::Partial {
            done: completed(s.cells).len() as usize,
            total: total as usize,
            current: match s.activity {
                ActivityView::Running { cell } => current_of(known(s.cells, cell)),
                _ => None,
            },
        }
    }
}

impl App {
    /// No cell is in the list twice.
    pub open spec fn wf(self) -> bool {
        is_distinct(self.cells@)
    }

    /// A view of a session that has not begun.
    pub fn new(cfg: &Config, unit: Unit) -> (r: App)
        ensures
            r.wf(),
            r@ == (AppState {
                unit,
                cells: Map::empty(),
                activity: ActivityView::Idle,
                outcome: None,
                failure: None,
                bench_started: false,
                planned: planned_nanos(*cfg),
            }),
    {
        // Saturating arithmetic: absurd --duration values must not panic here.
        let ops: u32 = cfg.cells().len() as u32;
        let pauses: u32 = if ops == 0 {
            0
        } else {
            ops - 1
        };
        let per_op = cfg.warmup.saturating_add(cfg.duration.saturating_mul(cfg.runs));
        let planned = per_op.saturating_mul(ops).saturating_add(
            cfg.interval.saturating_mul(pauses),
        );
        App {
            unit,
            cells: Vec::new(),
            activity: Activity::Idle,
            outcome: None,
            failure: None,
            bench_started: false,
            planned,
        }
    }

    /// The place of a cell in the list.
    fn find(&self, cell: Cell) -> (r: Option<usize>)
        requires
            self.wf(),
        ensures
            match r {
                Some(i) => i < self.cells@.len() && self.cells@[i as int].0 == cell
                    && self@.cells.dom().contains(cell) && self@.cells[cell]
                    == self.cells@[i as int].1@,
                None => !self@.cells.dom().contains(cell) && forall|j: int|
                    0 <= j < self.cells@.len() ==> (#[trigger] self.cells@[j]).0 != cell,
            },
    {
        proof {
            lemma_table(self.cells@);
        }
        let mut i: usize = 0;
        while i < self.cells.len()
            invariant
                i <= self.cells.len(),
                self.wf(),
                forall|j: int| 0 <= j < i ==> (#[trigger] self.cells@[j]).0 != cell,
                forall|j: int|
                    0 <= j < self.cells@.len() ==> table(self.cells@).dom().contains(
                        (#[trigger] self.cells@[j]).0,
                    ) && table(self.cells@)[self.cells@[j].0] == self.cells@[j].1@,
                forall|c: Cell| #[trigger]
                    table(self.cells@).dom().contains(c) ==> exists|i: int| #[trigger]
                        is_at(self.cells@, c, i),
            decreases self.cells.len() - i,
        {
            if self.cells[i].0 == cell {
                return Some(i);
            }
            i += 1;
        }
        proof {
            if self@.cells.dom().contains(cell) {
                let j = choose|j: int| #[trigger] is_at(self.cells@, cell, j);
                assert(self.cells@[j].0 == cell);
            }
        }
        None
    }

    /// Takes out what is known of a cell.
    fn take(&mut self, cell: Cell) -> (r: CellView)
        requires
            old(self).wf(),
        ensures
            final(self).wf(),
            r@ == known(old(self)@.cells, cell),
            final(self)@ == (AppState { cells: old(self)@.cells.remove(cell), ..old(self)@ }),
            forall|j: int| 0 <= j < final(self).cells@.len() ==> (#[trigger] final(self).cells@[j]).0 != cell,
    {
        match self.find(cell) {
            Some(i) => {
                proof {
                    lemma_table_remove(self.cells@, i as int);
                }
                let (_, view) = self.cells.remove(i);
                view
            },
            None => {
                assert(self@.cells.remove(cell) =~= self@.cells);
                CellView::new()
            },
        }
    }

    /// Puts in what is known of a cell that is not in the list.
    fn put(&mut self, cell: Cell, view: CellView)
        requires
            old(self).wf(),
            forall|j: int| 0 <= j < old(self).cells@.len() ==> (#[trigger] old(self).cells@[j]).0 != cell,
        ensures
            final(self).wf(),
            final(self)@ == with_cell(old(self)@, cell, view@),
    {
        let ghost before = self.cells@;
        self.cells.push((cell, view));
        assert(self.cells@.drop_last() =~= before);
    }

    /// Takes in an event of the runner.
    pub fn apply(&mut self, event: Event)
        requires
            old(self).wf(),
        ensures
            final(self).wf(),
            final(self)@ == applied(old(self)@, event@),
    {
        match event {
            Event::Preparing => {
                self.activity = Activity::Preparing;
            },
            Event::Cooldown { next, remaining } => {
                self.bench_started = true;
                self.activity = Activity::Cooldown { next, remaining };
            },
            Event::Phase { cell, phase } => {
                let mut view = self.take(cell);
                view.phase = Some(phase);
                view.live = None;
                self.put(cell, view);
                self.bench_started = true;
                self.activity = Activity::Running { cell };
                assert(self@ =~= applied(old(self)@, event@));
            },
            Event::Live { cell, rate } => {
                let mut view = self.take(cell);
                view.live = Some(rate);
                self.put(cell, view);
                assert(self@ =~= applied(old(self)@, event@));
            },
            Event::RunDone { .. } => {},
            Event::OpDone { cell, result } => {
                let mut view = self.take(cell);
                view.result = Some(result);
                view.live = None;
                view.phase = None;
                self.put(cell, view);
                assert(self@ =~= applied(old(self)@, event@));
            },
            Event::Finished => {
                self.activity = Activity::Idle;
                self.outcome = Some(Outcome::Finished);
            },
            Event::Aborted => {
                self.activity = Activity::Idle;
                self.outcome = Some(Outcome::Aborted);
            },
            Event::Failed(message) => {
                self.failure = Some(message);
                self.outcome = Some(Outcome::Failed);
            },
        }
    }

    /// The runner hung up. Without a terminal event that means it died — fail
    /// instead of hanging forever.
    pub fn hang_up(&mut self)
        requires
            old(self).wf(),
        ensures
            final(self).wf(),
            final(self)@ == (if old(self)@.outcome is None {
                AppState {
                    failure: Some("the benchmark runner stopped unexpectedly"@),
                    outcome: Some(Outcome::Failed),
                    ..old(self)@
                }
            } else {
                old(self)@
            }),
    {
        if self.outcome.is_none() {
            self.failure = Some("the benchmark runner stopped unexpectedly".to_owned());
            self.outcome = Some(Outcome::Failed);
        }
    }

    /// Whether to leave at once, and with which outcome: after an abort or a
    /// failure. A finished session keeps the result table on screen (CDM-style)
    /// until the user quits.
    pub fn leaving(&self) -> (r: Option<Outcome>)
        ensures
            r == (match self@.outcome {
                Some(Outcome::Finished) => None,
                other => other,
            }),
    {
        match self.outcome {
            Some(Outcome::Finished) => None,
            other => other,
        }
    }

    /// Takes in a key: `K` toggles the unit; `Q`, `Esc` and `Ctrl-C` abort, or
    /// exit the result screen.
    pub fn press(&mut self, key: Key) -> (r: KeyAction)
        ensures
            final(self)@ == (if is_toggle(key) {
                AppState { unit: old(self)@.unit.other(), ..old(self)@ }
            } else {
                old(self)@
            }),
            final(self).cells@ == old(self).cells@,
            r == (if is_quit(key) {
                match old(self)@.outcome {
                    Some(outcome) => KeyAction::Leave(outcome),
                    None => KeyAction::Abort,
                }
            } else {
                KeyAction::Nothing
            }),
    {
        let quit = match key {
            Key::Char { c, ctrl } => {
                if c == 'k' || c == 'K' {
                    self.unit = self.unit.toggled();
                    return KeyAction::Nothing;
                }
                c == 'q' || c == 'Q' || (c == 'c' && ctrl)
            },
            Key::Esc => true,
            Key::Other => false,
        };
        if quit {
            match self.outcome {
                Some(outcome) => KeyAction::Leave(outcome),
                None => KeyAction::Abort,
            }
        } else {
            KeyAction::Nothing
        }
    }

    /// Time left, `elapsed` having passed since the prepare phase ended.
    pub fn eta(&self, elapsed: Duration) -> (r: Option<Duration>)
        ensures
            match r {
                Some(d) => self@.bench_started && d@ == (if self@.planned >= elapsed@ {
                    (self@.planned - elapsed@) as nat
                } else {
                    0
                }),
                None => !self@.bench_started,
            },
    {
        if self.bench_started {
            Some(self.planned.saturating_sub(elapsed))
        } else {
            None
        }
    }

    /// What is known of a cell, if anything.
    pub fn cell(&self, cell: Cell) -> (r: Option<&CellView>)
        requires
            self.wf(),
        ensures
            match r {
                Some(v) => self@.cells.dom().contains(cell) && v@ == self@.cells[cell],
                None => !self@.cells.dom().contains(cell),
            },
    {
        match self.find(cell) {
            Some(i) => Some(&self.cells[i].1),
            None => None,
        }
    }

    /// The value of a cell in the current unit, if it has one.
    pub fn value(&self, cell: Cell) -> (r: Option<Reading>)
        requires
            self.wf(),
        ensures
            r == value_of(known(self@.cells, cell), self@.unit),
    {
        match self.cell(cell) {
            Some(v) => v.value(self.unit),
            None => None,
        }
    }

    /// The best value in one direction: CDM-style, each column of bars scales
    /// against its own.
    pub fn col_max(&self, cfg: &Config, op: Op) -> (r: Reading)
        requires
            self.wf(),
        ensures
            r == measure::highest(column(self@.cells, self@.unit, op, cfg.tasks@.len())),
    {
        let mut max = Reading::from_bits(0);
        let mut i: usize = 0;
        while i < cfg.tasks.len()
            invariant
                i <= cfg.tasks.len(),
                self.wf(),
                max == measure::highest(column(self@.cells, self@.unit, op, i as nat)),
            decreases cfg.tasks.len() - i,
        {
            let ghost before = column(self@.cells, self@.unit, op, i as nat);
            match self.value(Cell { task: i, op }) {
                Some(v) => {
                    max = max.max(v);
                    assert(before.push(v).drop_last() =~= before);
                },
                None => {},
            }
            i += 1;
        }
        max
    }

    /// How many cells are completed.
    fn count_completed(&self) -> (r: usize)
        requires
            self.wf(),
        ensures
            r == completed(self@.cells).len(),
    {
        let mut n: usize = 0;
        let mut i: usize = 0;
        proof {
            assert(self.cells@.take(0) =~= Seq::empty());
            assert(completed(table(self.cells@.take(0))) =~= Set::empty());
        }
        while i < self.cells.len()
            invariant
                i <= self.cells.len(),
                n <= i,
                self.wf(),
                n == completed(table(self.cells@.take(i as int))).len(),
                completed(table(self.cells@.take(i as int))).finite(),
            decreases self.cells.len() - i,
        {
            proof {
                lemma_completed_step(self.cells@, i as int);
            }
            if self.cells[i].1.result.is_some() {
                n += 1;
            }
            i += 1;
        }
        assert(self.cells@.take(i as int) =~= self.cells@);
        n
    }

    /// How far the session is: finished operations plus the current
    /// operation's runs.
    pub fn completion(&self, cfg: &Config) -> (r: Completion)
        requires
            self.wf(),
        ensures
            r == completion_of(self@, cfg.plan().len()),
    {
        match self.outcome {
            Some(Outcome::Finished) => return Completion::Whole,
            _ => {},
        }
        let total: usize = cfg.cells().len();
        if total == 0 {
            return Completion::Empty;
        }
        let done: usize = self.count_completed();
        let current = match self.activity {
            Activity::Running { cell } => match self.cell(cell) {
                Some(v) => match v.phase {
                    Some(Phase::Measuring { run, total: runs }) => {
                        if runs > 0 && run > 0 {
                            let percent = match v.live {
                                Some(l) => l.percent,
                                None => None,
                            };
                            Some(Current { runs_done: run - 1, runs, percent })
                        } else {
                            None
                        }
                    },
                    _ => None,
                },
                None => None,
            },
            _ => None,
        };
        Completion::Partial { done, total, current }
    }
}

/// One more entry of a list adds its cell to the completed ones if it is.
proof fn lemma_completed_step(s: Seq<(Cell, CellView)>, i: int)
    requires
        is_distinct(s),
        0 <= i < s.len(),
        completed(table(s.take(i))).finite(),
    ensures
        completed(table(s.take(i + 1))).finite(),
        completed(table(s.take(i + 1))).len() == completed(table(s.take(i))).len() + if s[i].1.result is Some {
            1nat
        } else {
            0nat
        },
{
    let a = s.take(i);
    let b = s.take(i + 1);
    assert(b.drop_last() =~= a);
    assert(b.last() == s[i]);
    assert(is_distinct(a));
    lemma_table(a);
    let cell = s[i].0;
    if table(a).dom().contains(cell) {
        let j = choose|j: int| #[trigger] is_at(a, cell, j);
        assert(a[j] == s[j]);
        assert(s[j].0 != s[i].0);
    }
    if s[i].1.result is Some {
        assert(completed(table(b)) =~= completed(table(a)).insert(cell));
    } else {
        assert(completed(table(b)) =~= completed(table(a)));
    }
}

// ---------------------------------------------------------------------------
// Laws

/// Once a cell is completed, no live rate changes what is shown of it, nor
/// does the start of another phase.
pub proof fn law_completed_beats_live(s: AppState, cell: Cell, event: EventView, unit: Unit)
    requires
        known(s.cells, cell).result is Some,
        !(event matches EventView::OpDone { cell: c, .. } && c == cell),
    ensures
        value_of(known(applied(s, event).cells, cell), unit) == value_of(
            known(s.cells, cell),
            unit,
        ),
{
}

/// A rate that a running workload reports is what its cell shows until there
/// is a result: the bandwidth in MB/s, the operation rate in IOPS. Nothing
/// else that is known of the session changes.
pub proof fn law_a_live_rate_is_shown(s: AppState, cell: Cell, rate: LiveRate)
    requires
        known(s.cells, cell).result is None,
    ensures
        ({
            let after = applied(s, EventView::Live { cell, rate });
            let shown = known(after.cells, cell);
            &&& value_of(shown, Unit::MegabytesPerSec) == Some(rate.bytes_per_sec)
            &&& value_of(shown, Unit::Iops) == Some(rate.iops)
            &&& shown.phase == known(s.cells, cell).phase
            &&& shown.live == Some(rate)
            &&& after == (AppState { cells: after.cells, ..s })
        }),
{
}

/// A result is what its cell shows from then on: its bandwidth in MB/s, its
/// operation rate in IOPS. The live rate and the phase are over.
pub proof fn law_a_result_is_shown(s: AppState, cell: Cell, result: ScoreView)
    ensures
        ({
            let after = applied(s, EventView::OpDone { cell, result });
            let shown = known(after.cells, cell);
            &&& value_of(shown, Unit::MegabytesPerSec) == Some(result.bytes_per_sec)
            &&& value_of(shown, Unit::Iops) == Some(result.iops)
            &&& shown.result == Some(result)
            &&& shown.live is None
            &&& shown.phase is None
            &&& after == (AppState { cells: after.cells, ..s })
        }),
{
}

/// The start of a phase is shown, and clears the rate of the phase before it;
/// a cell without a result then has no value to show.
pub proof fn law_a_phase_is_shown(s: AppState, cell: Cell, phase: Phase, unit: Unit)
    ensures
        ({
            let after = applied(s, EventView::Phase { cell, phase });
            let shown = known(after.cells, cell);
            &&& shown.phase == Some(phase)
            &&& shown.live is None
            &&& shown.result == known(s.cells, cell).result
            &&& shown.result is None ==> value_of(shown, unit) is None
            &&& after.activity == (ActivityView::Running { cell })
            &&& after.bench_started
        }),
{
}

/// A pause, the preparation and the end are shown as what goes on; they leave
/// every cell as it was.
pub proof fn law_what_goes_on_is_shown(s: AppState, next: Cell, remaining: nat, message: Seq<char>)
    ensures
        ({
            let pause = applied(s, EventView::Cooldown { next, remaining });
            let prepare = applied(s, EventView::Preparing);
            let failed = applied(s, EventView::Failed(message));
            let finished = applied(s, EventView::Finished);
            let aborted = applied(s, EventView::Aborted);
            &&& pause.activity == (ActivityView::Cooldown { next, remaining })
            &&& pause.bench_started
            &&& pause.cells == s.cells && pause.outcome == s.outcome
            &&& prepare.activity is Preparing
            &&& prepare.bench_started == s.bench_started
            &&& prepare.cells == s.cells && prepare.outcome == s.outcome
            &&& failed.outcome == Some(Outcome::Failed) && failed.failure == Some(message)
            &&& failed.cells == s.cells
            &&& finished.outcome == Some(Outcome::Finished) && finished.activity is Idle
            &&& finished.cells == s.cells
            &&& aborted.outcome == Some(Outcome::Aborted) && aborted.activity is Idle
            &&& aborted.cells == s.cells
        }),
{
}

/// An event about one cell leaves what is known of every other as it was.
pub proof fn law_cells_do_not_interfere(s: AppState, event: EventView, cell: Cell)
    requires
        match event {
            EventView::Phase { cell: c, .. } => c != cell,
            EventView::Live { cell: c, .. } => c != cell,
            EventView::OpDone { cell: c, .. } => c != cell,
            _ => true,
        },
    ensures
        known(applied(s, event).cells, cell) == known(s.cells, cell),
{
}

/// A failed session always has a message to show, and no other has one.
pub proof fn law_failures_have_a_message(s: AppState, event: EventView)
    requires
        s.failure is Some <==> s.outcome == Some(Outcome::Failed),
        s.outcome is None,
    ensures
        applied(s, event).failure is Some <==> applied(s, event).outcome == Some(Outcome::Failed),
{
}

/// Toggling the unit twice shows the session as it was.
pub proof fn law_toggling_twice_shows_the_same(s: AppState)
    ensures
        (AppState { unit: s.unit.other().other(), ..s }) == s,
{
}

/// The state after some events.
pub open spec fn applied_all(s: AppState, events: Seq<EventView>) -> AppState
    decreases events.len(),
{
    if events.len() == 0 {
        s
    } else {
        applied(applied_all(s, events.drop_last()), events.last())
    }
}

/// A result stays, once it is there.
proof fn lemma_results_stay(s: AppState, events: Seq<EventView>, i: int, cell: Cell)
    requires
        0 <= i < events.len(),
        events[i] matches EventView::OpDone { cell: c, .. } && c == cell,
    ensures
        known(applied_all(s, events).cells, cell).result is Some,
    decreases events.len(),
{
    if i < events.len() - 1 {
        lemma_results_stay(s, events.drop_last(), i, cell);
    }
}

/// A session that finished shows a result in every cell of the table.
pub proof fn law_a_finished_session_shows_every_result(
    cfg: Config,
    replies: Seq<ReplyView>,
    s: AppState,
    cell: Cell,
)
    requires
        trace::possible(cfg, replies),
        trace::after(cfg, replies).events.len() > 0,
        trace::after(cfg, replies).events.last() is Finished,
        cell.task < cfg.tasks@.len(),
    ensures
        ({
            let end = applied_all(s, trace::after(cfg, replies).events);
            &&& end.outcome == Some(Outcome::Finished)
            &&& known(end.cells, cell).result is Some
        }),
{
    let events = trace::after(cfg, replies).events;
    trace::law_work_follows_the_plan(cfg, replies);
    runner::lemma_index_of(cell);
    trace::lemma_plan_completes(cfg, cfg.plan().len(), runner::index_of(cell));
    let i = trace::lemma_completed_mark(events, cell);
    lemma_results_stay(s, events, i, cell);
}

/// The time that a session is planned to take is that of all its runs and
/// pauses, as long as a duration can hold it: each task is read and written,
/// each time with a warmup and N runs, and there is a pause between any two.
pub proof fn law_the_plan_takes_its_runs_and_pauses(cfg: Config)
    requires
        0 < 2 * cfg.tasks@.len() <= u32::MAX,
        2 * cfg.tasks@.len() * (cfg.warmup@ + cfg.runs * cfg.duration@) + (2 * cfg.tasks@.len() - 1)
            * cfg.interval@ <= duration::MAX_NANOS,
    ensures
        planned_nanos(cfg) == 2 * cfg.tasks@.len() * (cfg.warmup@ + cfg.runs * cfg.duration@) + (2
            * cfg.tasks@.len() - 1) * cfg.interval@,
{
    let ops = (2 * cfg.tasks@.len()) as int;
    let runs = cfg.runs as int;
    let (w, d, v) = (cfg.warmup@ as int, cfg.duration@ as int, cfg.interval@ as int);
    let per = w + runs * d;
    assert(cfg.plan().len() == ops);
    assert(d * runs == runs * d) by (nonlinear_arith);
    assert(runs * d >= 0) by (nonlinear_arith)
        requires
            runs >= 0,
            d >= 0,
    ;
    assert((ops - 1) * v >= 0) by (nonlinear_arith)
        requires
            ops >= 1,
            v >= 0,
    ;
    assert(per <= ops * per) by (nonlinear_arith)
        requires
            ops >= 1,
            per >= 0,
    ;
    assert(per * ops == ops * per) by (nonlinear_arith);
    assert(v * (ops - 1) == (ops - 1) * v) by (nonlinear_arith);
}

/// Whether some of the first `n` tasks has the value `v` in one direction.
pub open spec fn has_value(
    cells: Map<Cell, CellState>,
    unit: Unit,
    op: Op,
    n: nat,
    v: Reading,
) -> bool {
    exists|i: int|
        0 <= i < n && #[trigger] value_of(known(cells, Cell { task: i as usize, op }), unit)
            == Some(v)
}

/// The bars of a direction are drawn on the scale of its best value: one that
/// is shown in it, in the unit that is shown, and that none exceeds; zero where
/// there is none.
pub proof fn law_bars_scale_to_the_best(
    cells: Map<Cell, CellState>,
    unit: Unit,
    op: Op,
    n: nat,
    i: int,
)
    ensures
        ({
            let best = measure::highest(column(cells, unit, op, n));
            &&& best == Reading::zero() || has_value(cells, unit, op, n, best)
            &&& best.place >= 0
            &&& 0 <= i < n ==> (value_of(
                known(cells, Cell { task: i as usize, op }),
                unit,
            ) matches Some(v) ==> (v.is_number() ==> v.place <= best.place))
        }),
{
    let values = column(cells, unit, op, n);
    let best = measure::highest(values);
    measure::law_highest_is_greatest(values);
    if values.contains(best) {
        lemma_column(cells, unit, op, n, best);
    }
    if 0 <= i < n {
        if let Some(v) = value_of(known(cells, Cell { task: i as usize, op }), unit) {
            lemma_column_has(cells, unit, op, n, i, v);
            let k = choose|k: int| 0 <= k < values.len() && values[k] == v;
            assert(values[k].is_number() ==> values[k].place <= best.place);
        }
    }
}

proof fn lemma_column(cells: Map<Cell, CellState>, unit: Unit, op: Op, n: nat, v: Reading)
    requires
        column(cells, unit, op, n).contains(v),
    ensures
        has_value(cells, unit, op, n, v),
    decreases n,
{
    if n > 0 {
        let before = column(cells, unit, op, (n - 1) as nat);
        let all = column(cells, unit, op, n);
        let k = choose|k: int| 0 <= k < all.len() && all[k] == v;
        if k < before.len() {
            assert(before[k] == v);
            lemma_column(cells, unit, op, (n - 1) as nat, v);
            let i = choose|i: int|
                0 <= i < n - 1 && #[trigger] value_of(
                    known(cells, Cell { task: i as usize, op }),
                    unit,
                ) == Some(v);
            assert(value_of(known(cells, Cell { task: i as usize, op }), unit) == Some(v));
        } else {
            let i = n - 1;
            assert(value_of(known(cells, Cell { task: i as usize, op }), unit) == Some(v));
        }
    }
}

proof fn lemma_column_has(
    cells: Map<Cell, CellState>,
    unit: Unit,
    op: Op,
    n: nat,
    i: int,
    v: Reading,
)
    requires
        0 <= i < n,
        value_of(known(cells, Cell { task: i as usize, op }), unit) == Some(v),
    ensures
        column(cells, unit, op, n).contains(v),
    decreases n,
{
    let all = column(cells, unit, op, n);
    if i < n - 1 {
        let before = column(cells, unit, op, (n - 1) as nat);
        lemma_column_has(cells, unit, op, (n - 1) as nat, i, v);
        let k = choose|k: int| 0 <= k < before.len() && before[k] == v;
        assert(all[k] == v);
    } else {
        assert(all.last() == v);
        assert(all[all.len() - 1] == v);
    }
}

/// The progress counts the operations with a result: one more with each result
/// of a cell that had none, and no other event changes the count.
pub proof fn law_progress_counts_results(s: AppState, event: EventView)
    requires
        s.cells.dom().finite(),
    ensures
        ({
            let before = completed(s.cells);
            let after = completed(applied(s, event).cells);
            match event {
                EventView::OpDone { cell, .. } => {
                    &&& after == before.insert(cell)
                    &&& after.len() == before.len() + if known(s.cells, cell).result is Some {
                        0nat
                    } else {
                        1nat
                    }
                },
                _ => after == before,
            }
        }),
{
    let before = completed(s.cells);
    let after = completed(applied(s, event).cells);
    match event {
        EventView::OpDone { cell, .. } => {
            assert(after =~= before.insert(cell));
            assert(before.contains(cell) <==> known(s.cells, cell).result is Some);
        },
        _ => {
            assert(after =~= before);
        },
    }
}

/// While an operation is measured, the runs before the current one count, and
/// the percentage of the current one as far as it is known. A finished session
/// is whole, and one without operations has none.
pub proof fn law_progress_counts_runs(s: AppState, total: nat, cell: Cell, run: u32, runs: u32)
    requires
        total <= usize::MAX,
        completed(s.cells).len() <= usize::MAX,
        0 < run <= runs,
    ensures
        s.outcome == Some(Outcome::Finished) ==> completion_of(s, total) is Whole,
        s.outcome != Some(Outcome::Finished) && total == 0 ==> completion_of(s, total) is Empty,
        s.outcome != Some(Outcome::Finished) && total > 0 ==> {
            &&& completion_of(s, total) matches Completion::Partial { done, total: all, current }
            &&& done == completed(s.cells).len()
            &&& all == total
            &&& !(s.activity is Running) ==> current is None
            &&& s.activity == (ActivityView::Running { cell }) ==> {
                let c = known(s.cells, cell);
                &&& !(c.phase matches Some(Phase::Measuring { .. })) ==> current is None
                &&& c.phase == Some(Phase::Measuring { run, total: runs }) ==> {
                    &&& current matches Some(now)
                    &&& now.runs_done == run - 1
                    &&& now.runs == runs
                    &&& c.live is None ==> now.percent is None
                    &&& c.live matches Some(rate) ==> now.percent == rate.percent
                }
            }
        },
{
}

/// `K` toggles the unit, in capitals or not; `Q`, Escape and Ctrl-C quit, and
/// no other key does anything.
pub proof fn law_these_keys_do_something(key: Key)
    ensures
        is_toggle(key) <==> (key matches Key::Char { c, .. } && (c == 'k' || c == 'K')),
        is_quit(key) <==> key is Esc || (key matches Key::Char { c, ctrl } && (c == 'q' || c == 'Q'
            || (c == 'c' && ctrl))),
        !(is_toggle(key) && is_quit(key)),
{
}

/// Events change nothing but what they are about: none the unit or the planned
/// time, only the end the outcome, only a failure the message, only a phase or
/// a pause that the benchmark has started, and the end of a run nothing at all.
pub proof fn law_events_leave_the_rest(s: AppState, event: EventView)
    ensures
        ({
            let after = applied(s, event);
            &&& after.unit == s.unit
            &&& after.planned == s.planned
            &&& !(event is Finished || event is Aborted || event is Failed) ==> after.outcome
                == s.outcome
            &&& !(event is Failed) ==> after.failure == s.failure
            &&& !(event is Phase || event is Cooldown) ==> after.bench_started == s.bench_started
            &&& event is Live || event is OpDone || event is Failed ==> after.activity == s.activity
            &&& event is RunDone ==> after == s
        }),
{
}

} // verus!
