//! The benchmark as a sequence of steps: what is asked for next, given how the
//! last request was answered, and which progress is reported on the way.
//!
//! The runner thread performs each action, hands back the reply, and sends the
//! events of every step, in order, before it performs the next action.

use vstd::prelude::*;

use crate::duration::Duration;
use crate::fio::{LiveRate, Op, RunSample};
use crate::measure;
use crate::measure::Reading;
use crate::runner;
use crate::runner::{aggregate, Cell, Config, Event, OpResult, Phase};
use crate::task::TaskSpec;

verus! {

/// What is to be done next.
#[derive(Debug, Clone, Copy)]
pub enum Action {
    /// See whether the test file can be created in the target directory.
    Probe,
    /// Lay out the test file.
    Prepare,
    /// See whether the session was aborted.
    Poll,
    /// Wait.
    Sleep(Duration),
    /// Run the workload of a cell for this long.
    Run { cell: Cell, runtime: Duration },
    /// Nothing: the benchmark is over.
    Stop,
}

/// How an action went.
#[derive(Debug)]
pub enum Reply {
    /// As it should; for [`Action::Poll`]: the session was not aborted.
    Done,
    /// A workload ran to its end, with these statistics.
    Ran(RunSample),
    /// The session was aborted.
    Aborted,
    /// It failed, with this message.
    Failed(String),
}

/// Where the benchmark stands.
#[derive(Debug, Clone, Copy)]
pub enum Stage {
    Probing,
    Preparing,
    /// Before asking, in the pause ahead of a cell, whether to go on.
    Polling { cell: Cell, remaining: Duration },
    /// During a stretch of the pause; `remaining` is what is left after it.
    Sleeping { cell: Cell, remaining: Duration },
    Warming { cell: Cell },
    Measuring { cell: Cell, run: u32 },
    Over,
}

/// The benchmark between two actions.
#[derive(Debug)]
pub struct Runner {
    pub cfg: Config,
    pub stage: Stage,
    /// The scored runs of the current cell so far.
    pub samples: Vec<RunSample>,
}

/// What one step brings: events to send, then an action to perform.
#[derive(Debug)]
pub struct Turn {
    pub events: Vec<Event>,
    pub action: Action,
}

// ---------------------------------------------------------------------------
// Views

/// A score with its runs as a sequence.
#[verifier::ext_equal]
pub struct ScoreView {
    pub spec: TaskSpec,
    pub op: Op,
    pub bytes_per_sec: Reading,
    pub iops: Reading,
    pub lat_us: Reading,
    pub runs: Seq<RunSample>,
}

impl View for OpResult {
    type V = ScoreView;

    open spec fn view(&self) -> ScoreView {
        ScoreView {
            spec: self.spec,
            op: self.op,
            bytes_per_sec: self.bytes_per_sec,
            iops: self.iops,
            lat_us: self.lat_us,
            runs: self.runs@,
        }
    }
}

/// An event, with durations in nanoseconds.
#[verifier::ext_equal]
pub enum EventView {
    Preparing,
    Cooldown { next: Cell, remaining: nat },
    Phase { cell: Cell, phase: Phase },
    Live { cell: Cell, rate: LiveRate },
    RunDone { cell: Cell, sample: RunSample },
    OpDone { cell: Cell, result: ScoreView },
    Finished,
    Aborted,
    Failed(Seq<char>),
}

impl View for Event {
    type V = EventView;

    open spec fn view(&self) -> EventView {
        match self {
            Event::Preparing => EventView::Preparing,
            Event::Cooldown { next, remaining } => EventView::Cooldown {
                next: *next,
                remaining: remaining@,
            },
            Event::Phase { cell, phase } => EventView::Phase { cell: *cell, phase: *phase },
            Event::Live { cell, rate } => EventView::Live { cell: *cell, rate: *rate },
            Event::RunDone { cell, sample } => EventView::RunDone { cell: *cell, sample: *sample },
            Event::OpDone { cell, result } => EventView::OpDone { cell: *cell, result: result@ },
            Event::Finished => EventView::Finished,
            Event::Aborted => EventView::Aborted,
            Event::Failed(message) => EventView::Failed(message@),
        }
    }
}

/// The views of a list of events.
pub open spec fn event_views(v: Seq<Event>) -> Seq<EventView> {
    Seq::new(v.len(), |i: int| v[i]@)
}

/// An action, with durations in nanoseconds.
pub enum ActionView {
    Probe,
    Prepare,
    Poll,
    Sleep(nat),
    Run { cell: Cell, runtime: nat },
    Stop,
}

impl View for Action {
    type V = ActionView;

    open spec fn view(&self) -> ActionView {
        match self {
            Action::Probe => ActionView::Probe,
            Action::Prepare => ActionView::Prepare,
            Action::Poll => ActionView::Poll,
            Action::Sleep(time) => ActionView::Sleep(time@),
            Action::Run { cell, runtime } => ActionView::Run { cell: *cell, runtime: runtime@ },
            Action::Stop => ActionView::Stop,
        }
    }
}

/// A reply, with its message as a sequence.
pub enum ReplyView {
    Done,
    Ran(RunSample),
    Aborted,
    Failed(Seq<char>),
}

impl View for Reply {
    type V = ReplyView;

    open spec fn view(&self) -> ReplyView {
        match self {
            Reply::Done => ReplyView::Done,
            Reply::Ran(sample) => ReplyView::Ran(*sample),
            Reply::Aborted => ReplyView::Aborted,
            Reply::Failed(message) => ReplyView::Failed(message@),
        }
    }
}

/// A stage, with the cell by its place in the plan and durations in
/// nanoseconds.
pub enum StageView {
    Probing,
    Preparing,
    Polling { index: int, remaining: nat },
    Sleeping { index: int, remaining: nat },
    Warming { index: int },
    Measuring { index: int, run: int },
    Over,
}

impl View for Stage {
    type V = StageView;

    open spec fn view(&self) -> StageView {
        match self {
            Stage::Probing => StageView::Probing,
            Stage::Preparing => StageView::Preparing,
            Stage::Polling { cell, remaining } => StageView::Polling {
                index: runner::index_of(*cell),
                remaining: remaining@,
            },
            Stage::Sleeping { cell, remaining } => StageView::Sleeping {
                index: runner::index_of(*cell),
                remaining: remaining@,
            },
            Stage::Warming { cell } => StageView::Warming { index: runner::index_of(*cell) },
            Stage::Measuring { cell, run } => StageView::Measuring {
                index: runner::index_of(*cell),
                run: *run as int,
            },
            Stage::Over => StageView::Over,
        }
    }
}

// ---------------------------------------------------------------------------
// The steps

/// The longest stretch of a pause without a look at the abort flag.
pub const TICK_MILLIS: u64 = 100;

/// What one step brings, and where it leads.
#[verifier::ext_equal]
pub struct Move {
    pub stage: StageView,
    pub samples: Seq<RunSample>,
    pub events: Seq<EventView>,
    pub action: ActionView,
}

/// The same move, with `events` reported ahead of its own.
pub open spec fn preceded(events: Seq<EventView>, then: Move) -> Move {
    Move { events: events + then.events, ..then }
}

/// The score of a cell.
pub open spec fn score_of(cfg: Config, index: int, samples: Seq<RunSample>) -> ScoreView {
    let cell = runner::cell_at(index);
    ScoreView {
        spec: cfg.tasks@[cell.task as int],
        op: cell.op,
        bytes_per_sec: measure::highest(runner::bandwidths(samples)),
        iops: measure::highest(runner::op_rates(samples)),
        lat_us: measure::lowest(runner::latencies(samples)),
        runs: samples,
    }
}

/// The end, reported by `event`.
pub open spec fn end(event: EventView) -> Move {
    Move {
        stage: StageView::Over,
        samples: Seq::empty(),
        events: seq![event],
        action: ActionView::Stop,
    }
}

/// The pause ahead of the cell at `index`, or the end where there is none.
pub open spec fn go_on(cfg: Config, index: int) -> Move {
    if index < cfg.plan().len() {
        Move {
            stage: StageView::Polling { index, remaining: cfg.interval@ },
            samples: Seq::empty(),
            events: seq![
                EventView::Cooldown { next: runner::cell_at(index), remaining: cfg.interval@ },
            ],
            action: ActionView::Poll,
        }
    } else {
        end(EventView::Finished)
    }
}

/// The end of the cell at `index` with these scored runs, and what follows.
pub open spec fn finish_cell(cfg: Config, index: int, samples: Seq<RunSample>) -> Move {
    preceded(
        seq![
            EventView::OpDone {
                cell: runner::cell_at(index),
                result: score_of(cfg, index, samples),
            },
        ],
        go_on(cfg, index + 1),
    )
}

/// The scored run after `samples` of the cell at `index`, or the cell's end
/// where all runs are done.
pub open spec fn measure_on(cfg: Config, index: int, samples: Seq<RunSample>) -> Move {
    if samples.len() < cfg.runs {
        let cell = runner::cell_at(index);
        let run = samples.len() + 1;
        Move {
            stage: StageView::Measuring { index, run: run as int },
            samples,
            events: seq![
                EventView::Phase {
                    cell,
                    phase: Phase::Measuring { run: run as u32, total: cfg.runs },
                },
            ],
            action: ActionView::Run { cell, runtime: cfg.duration@ },
        }
    } else {
        finish_cell(cfg, index, samples)
    }
}

/// The first run of the cell at `index`: the warmup, unless there is none.
pub open spec fn start_cell(cfg: Config, index: int) -> Move {
    if cfg.warmup@ > 0 {
        let cell = runner::cell_at(index);
        Move {
            stage: StageView::Warming { index },
            samples: Seq::empty(),
            events: seq![EventView::Phase { cell, phase: Phase::Warmup }],
            action: ActionView::Run { cell, runtime: cfg.warmup@ },
        }
    } else {
        measure_on(cfg, index, Seq::empty())
    }
}

/// The next stretch of a pause with `remaining` to go.
pub open spec fn stretch(remaining: nat) -> nat {
    if remaining < TICK_MILLIS * 1_000_000 {
        remaining
    } else {
        (TICK_MILLIS * 1_000_000) as nat
    }
}

/// Whether the countdown is reported with `remaining` to go: about twice a
/// second, which keeps it alive without spam.
pub open spec fn is_reported(remaining: nat) -> bool {
    (remaining % 1_000_000_000) / 1_000_000 % 500 < 100
}

/// The replies that the action of a stage can have.
pub open spec fn accepts(stage: StageView, reply: ReplyView) -> bool {
    match stage {
        StageView::Probing => reply is Done || reply is Failed,
        StageView::Preparing => reply is Done || reply is Aborted || reply is Failed,
        StageView::Polling { .. } => reply is Done || reply is Aborted,
        StageView::Sleeping { .. } => reply is Done,
        StageView::Warming { .. } => reply is Ran || reply is Aborted || reply is Failed,
        StageView::Measuring { .. } => reply is Ran || reply is Aborted || reply is Failed,
        StageView::Over => false,
    }
}

/// What follows when the action of `stage` is answered by `reply`, one of the
/// replies that it can have.
pub open spec fn step(
    cfg: Config,
    stage: StageView,
    samples: Seq<RunSample>,
    reply: ReplyView,
) -> Move {
    match (stage, reply) {
        (_, ReplyView::Aborted) => end(EventView::Aborted),
        (_, ReplyView::Failed(message)) => end(EventView::Failed(message)),
        (StageView::Probing, _) => Move {
            stage: StageView::Preparing,
            samples: Seq::empty(),
            events: seq![EventView::Preparing],
            action: ActionView::Prepare,
        },
        (StageView::Preparing, _) => if cfg.plan().len() > 0 {
            start_cell(cfg, 0)
        } else {
            end(EventView::Finished)
        },
        (StageView::Polling { index, remaining }, _) => if remaining == 0 {
            start_cell(cfg, index)
        } else {
            Move {
                stage: StageView::Sleeping {
                    index,
                    remaining: (remaining - stretch(remaining)) as nat,
                },
                samples: Seq::empty(),
                events: Seq::empty(),
                action: ActionView::Sleep(stretch(remaining)),
            }
        },
        (StageView::Sleeping { index, remaining }, _) => Move {
            stage: StageView::Polling { index, remaining },
            samples: Seq::empty(),
            events: if is_reported(remaining) {
                seq![EventView::Cooldown { next: runner::cell_at(index), remaining }]
            } else {
                Seq::empty()
            },
            action: ActionView::Poll,
        },
        (StageView::Warming { index }, _) => measure_on(cfg, index, Seq::empty()),
        (StageView::Measuring { index, .. }, ReplyView::Ran(sample)) => preceded(
            seq![EventView::RunDone { cell: runner::cell_at(index), sample }],
            measure_on(cfg, index, samples.push(sample)),
        ),
        _ => arbitrary(),
    }
}

/// What holds between two actions.
pub open spec fn in_order(cfg: Config, stage: StageView, samples: Seq<RunSample>) -> bool {
    match stage {
        StageView::Polling { index, .. } => 0 < index < cfg.plan().len() && samples.len() == 0,
        StageView::Sleeping { index, .. } => 0 < index < cfg.plan().len() && samples.len() == 0,
        StageView::Warming { index } => {
            &&& 0 <= index < cfg.plan().len()
            &&& samples.len() == 0
            &&& cfg.warmup@ > 0
        },
        StageView::Measuring { index, run } => {
            &&& 0 <= index < cfg.plan().len()
            &&& run == samples.len() + 1
            &&& run <= cfg.runs
        },
        _ => samples.len() == 0,
    }
}

impl Runner {
    /// What holds between two actions.
    pub open spec fn wf(self) -> bool {
        in_order(self.cfg, self.stage@, self.samples@)
    }

    /// Whether a step has the runner, and asks for, what `m` says.
    pub open spec fn took(self, turn: Turn, m: Move) -> bool {
        &&& self.stage@ == m.stage
        &&& self.samples@ == m.samples
        &&& event_views(turn.events@) == m.events
        &&& turn.action@ == m.action
    }

    /// The benchmark before its first action, which is [`Action::Probe`].
    pub fn new(cfg: Config) -> (r: Runner)
        ensures
            r.cfg == cfg,
            r.stage@ == StageView::Probing,
            r.samples@ == Seq::<RunSample>::empty(),
            r.wf(),
    {
        Runner { cfg, stage: Stage::Probing, samples: Vec::new() }
    }

    /// Takes the reply to the last action and tells what to do next.
    pub fn next(&mut self, reply: Reply) -> (turn: Turn)
        requires
            old(self).wf(),
            accepts(old(self).stage@, reply@),
        ensures
            final(self).cfg == old(self).cfg,
            final(self).wf(),
            final(self).took(
                turn,
                step(old(self).cfg, old(self).stage@, old(self).samples@, reply@),
            ),
    {
        broadcast use runner::lemma_index_of;

        let mut events: Vec<Event> = Vec::new();
        let ghost m = step(self.cfg, self.stage@, self.samples@, reply@);
        assert(event_views(events@) =~= Seq::empty());
        let action = match (self.stage, reply) {
            (_, Reply::Aborted) => self.end(Event::Aborted, &mut events),
            (_, Reply::Failed(message)) => self.end(Event::Failed(message), &mut events),
            (Stage::Probing, _) => {
                events.push(Event::Preparing);
                self.stage = Stage::Preparing;
                Action::Prepare
            },
            (Stage::Preparing, _) => {
                if self.cfg.tasks.len() > 0 {
                    self.start_cell(Cell { task: 0, op: Op::Read }, &mut events)
                } else {
                    self.end(Event::Finished, &mut events)
                }
            },
            (Stage::Polling { cell, remaining }, _) => {
                if remaining.is_zero() {
                    self.start_cell(cell, &mut events)
                } else {
                    let time = remaining.min(Duration::from_millis(TICK_MILLIS));
                    self.stage =
                    Stage::Sleeping { cell, remaining: remaining.saturating_sub(time) };
                    Action::Sleep(time)
                }
            },
            (Stage::Sleeping { cell, remaining }, _) => {
                if remaining.subsec_millis() % 500 < 100 {
                    events.push(Event::Cooldown { next: cell, remaining });
                }
                self.stage = Stage::Polling { cell, remaining };
                Action::Poll
            },
            (Stage::Warming { cell }, _) => {
                assert(self.samples@ =~= Seq::empty());
                self.measure_on(cell, &mut events)
            },
            (Stage::Measuring { cell, .. }, Reply::Ran(sample)) => {
                events.push(Event::RunDone { cell, sample });
                assert(event_views(events@) =~= seq![EventView::RunDone { cell, sample }]);
                self.samples.push(sample);
                self.measure_on(cell, &mut events)
            },
            _ => {
                assert(false);
                Action::Stop
            },
        };
        assert(event_views(events@) =~= m.events);
        assert(self.samples@ =~= m.samples);
        Turn { events, action }
    }

    fn end(&mut self, event: Event, events: &mut Vec<Event>) -> (action: Action)
        ensures
            final(self).cfg == old(self).cfg,
            final(self).stage@ == StageView::Over,
            final(self).samples@ == Seq::<RunSample>::empty(),
            event_views(final(events)@) == event_views(old(events)@).push(event@),
            action@ == ActionView::Stop,
    {
        events.push(event);
        assert(event_views(events@) =~= event_views(old(events)@).push(event@));
        self.stage = Stage::Over;
        self.samples = Vec::new();
        Action::Stop
    }

    /// Whether this runner, having reported `events`, has made the move `m`
    /// after having reported `before`.
    spec fn made(self, before: Seq<Event>, events: Seq<Event>, action: Action, m: Move) -> bool {
        &&& self.stage@ == m.stage
        &&& self.samples@ == m.samples
        &&& event_views(events) == event_views(before) + m.events
        &&& action@ == m.action
    }

    fn start_cell(&mut self, cell: Cell, events: &mut Vec<Event>) -> (action: Action)
        requires
            cell.task < old(self).cfg.tasks@.len(),
            old(self).samples@.len() == 0,
        ensures
            final(self).cfg == old(self).cfg,
            final(self).wf(),
            final(self).made(
                old(events)@,
                final(events)@,
                action,
                start_cell(old(self).cfg, runner::index_of(cell)),
            ),
    {
        broadcast use runner::lemma_index_of;

        assert(self.samples@ =~= Seq::empty());
        if self.cfg.warmup.is_zero() {
            return self.measure_on(cell, events);
        }
        let ghost before = events@;
        let ghost m = start_cell(self.cfg, runner::index_of(cell));
        events.push(Event::Phase { cell, phase: Phase::Warmup });
        self.stage = Stage::Warming { cell };
        assert(event_views(events@) =~= event_views(before) + m.events);
        Action::Run { cell, runtime: self.cfg.warmup }
    }

    fn measure_on(&mut self, cell: Cell, events: &mut Vec<Event>) -> (action: Action)
        requires
            cell.task < old(self).cfg.tasks@.len(),
            old(self).samples@.len() <= old(self).cfg.runs,
        ensures
            final(self).cfg == old(self).cfg,
            final(self).wf(),
            final(self).made(
                old(events)@,
                final(events)@,
                action,
                measure_on(old(self).cfg, runner::index_of(cell), old(self).samples@),
            ),
    {
        broadcast use runner::lemma_index_of;

        let ghost before = events@;
        let ghost m = measure_on(self.cfg, runner::index_of(cell), self.samples@);
        let done: usize = self.samples.len();
        if done < self.cfg.runs as usize {
            let run: u32 = done as u32 + 1;
            let total: u32 = self.cfg.runs;
            events.push(Event::Phase { cell, phase: Phase::Measuring { run, total } });
            self.stage = Stage::Measuring { cell, run };
            assert(event_views(events@) =~= event_views(before) + m.events);
            return Action::Run { cell, runtime: self.cfg.duration };
        }
        let mut samples: Vec<RunSample> = Vec::new();
        std::mem::swap(&mut samples, &mut self.samples);
        let result = aggregate(self.cfg.tasks[cell.task], cell.op, samples);
        assert(result@ =~= score_of(self.cfg, runner::index_of(cell), old(self).samples@));
        events.push(Event::OpDone { cell, result });
        assert(event_views(events@) =~= event_views(before).push(m.events[0]));
        let count: usize = self.cfg.tasks.len();
        let next = match cell.op {
            Op::Read => Cell { task: cell.task, op: Op::Write },
            Op::Write => {
                if cell.task + 1 == count {
                    let action = self.end(Event::Finished, events);
                    assert(event_views(events@) =~= event_views(before) + m.events);
                    return action;
                }
                Cell { task: cell.task + 1, op: Op::Read }
            },
        };
        let remaining = self.cfg.interval;
        events.push(Event::Cooldown { next, remaining });
        self.stage = Stage::Polling { cell: next, remaining };
        assert(event_views(events@) =~= event_views(before) + m.events);
        Action::Poll
    }

    /// The event for a rate that a running workload reports.
    pub fn live(&self, rate: LiveRate) -> (r: Option<Event>)
        ensures
            match self.stage {
                Stage::Warming { cell } => r matches Some(e) && e@ == (EventView::Live {
                    cell,
                    rate,
                }),
                Stage::Measuring { cell, .. } => r matches Some(e) && e@ == (EventView::Live {
                    cell,
                    rate,
                }),
                _ => r is None,
            },
    {
        match self.stage {
            Stage::Warming { cell } => Some(Event::Live { cell, rate }),
            Stage::Measuring { cell, .. } => Some(Event::Live { cell, rate }),
            _ => None,
        }
    }
}

} // verus!
