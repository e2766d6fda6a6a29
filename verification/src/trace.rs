//! What holds of a benchmark as a whole, however its actions are answered.

use vstd::prelude::*;

use crate::cli::Cli;
use crate::fio::{Op, RunSample};
use crate::measure;
use crate::measure::Reading;
use crate::runner;
use crate::runner::{Cell, Config, Phase};
use crate::steps;
use crate::steps::{EventView, ReplyView, ScoreView, StageView};

verus! {

/// The benchmark after some replies: where it stands, and all it reported.
#[verifier::ext_equal]
pub struct Trace {
    pub stage: StageView,
    pub samples: Seq<RunSample>,
    pub events: Seq<EventView>,
}

/// The benchmark after `replies`.
pub open spec fn after(cfg: Config, replies: Seq<ReplyView>) -> Trace
    decreases replies.len(),
{
    if replies.len() == 0 {
        Trace { stage: StageView::Probing, samples: Seq::empty(), events: Seq::empty() }
    } else {
        let t = after(cfg, replies.drop_last());
        let m = steps::step(cfg, t.stage, t.samples, replies.last());
        Trace { stage: m.stage, samples: m.samples, events: t.events + m.events }
    }
}

/// Whether each of `replies` is one that its action can have.
pub open spec fn possible(cfg: Config, replies: Seq<ReplyView>) -> bool
    decreases replies.len(),
{
    replies.len() > 0 ==> {
        &&& possible(cfg, replies.drop_last())
        &&& steps::accepts(after(cfg, replies.drop_last()).stage, replies.last())
    }
}

// ---------------------------------------------------------------------------
// The end

/// Whether an event ends the progress stream.
pub open spec fn is_terminal(e: EventView) -> bool {
    e is Finished || e is Aborted || e is Failed
}

/// Whether the last of `events` is terminal, and the only one that is.
pub open spec fn ends_once(events: Seq<EventView>) -> bool {
    &&& events.len() > 0
    &&& is_terminal(events.last())
    &&& forall|i: int| 0 <= i < events.len() - 1 ==> !is_terminal(#[trigger] events[i])
}

/// Whether none of `events` is terminal.
pub open spec fn goes_on(events: Seq<EventView>) -> bool {
    forall|i: int| 0 <= i < events.len() ==> !is_terminal(#[trigger] events[i])
}

/// A step reports a terminal event exactly when it ends the benchmark, as the
/// last event of all.
proof fn lemma_step_ends_once(
    cfg: Config,
    stage: StageView,
    samples: Seq<RunSample>,
    reply: ReplyView,
)
    requires
        steps::accepts(stage, reply),
    ensures
        ({
            let m = steps::step(cfg, stage, samples, reply);
            if m.stage is Over {
                ends_once(m.events)
            } else {
                goes_on(m.events)
            }
        }),
{
}

/// The progress stream has exactly one terminal event, its last, once the
/// benchmark is over, and none before.
pub proof fn law_one_terminal_event(cfg: Config, replies: Seq<ReplyView>)
    requires
        possible(cfg, replies),
    ensures
        ({
            let t = after(cfg, replies);
            if t.stage is Over {
                ends_once(t.events)
            } else {
                goes_on(t.events)
            }
        }),
    decreases replies.len(),
{
    if replies.len() > 0 {
        let before = after(cfg, replies.drop_last());
        law_one_terminal_event(cfg, replies.drop_last());
        lemma_step_ends_once(cfg, before.stage, before.samples, replies.last());
        let m = steps::step(cfg, before.stage, before.samples, replies.last());
        let t = after(cfg, replies);
        assert(t.events == before.events + m.events);
        assert(t.stage is Over ==> t.events.last() == m.events.last());
        assert forall|i: int| 0 <= i < t.events.len() && (i < t.events.len() - 1 || !(
        t.stage is Over)) implies !is_terminal(#[trigger] t.events[i]) by {
            if i < before.events.len() {
                assert(t.events[i] == before.events[i]);
            } else {
                assert(t.events[i] == m.events[i - before.events.len()]);
            }
        }
    }
}

/// A session that is answered by an abort or a failure ends there: it reports
/// just that, with the message of the failure, and asks for nothing more.
pub proof fn law_a_session_ends_as_it_was_answered(cfg: Config, replies: Seq<ReplyView>)
    requires
        possible(cfg, replies),
        replies.len() > 0,
    ensures
        ({
            let t = after(cfg, replies);
            let events = after(cfg, replies.drop_last()).events;
            &&& replies.last() is Aborted ==> t.stage is Over && t.events == events.push(
                EventView::Aborted,
            )
            &&& replies.last() matches ReplyView::Failed(message) ==> t.stage is Over && t.events
                == events.push(EventView::Failed(message))
            &&& !(replies.last() is Aborted) && !(replies.last() is Failed) ==> !(
            t.events.last() is Aborted) && !(t.events.last() is Failed)
        }),
{
    let before = after(cfg, replies.drop_last());
    let m = steps::step(cfg, before.stage, before.samples, replies.last());
    let t = after(cfg, replies);
    assert(t.events =~= before.events + m.events);
    if replies.last() is Aborted || replies.last() is Failed {
        assert(t.events =~= before.events.push(m.events[0]));
    } else {
        law_work_follows_the_plan(cfg, replies.drop_last());
        if replies.len() > 1 {
            law_one_terminal_event(cfg, replies.drop_last());
        }
        if m.events.len() > 0 {
            assert(t.events.last() == m.events.last());
        } else {
            assert(t.events =~= before.events);
            assert(before.events.len() > 0 ==> !is_terminal(before.events[before.events.len() - 1]));
            lemma_some_event(cfg, replies.drop_last());
        }
    }
}

/// Past its first step, a session has reported something.
proof fn lemma_some_event(cfg: Config, replies: Seq<ReplyView>)
    requires
        possible(cfg, replies),
        !(after(cfg, replies).stage is Probing),
    ensures
        after(cfg, replies).events.len() > 0,
    decreases replies.len(),
{
    if replies.len() > 0 {
        let before = after(cfg, replies.drop_last());
        if before.stage is Probing {
            let m = steps::step(cfg, before.stage, before.samples, replies.last());
            assert(m.events.len() > 0);
        } else {
            lemma_some_event(cfg, replies.drop_last());
        }
    }
}

/// A session looks whether the target can be written to, then has the test
/// file laid out and reports that, and only then runs its first workload, that
/// of the first cell of the plan.
pub proof fn law_the_test_file_comes_first(cfg: Config, samples: Seq<RunSample>)
    requires
        samples.len() == 0,
    ensures
        ({
            let probed = steps::step(cfg, StageView::Probing, samples, ReplyView::Done);
            let prepared = steps::step(cfg, StageView::Preparing, samples, ReplyView::Done);
            &&& probed.stage is Preparing
            &&& probed.action is Prepare
            &&& probed.events == seq![EventView::Preparing]
            &&& cfg.tasks@.len() > 0 && (cfg.warmup@ > 0 || cfg.runs > 0) ==> {
                &&& prepared.action matches steps::ActionView::Run { cell, runtime }
                &&& cell == (Cell { task: 0, op: Op::Read })
                &&& runtime == if cfg.warmup@ > 0 {
                    cfg.warmup@
                } else {
                    cfg.duration@
                }
            }
            &&& cfg.tasks@.len() == 0 ==> prepared.action is Stop && prepared.events == seq![
                EventView::Finished,
            ]
        }),
{
    assert(samples =~= Seq::empty());
}

/// How far the end is: cells left, then the part of the cell's work, then what
/// is left of that part.
pub open spec fn distance(cfg: Config, stage: StageView) -> (nat, nat, nat) {
    let total = cfg.plan().len();
    match stage {
        StageView::Probing => (total + 2, 0, 0),
        StageView::Preparing => (total + 1, 0, 0),
        StageView::Polling { index, remaining } => ((total - index) as nat, 2, 2 * remaining),
        StageView::Sleeping { index, remaining } => ((total - index) as nat, 2, 2 * remaining + 1),
        StageView::Warming { index } => ((total - index) as nat, 1, 0),
        StageView::Measuring { index, run } => ((total - index) as nat, 0, (cfg.runs - run) as nat),
        StageView::Over => (0, 0, 0),
    }
}

/// Whether `a` comes before `b` in lexicographic order.
pub open spec fn is_nearer(a: (nat, nat, nat), b: (nat, nat, nat)) -> bool {
    a.0 < b.0 || (a.0 == b.0 && (a.1 < b.1 || (a.1 == b.1 && a.2 < b.2)))
}

/// Every reply brings the end nearer, so that the benchmark always comes to it.
pub proof fn law_every_reply_brings_the_end_nearer(
    cfg: Config,
    stage: StageView,
    samples: Seq<RunSample>,
    reply: ReplyView,
)
    requires
        steps::in_order(cfg, stage, samples),
        steps::accepts(stage, reply),
    ensures
        is_nearer(
            distance(cfg, steps::step(cfg, stage, samples, reply).stage),
            distance(cfg, stage),
        ),
{
}

// ---------------------------------------------------------------------------
// The order of the work

/// A run that was begun, or a cell that was completed.
pub enum Mark {
    Begun(Cell, Phase),
    Completed(Cell),
}

/// The runs begun and the cells completed among `events`, in order.
pub open spec fn marks(events: Seq<EventView>) -> Seq<Mark>
    decreases events.len(),
{
    if events.len() == 0 {
        Seq::empty()
    } else {
        let before = marks(events.drop_last());
        match events.last() {
            EventView::Phase { cell, phase } => before.push(Mark::Begun(cell, phase)),
            EventView::OpDone { cell, .. } => before.push(Mark::Completed(cell)),
            _ => before,
        }
    }
}

/// The warmup of the cell at `index`, where there is one.
pub open spec fn warmup_marks(cfg: Config, index: int) -> Seq<Mark> {
    if cfg.warmup@ > 0 {
        seq![Mark::Begun(runner::cell_at(index), Phase::Warmup)]
    } else {
        Seq::empty()
    }
}

/// The first `n` scored runs of the cell at `index`.
pub open spec fn run_marks(cfg: Config, index: int, n: nat) -> Seq<Mark> {
    Seq::new(
        n,
        |i: int|
            Mark::Begun(
                runner::cell_at(index),
                Phase::Measuring { run: (i + 1) as u32, total: cfg.runs },
            ),
    )
}

/// All the work on the cell at `index`: the warmup, N scored runs, the result.
pub open spec fn cell_marks(cfg: Config, index: int) -> Seq<Mark> {
    warmup_marks(cfg, index) + run_marks(cfg, index, cfg.runs as nat).push(
        Mark::Completed(runner::cell_at(index)),
    )
}

/// All the work on the first `n` cells of the plan, cell by cell.
pub open spec fn plan_marks(cfg: Config, n: nat) -> Seq<Mark>
    decreases n,
{
    if n == 0 {
        Seq::empty()
    } else {
        plan_marks(cfg, (n - 1) as nat) + cell_marks(cfg, n - 1)
    }
}

/// The work that is begun or done at `stage`.
pub open spec fn marks_at(cfg: Config, stage: StageView) -> Seq<Mark> {
    match stage {
        StageView::Polling { index, .. } => plan_marks(cfg, index as nat),
        StageView::Sleeping { index, .. } => plan_marks(cfg, index as nat),
        StageView::Warming { index } => plan_marks(cfg, index as nat) + warmup_marks(cfg, index),
        StageView::Measuring { index, run } => plan_marks(cfg, index as nat) + (warmup_marks(
            cfg,
            index,
        ) + run_marks(cfg, index, run as nat)),
        StageView::Over => plan_marks(cfg, cfg.plan().len()),
        _ => Seq::empty(),
    }
}

proof fn lemma_marks_add(a: Seq<EventView>, b: Seq<EventView>)
    ensures
        marks(a + b) == marks(a) + marks(b),
    decreases b.len(),
{
    if b.len() == 0 {
        assert(a + b =~= a);
        assert(marks(a) + marks(b) =~= marks(a));
    } else {
        lemma_marks_add(a, b.drop_last());
        assert((a + b).drop_last() =~= a + b.drop_last());
        assert((a + b).last() == b.last());
        assert(marks(a + b) =~= marks(a) + marks(b));
    }
}

proof fn lemma_marks_one(e: EventView)
    ensures
        marks(seq![e]) == (match e {
            EventView::Phase { cell, phase } => seq![Mark::Begun(cell, phase)],
            EventView::OpDone { cell, .. } => seq![Mark::Completed(cell)],
            _ => Seq::empty(),
        }),
{
    assert(seq![e].drop_last() =~= Seq::empty());
    assert(marks(seq![e].drop_last()) =~= Seq::empty());
    assert(Seq::<Mark>::empty().push(Mark::Completed(runner::cell_at(0))) =~= seq![
        Mark::Completed(runner::cell_at(0)),
    ]);
}

proof fn lemma_measure_on(cfg: Config, index: int, samples: Seq<RunSample>)
    requires
        0 <= index < cfg.plan().len(),
        samples.len() <= cfg.runs,
    ensures
        ({
            let m = steps::measure_on(cfg, index, samples);
            plan_marks(cfg, index as nat) + (warmup_marks(cfg, index) + run_marks(
                cfg,
                index,
                samples.len(),
            )) + marks(m.events) == marks_at(cfg, m.stage)
        }),
{
    let m = steps::measure_on(cfg, index, samples);
    let base = plan_marks(cfg, index as nat);
    let warmup = warmup_marks(cfg, index);
    let runs = run_marks(cfg, index, samples.len());
    if samples.len() < cfg.runs {
        lemma_marks_one(m.events[0]);
        assert(m.events =~= seq![m.events[0]]);
        assert(base + (warmup + runs) + marks(m.events) =~= base + (warmup + run_marks(
            cfg,
            index,
            samples.len() + 1,
        )));
    } else {
        let next = steps::go_on(cfg, index + 1);
        lemma_marks_one(m.events[0]);
        lemma_marks_one(next.events[0]);
        lemma_marks_add(seq![m.events[0]], next.events);
        assert(m.events =~= seq![m.events[0]] + next.events);
        assert(next.events =~= seq![next.events[0]]);
        let done = seq![Mark::Completed(runner::cell_at(index))];
        assert(marks(m.events) =~= done);
        assert(base + (warmup + runs) + done =~= base + cell_marks(cfg, index));
    }
}

proof fn lemma_start_cell(cfg: Config, index: int)
    requires
        0 <= index < cfg.plan().len(),
    ensures
        plan_marks(cfg, index as nat) + marks(steps::start_cell(cfg, index).events) == marks_at(
            cfg,
            steps::start_cell(cfg, index).stage,
        ),
{
    let m = steps::start_cell(cfg, index);
    let base = plan_marks(cfg, index as nat);
    if cfg.warmup@ > 0 {
        lemma_marks_one(m.events[0]);
        assert(m.events =~= seq![m.events[0]]);
    } else {
        lemma_measure_on(cfg, index, Seq::empty());
        assert(base + (warmup_marks(cfg, index) + run_marks(cfg, index, 0)) =~= base);
    }
}

/// Whether a move ends the benchmark ahead of its time.
spec fn is_cut_short(reply: ReplyView) -> bool {
    reply is Aborted || reply is Failed
}

/// A step adds to the work what the stage that it leads to has more.
proof fn lemma_step_marks(
    cfg: Config,
    stage: StageView,
    samples: Seq<RunSample>,
    reply: ReplyView,
)
    requires
        steps::in_order(cfg, stage, samples),
        steps::accepts(stage, reply),
    ensures
        ({
            let m = steps::step(cfg, stage, samples, reply);
            &&& steps::in_order(cfg, m.stage, m.samples)
            &&& marks_at(cfg, stage) + marks(m.events) == if is_cut_short(reply) {
                marks_at(cfg, stage)
            } else {
                marks_at(cfg, m.stage)
            }
        }),
{
    let m = steps::step(cfg, stage, samples, reply);
    let base = marks_at(cfg, stage);
    if m.events.len() == 1 {
        lemma_marks_one(m.events[0]);
        assert(m.events =~= seq![m.events[0]]);
    }
    assert(base + Seq::<Mark>::empty() =~= base);
    if !is_cut_short(reply) {
        match stage {
            StageView::Preparing => {
                if cfg.plan().len() > 0 {
                    lemma_start_cell(cfg, 0);
                }
            },
            StageView::Polling { index, remaining } => {
                if remaining == 0 {
                    lemma_start_cell(cfg, index);
                } else {
                    assert(marks(m.events) =~= Seq::empty());
                }
            },
            StageView::Sleeping { index, remaining } => {
                if !steps::is_reported(remaining) {
                    assert(marks(m.events) =~= Seq::empty());
                }
            },
            StageView::Warming { index } => {
                lemma_measure_on(cfg, index, Seq::empty());
                assert(warmup_marks(cfg, index) + run_marks(cfg, index, 0) =~= warmup_marks(
                    cfg,
                    index,
                ));
            },
            StageView::Measuring { index, run } => {
                let sample = reply->Ran_0;
                let more = samples.push(sample);
                let then = steps::measure_on(cfg, index, more);
                let done = EventView::RunDone { cell: runner::cell_at(index), sample };
                lemma_measure_on(cfg, index, more);
                lemma_marks_one(done);
                lemma_marks_add(seq![done], then.events);
                assert(Seq::<Mark>::empty() + marks(then.events) =~= marks(then.events));
            },
            _ => {},
        }
    }
}

/// The work of earlier cells comes first.
proof fn lemma_plan_marks_prefix(cfg: Config, n: nat, total: nat)
    requires
        n <= total,
    ensures
        plan_marks(cfg, n).is_prefix_of(plan_marks(cfg, total)),
    decreases total - n,
{
    if n < total {
        lemma_plan_marks_prefix(cfg, n, (total - 1) as nat);
    }
}

/// What is done at a stage is where the plan begins.
proof fn lemma_marks_at_prefix(cfg: Config, stage: StageView, samples: Seq<RunSample>)
    requires
        steps::in_order(cfg, stage, samples),
    ensures
        marks_at(cfg, stage).is_prefix_of(plan_marks(cfg, cfg.plan().len())),
{
    let total = cfg.plan().len();
    match stage {
        StageView::Polling { index, .. } => {
            lemma_plan_marks_prefix(cfg, index as nat, total);
        },
        StageView::Sleeping { index, .. } => {
            lemma_plan_marks_prefix(cfg, index as nat, total);
        },
        StageView::Warming { index } => {
            lemma_plan_marks_prefix(cfg, (index + 1) as nat, total);
            assert(marks_at(cfg, stage).is_prefix_of(plan_marks(cfg, (index + 1) as nat)));
        },
        StageView::Measuring { index, run } => {
            lemma_plan_marks_prefix(cfg, (index + 1) as nat, total);
            let whole = plan_marks(cfg, (index + 1) as nat);
            let part = marks_at(cfg, stage);
            let base = plan_marks(cfg, index as nat);
            let warmup = warmup_marks(cfg, index);
            assert(whole == base + cell_marks(cfg, index));
            assert(part =~= whole.take(part.len() as int));
        },
        _ => {},
    }
}

/// Tasks run in order, read then write; each operation has one unscored warmup
/// unless it is disabled, then its N scored runs. What was begun and completed
/// is where that plan begins, however the session ends, and is all of it when
/// the session finishes.
pub proof fn law_work_follows_the_plan(cfg: Config, replies: Seq<ReplyView>)
    requires
        possible(cfg, replies),
    ensures
        ({
            let t = after(cfg, replies);
            let plan = plan_marks(cfg, cfg.plan().len());
            &&& steps::in_order(cfg, t.stage, t.samples)
            &&& !(t.stage is Over) ==> marks(t.events) == marks_at(cfg, t.stage)
            &&& marks(t.events).is_prefix_of(plan)
            &&& t.events.len() > 0 && t.events.last() is Finished ==> marks(t.events) == plan
        }),
    decreases replies.len(),
{
    let t = after(cfg, replies);
    if replies.len() > 0 {
        let before = after(cfg, replies.drop_last());
        let reply = replies.last();
        let m = steps::step(cfg, before.stage, before.samples, reply);
        law_work_follows_the_plan(cfg, replies.drop_last());
        lemma_step_marks(cfg, before.stage, before.samples, reply);
        lemma_marks_add(before.events, m.events);
        lemma_marks_at_prefix(cfg, before.stage, before.samples);
        lemma_marks_at_prefix(cfg, m.stage, m.samples);
        law_one_terminal_event(cfg, replies);
        if is_cut_short(reply) {
            assert(m.events.len() == 1);
            assert(t.events.last() == m.events[0]);
        }
    }
}

/// A cell that is marked as completed was reported so.
pub proof fn lemma_completed_mark(events: Seq<EventView>, cell: Cell) -> (i: int)
    requires
        marks(events).contains(Mark::Completed(cell)),
    ensures
        0 <= i < events.len(),
        events[i] matches EventView::OpDone { cell: c, .. } && c == cell,
    decreases events.len(),
{
    let all = marks(events);
    let k = choose|k: int| 0 <= k < all.len() && all[k] == Mark::Completed(cell);
    let before = marks(events.drop_last());
    if k < before.len() {
        assert(before[k] == Mark::Completed(cell));
        lemma_completed_mark(events.drop_last(), cell)
    } else {
        events.len() - 1
    }
}

/// The plan has every cell completed.
pub proof fn lemma_plan_completes(cfg: Config, n: nat, i: int)
    requires
        0 <= i < n,
    ensures
        plan_marks(cfg, n).contains(Mark::Completed(runner::cell_at(i))),
    decreases n,
{
    let mark = Mark::Completed(runner::cell_at(i));
    let all = plan_marks(cfg, n);
    let before = plan_marks(cfg, (n - 1) as nat);
    if i < n - 1 {
        lemma_plan_completes(cfg, (n - 1) as nat, i);
        let k = choose|k: int| 0 <= k < before.len() && before[k] == mark;
        assert(all[k] == mark);
    } else {
        let own = cell_marks(cfg, i);
        assert(own.last() == mark);
        assert(all.last() == mark);
        assert(all[all.len() - 1] == mark);
    }
}

/// Every result is the score of exactly N runs, of the task and in the
/// direction of its cell.
pub open spec fn is_fair(cfg: Config, e: EventView) -> bool {
    e matches EventView::OpDone { cell, result } ==> {
        &&& result.runs.len() == cfg.runs
        &&& cell.task < cfg.tasks@.len()
        &&& result == steps::score_of(cfg, runner::index_of(cell), result.runs)
        &&& result.spec == cfg.tasks@[cell.task as int]
        &&& result.op == cell.op
    }
}

/// Every result that is reported is the score of exactly N runs of its cell.
pub proof fn law_results_are_of_all_runs(cfg: Config, replies: Seq<ReplyView>)
    requires
        possible(cfg, replies),
    ensures
        forall|i: int|
            0 <= i < after(cfg, replies).events.len() ==> is_fair(
                cfg,
                #[trigger] after(cfg, replies).events[i],
            ),
    decreases replies.len(),
{
    if replies.len() > 0 {
        let before = after(cfg, replies.drop_last());
        let m = steps::step(cfg, before.stage, before.samples, replies.last());
        let t = after(cfg, replies);
        law_results_are_of_all_runs(cfg, replies.drop_last());
        law_work_follows_the_plan(cfg, replies.drop_last());
        lemma_step_is_fair(cfg, before.stage, before.samples, replies.last());
        assert forall|i: int| 0 <= i < t.events.len() implies is_fair(
            cfg,
            #[trigger] t.events[i],
        ) by {
            if i < before.events.len() {
                assert(t.events[i] == before.events[i]);
            } else {
                assert(t.events[i] == m.events[i - before.events.len()]);
            }
        }
    }
}

proof fn lemma_step_is_fair(
    cfg: Config,
    stage: StageView,
    samples: Seq<RunSample>,
    reply: ReplyView,
)
    requires
        steps::in_order(cfg, stage, samples),
        steps::accepts(stage, reply),
    ensures
        forall|i: int|
            0 <= i < steps::step(cfg, stage, samples, reply).events.len() ==> is_fair(
                cfg,
                #[trigger] steps::step(cfg, stage, samples, reply).events[i],
            ),
{
    let m = steps::step(cfg, stage, samples, reply);
    assert(cfg.tasks@.len() == cfg.tasks.len());
    assert forall|i: int| 0 <= i < m.events.len() implies is_fair(cfg, #[trigger] m.events[i]) by {
        if let EventView::OpDone { cell, result } = m.events[i] {
            let index = match stage {
                StageView::Polling { index, .. } => index,
                StageView::Warming { index } => index,
                StageView::Measuring { index, .. } => index,
                _ => 0,
            };
            assert(cell == runner::cell_at(index));
            assert(index / 2 < cfg.tasks@.len());
            assert(runner::index_of(cell) == index);
        }
    }
}

// ---------------------------------------------------------------------------
// Scores

/// The runs of `cell` that `events` report, in order.
pub open spec fn runs_of(events: Seq<EventView>, cell: Cell) -> Seq<RunSample>
    decreases events.len(),
{
    if events.len() == 0 {
        Seq::empty()
    } else {
        let before = runs_of(events.drop_last(), cell);
        match events.last() {
            EventView::RunDone { cell: c, sample } => if c == cell {
                before.push(sample)
            } else {
                before
            },
            _ => before,
        }
    }
}

/// Whether `score` is the greatest bandwidth and the greatest operation rate
/// of its runs and the least of their mean latencies, each of them that of one
/// of the runs. What is no number does not count; where no run has a greater
/// one, a rate is zero, and where none has a latency, it is infinite.
pub open spec fn is_best(score: ScoreView) -> bool {
    &&& forall|i: int|
        0 <= i < score.runs.len() ==> {
            let run = #[trigger] score.runs[i];
            &&& run.bytes_per_sec.is_number() ==> run.bytes_per_sec.place
                <= score.bytes_per_sec.place
            &&& run.iops.is_number() ==> run.iops.place <= score.iops.place
            &&& run.lat_mean_us.is_number() ==> run.lat_mean_us.place >= score.lat_us.place
        }
    &&& score.bytes_per_sec == Reading::zero() || exists|i: int|
        0 <= i < score.runs.len() && (#[trigger] score.runs[i]).bytes_per_sec
            == score.bytes_per_sec && score.bytes_per_sec.is_number()
    &&& score.iops == Reading::zero() || exists|i: int|
        0 <= i < score.runs.len() && (#[trigger] score.runs[i]).iops == score.iops
            && score.iops.is_number()
    &&& score.lat_us == Reading::infinity() || exists|i: int|
        0 <= i < score.runs.len() && (#[trigger] score.runs[i]).lat_mean_us == score.lat_us
            && score.lat_us.is_number()
    &&& score.bytes_per_sec.place >= 0 && score.iops.place >= 0
    &&& score.lat_us.place <= measure::INFINITY_PLACE
}

/// Whether `events[i]`, if it is a result, is that of the task and in the
/// direction of its cell, over the N runs of it that were reported before, and
/// is the best of them.
pub open spec fn is_scored(cfg: Config, events: Seq<EventView>, i: int) -> bool {
    events[i] matches EventView::OpDone { cell, result } ==> {
        &&& result.spec == cfg.tasks@[cell.task as int]
        &&& result.op == cell.op
        &&& result.runs == runs_of(events.take(i), cell)
        &&& result.runs.len() == cfg.runs
        &&& is_best(result)
    }
}

proof fn lemma_runs_add(a: Seq<EventView>, b: Seq<EventView>, cell: Cell)
    ensures
        runs_of(a + b, cell) == runs_of(a, cell) + runs_of(b, cell),
    decreases b.len(),
{
    if b.len() == 0 {
        assert(a + b =~= a);
        assert(runs_of(a, cell) + runs_of(b, cell) =~= runs_of(a, cell));
    } else {
        lemma_runs_add(a, b.drop_last(), cell);
        assert((a + b).drop_last() =~= a + b.drop_last());
        assert((a + b).last() == b.last());
        assert(runs_of(a + b, cell) =~= runs_of(a, cell) + runs_of(b, cell));
    }
}

/// Events without a run have none.
proof fn lemma_no_runs(events: Seq<EventView>, cell: Cell)
    requires
        forall|i: int| 0 <= i < events.len() ==> !(#[trigger] events[i] is RunDone),
    ensures
        runs_of(events, cell) == Seq::<RunSample>::empty(),
    decreases events.len(),
{
    if events.len() > 0 {
        assert(!(events[events.len() - 1] is RunDone));
        assert forall|i: int| 0 <= i < events.drop_last().len() implies !(
        #[trigger] events.drop_last()[i] is RunDone) by {
            assert(events.drop_last()[i] == events[i]);
        }
        lemma_no_runs(events.drop_last(), cell);
    }
}

/// A score of runs is the best of them.
proof fn lemma_scores_are_best(cfg: Config, index: int, runs: Seq<RunSample>)
    ensures
        is_best(steps::score_of(cfg, index, runs)),
{
    let score = steps::score_of(cfg, index, runs);
    let (b, o, l) = (runner::bandwidths(runs), runner::op_rates(runs), runner::latencies(runs));
    measure::law_highest_is_greatest(b);
    measure::law_highest_is_greatest(o);
    measure::law_lowest_is_least(l);
    assert forall|i: int| 0 <= i < score.runs.len() implies {
        let run = #[trigger] score.runs[i];
        &&& run.bytes_per_sec.is_number() ==> run.bytes_per_sec.place <= score.bytes_per_sec.place
        &&& run.iops.is_number() ==> run.iops.place <= score.iops.place
        &&& run.lat_mean_us.is_number() ==> run.lat_mean_us.place >= score.lat_us.place
    } by {
        assert(b[i] == runs[i].bytes_per_sec);
        assert(o[i] == runs[i].iops);
        assert(l[i] == runs[i].lat_mean_us);
    }
    if b.contains(score.bytes_per_sec) {
        let i = choose|i: int| 0 <= i < b.len() && b[i] == score.bytes_per_sec;
        assert(score.runs[i].bytes_per_sec == score.bytes_per_sec);
    }
    if o.contains(score.iops) {
        let i = choose|i: int| 0 <= i < o.len() && o[i] == score.iops;
        assert(score.runs[i].iops == score.iops);
    }
    if l.contains(score.lat_us) {
        let i = choose|i: int| 0 <= i < l.len() && l[i] == score.lat_us;
        assert(score.runs[i].lat_mean_us == score.lat_us);
    }
}

/// The cell that is being worked on, or is next, at `stage`.
spec fn current(stage: StageView) -> int {
    match stage {
        StageView::Polling { index, .. } => index,
        StageView::Sleeping { index, .. } => index,
        StageView::Warming { index } => index,
        StageView::Measuring { index, .. } => index,
        _ => 0,
    }
}

/// Whether the runs that are kept are those that were reported for the current
/// cell, and none was reported of a later one.
spec fn keeps_runs(cfg: Config, t: Trace) -> bool {
    !(t.stage is Over) ==> forall|k: int|
        current(t.stage) <= k < cfg.plan().len() ==> #[trigger] runs_of(
            t.events,
            runner::cell_at(k),
        ) == if k == current(t.stage) {
            t.samples
        } else {
            Seq::empty()
        }
}

/// Which runs a step reports: the one that was replied while a scored run was
/// on, and no other.
pub proof fn law_a_scored_run_is_reported(
    cfg: Config,
    stage: StageView,
    samples: Seq<RunSample>,
    reply: ReplyView,
)
    requires
        steps::accepts(stage, reply),
    ensures
        ({
            let events = steps::step(cfg, stage, samples, reply).events;
            match (stage, reply) {
                (StageView::Measuring { index, .. }, ReplyView::Ran(sample)) => {
                    &&& events.len() > 0
                    &&& events[0] == (EventView::RunDone { cell: runner::cell_at(index), sample })
                    &&& forall|i: int| 0 < i < events.len() ==> !(#[trigger] events[i] is RunDone)
                },
                _ => forall|i: int| 0 <= i < events.len() ==> !(#[trigger] events[i] is RunDone),
            }
        }),
{
}

proof fn lemma_step_keeps_runs(cfg: Config, t: Trace, reply: ReplyView)
    requires
        steps::in_order(cfg, t.stage, t.samples),
        steps::accepts(t.stage, reply),
        keeps_runs(cfg, t),
    ensures
        ({
            let m = steps::step(cfg, t.stage, t.samples, reply);
            keeps_runs(
                cfg,
                Trace { stage: m.stage, samples: m.samples, events: t.events + m.events },
            )
        }),
{
    let m = steps::step(cfg, t.stage, t.samples, reply);
    let all = t.events + m.events;
    law_a_scored_run_is_reported(cfg, t.stage, t.samples, reply);
    if !(m.stage is Over) {
        let was = current(t.stage);
        let now = current(m.stage);
        assert(was <= now);
        assert forall|k: int| now <= k < cfg.plan().len() implies #[trigger] runs_of(
            all,
            runner::cell_at(k),
        ) == if k == now {
            m.samples
        } else {
            Seq::empty()
        } by {
            let cell = runner::cell_at(k);
            lemma_runs_add(t.events, m.events, cell);
            assert(runs_of(t.events, cell) == if k == was {
                t.samples
            } else {
                Seq::empty()
            });
            match (t.stage, reply) {
                (StageView::Measuring { index, .. }, ReplyView::Ran(sample)) => {
                    let rest = m.events.skip(1);
                    assert(m.events =~= seq![m.events[0]] + rest);
                    assert forall|i: int| 0 <= i < rest.len() implies !(#[trigger] rest[i] is RunDone) by {
                        assert(rest[i] == m.events[i + 1]);
                    }
                    lemma_no_runs(rest, cell);
                    lemma_runs_add(seq![m.events[0]], rest, cell);
                    let one = seq![m.events[0]];
                    assert(one.drop_last() =~= Seq::empty());
                    assert(runs_of(one.drop_last(), cell) =~= Seq::empty());
                    if k == index {
                        assert(runs_of(m.events, cell) =~= seq![sample]);
                        assert(t.samples + seq![sample] =~= t.samples.push(sample));
                    } else {
                        if cell == runner::cell_at(index) {
                            assert(cfg.plan()[k] == cfg.plan()[index]);
                            runner::law_plan_has_each_cell_once(cfg, k, index);
                        }
                        assert(runs_of(m.events, cell) =~= Seq::empty());
                    }
                    assert(runs_of(all, cell) =~= if k == now {
                        m.samples
                    } else {
                        Seq::empty()
                    });
                },
                _ => {
                    lemma_no_runs(m.events, cell);
                    assert(runs_of(all, cell) =~= runs_of(t.events, cell));
                    assert(m.samples =~= t.samples || m.samples =~= Seq::empty());
                },
            }
        }
    }
}

/// Every result that is reported is the best of the N runs of its cell that
/// were reported before it: the greatest bandwidth and operation rate among
/// them and the least mean latency.
pub proof fn law_results_are_the_best_of_their_runs(cfg: Config, replies: Seq<ReplyView>)
    requires
        possible(cfg, replies),
    ensures
        forall|i: int|
            0 <= i < after(cfg, replies).events.len() ==> #[trigger] is_scored(
                cfg,
                after(cfg, replies).events,
                i,
            ),
{
    lemma_scored(cfg, replies);
}

proof fn lemma_scored(cfg: Config, replies: Seq<ReplyView>)
    requires
        possible(cfg, replies),
    ensures
        keeps_runs(cfg, after(cfg, replies)),
        forall|i: int|
            0 <= i < after(cfg, replies).events.len() ==> #[trigger] is_scored(
                cfg,
                after(cfg, replies).events,
                i,
            ),
    decreases replies.len(),
{
    let t = after(cfg, replies);
    if replies.len() > 0 {
        let before = after(cfg, replies.drop_last());
        let reply = replies.last();
        let m = steps::step(cfg, before.stage, before.samples, reply);
        let n = before.events.len() as int;
        lemma_scored(cfg, replies.drop_last());
        law_work_follows_the_plan(cfg, replies.drop_last());
        lemma_step_keeps_runs(cfg, before, reply);
        law_a_scored_run_is_reported(cfg, before.stage, before.samples, reply);
        lemma_step_is_fair(cfg, before.stage, before.samples, reply);
        assert(cfg.tasks@.len() == cfg.tasks.len());
        assert forall|i: int| 0 <= i < t.events.len() implies #[trigger] is_scored(
            cfg,
            t.events,
            i,
        ) by {
            if i < n {
                assert(is_scored(cfg, before.events, i));
                assert(t.events[i] == before.events[i]);
                assert(t.events.take(i) =~= before.events.take(i));
            } else if let EventView::OpDone { cell, result } = t.events[i] {
                let j = i - n;
                let index = current(before.stage);
                assert(t.events[i] == m.events[j]);
                assert(is_fair(cfg, m.events[j]));
                assert(t.events.take(i) =~= before.events + m.events.take(j));
                assert(cell == runner::cell_at(index));
                assert(0 <= index < cfg.plan().len());
                lemma_runs_add(before.events, m.events.take(j), cell);
                assert(runs_of(before.events, runner::cell_at(index)) == before.samples);
                match (before.stage, reply) {
                    (StageView::Measuring { .. }, ReplyView::Ran(sample)) => {
                        let one = m.events.take(j);
                        assert(j == 1);
                        assert(one =~= seq![m.events[0]]);
                        assert(one.drop_last() =~= Seq::empty());
                        assert(runs_of(one.drop_last(), cell) =~= Seq::empty());
                        assert(runs_of(one, cell) =~= seq![sample]);
                        assert(before.samples + seq![sample] =~= before.samples.push(sample));
                    },
                    _ => {
                        assert(j == 0);
                        assert(m.events.take(j) =~= Seq::empty());
                        assert(runs_of(m.events.take(j), cell) =~= Seq::empty());
                        assert(before.samples + Seq::<RunSample>::empty() =~= before.samples);
                    },
                }
                lemma_scores_are_best(cfg, runner::index_of(cell), result.runs);
            }
        }
    } else {
        assert forall|k: int| 0 <= k < cfg.plan().len() implies #[trigger] runs_of(
            t.events,
            runner::cell_at(k),
        ) == Seq::<RunSample>::empty() by {}
    }
}

// ---------------------------------------------------------------------------
// Pauses

/// The stretches in which a pause with `remaining` to go is slept through.
pub open spec fn stretches(remaining: nat) -> Seq<nat>
    decreases remaining,
{
    if remaining == 0 {
        Seq::empty()
    } else {
        seq![steps::stretch(remaining)] + stretches(
            (remaining - steps::stretch(remaining)) as nat,
        )
    }
}

/// The sum of a list of durations.
pub open spec fn sum(s: Seq<nat>) -> nat
    decreases s.len(),
{
    if s.len() == 0 {
        0
    } else {
        s[0] + sum(s.skip(1))
    }
}

/// A pause takes its whole interval, and no stretch of it goes without a look
/// at the abort flag for more than a tenth of a second: each takes just that,
/// but for the last, which takes what is left.
pub proof fn law_a_pause_lasts_its_interval(remaining: nat)
    ensures
        sum(stretches(remaining)) == remaining,
        forall|i: int|
            0 <= i < stretches(remaining).len() ==> 0 < #[trigger] stretches(remaining)[i]
                <= 100_000_000,
        forall|i: int|
            0 <= i < stretches(remaining).len() - 1 ==> #[trigger] stretches(remaining)[i]
                == 100_000_000,
    decreases remaining,
{
    if remaining > 0 {
        let rest = stretches((remaining - steps::stretch(remaining)) as nat);
        law_a_pause_lasts_its_interval((remaining - steps::stretch(remaining)) as nat);
        assert(stretches(remaining).skip(1) =~= rest);
        assert forall|i: int| 0 <= i < stretches(remaining).len() implies 0
            < #[trigger] stretches(remaining)[i] <= 100_000_000 by {
            if i > 0 {
                assert(stretches(remaining)[i] == rest[i - 1]);
            }
        }
        assert forall|i: int| 0 <= i < stretches(remaining).len() - 1 implies #[trigger] stretches(
            remaining,
        )[i] == 100_000_000 by {
            if i > 0 {
                assert(stretches(remaining)[i] == rest[i - 1]);
            } else {
                assert(rest.len() > 0);
            }
        }
    }
}

/// Each run lasts as long as the settings say, a scored run for their duration
/// and a warmup for theirs. A duration from the command line is a millisecond
/// or more, so that fio times every scored run.
pub proof fn law_runs_last_as_long_as_set(
    cli: Cli,
    cfg: Config,
    stage: StageView,
    samples: Seq<RunSample>,
    reply: ReplyView,
)
    requires
        cli.wf(),
        cfg.duration == cli.duration,
        steps::accepts(stage, reply),
    ensures
        ({
            let m = steps::step(cfg, stage, samples, reply);
            match m.stage {
                StageView::Measuring { index, .. } => {
                    &&& m.action == (steps::ActionView::Run {
                        cell: runner::cell_at(index),
                        runtime: cli.duration@,
                    })
                    &&& cli.duration@ / 1_000_000 > 0
                },
                StageView::Warming { index } => {
                    &&& m.action == (steps::ActionView::Run {
                        cell: runner::cell_at(index),
                        runtime: cfg.warmup@,
                    })
                    &&& cfg.warmup@ > 0
                },
                _ => !(m.action is Run),
            }
        }),
{
}

/// While nobody aborts, a pause is slept through in those stretches, and then
/// the cell starts.
pub proof fn law_a_pause_is_slept_through(cfg: Config, index: int, remaining: nat)
    ensures
        ({
            let m = steps::step(
                cfg,
                StageView::Polling { index, remaining },
                Seq::empty(),
                ReplyView::Done,
            );
            if remaining == 0 {
                m == steps::start_cell(cfg, index)
            } else {
                let rest = (remaining - stretches(remaining)[0]) as nat;
                &&& m.action == steps::ActionView::Sleep(stretches(remaining)[0])
                &&& m.stage == (StageView::Sleeping { index, remaining: rest })
                &&& steps::step(cfg, m.stage, m.samples, ReplyView::Done).stage
                    == (StageView::Polling { index, remaining: rest })
                &&& stretches(remaining).skip(1) == stretches(rest)
            }
        }),
{
    if remaining > 0 {
        let rest = stretches((remaining - steps::stretch(remaining)) as nat);
        assert(stretches(remaining).skip(1) =~= rest);
    }
}

/// A pause begins with the whole interval to go, and says so.
pub proof fn law_a_pause_begins_with_the_interval(
    cfg: Config,
    stage: StageView,
    samples: Seq<RunSample>,
    reply: ReplyView,
)
    requires
        steps::accepts(stage, reply),
        !(stage is Sleeping),
    ensures
        ({
            let m = steps::step(cfg, stage, samples, reply);
            m.stage matches StageView::Polling { index, remaining } ==> {
                &&& remaining == cfg.interval@
                &&& m.action is Poll
                &&& m.events.last() == (EventView::Cooldown {
                    next: runner::cell_at(index),
                    remaining: cfg.interval@,
                })
            }
        }),
{
}

/// Every operation but the last is followed by a pause of the whole interval
/// ahead of the next one in the plan, the last one by the end; an operation
/// begins only once its pause is over.
pub proof fn law_a_pause_follows_each_result(
    cfg: Config,
    stage: StageView,
    samples: Seq<RunSample>,
    reply: ReplyView,
    i: int,
)
    requires
        steps::in_order(cfg, stage, samples),
        steps::accepts(stage, reply),
        0 <= i < steps::step(cfg, stage, samples, reply).events.len(),
    ensures
        ({
            let m = steps::step(cfg, stage, samples, reply);
            &&& m.events[i] matches EventView::OpDone { cell, .. } ==> {
                let next = runner::index_of(cell) + 1;
                &&& i + 1 < m.events.len()
                &&& next < cfg.plan().len() ==> m.events[i + 1] == (EventView::Cooldown {
                    next: cfg.plan()[next],
                    remaining: cfg.interval@,
                }) && m.stage == (StageView::Polling { index: next, remaining: cfg.interval@ })
                &&& next == cfg.plan().len() ==> m.events[i + 1] is Finished && m.stage is Over
            }
            &&& m.events[i] is Phase ==> stage is Preparing || stage is Warming
                || stage is Measuring || (stage matches StageView::Polling { remaining, .. }
                && remaining == 0)
        }),
{
    assert(cfg.tasks@.len() == cfg.tasks.len());
}

/// After each stretch of a pause it is seen whether to go on. If the countdown
/// is reported, then with the time that is left.
pub proof fn law_a_pause_can_be_aborted(cfg: Config, index: int, remaining: nat)
    ensures
        ({
            let m = steps::step(
                cfg,
                StageView::Sleeping { index, remaining },
                Seq::empty(),
                ReplyView::Done,
            );
            &&& m.action is Poll
            &&& m.stage == (StageView::Polling { index, remaining })
            &&& m.events.len() <= 1
            &&& m.events.len() == 1 ==> m.events[0] == (EventView::Cooldown {
                next: runner::cell_at(index),
                remaining,
            })
            &&& steps::step(cfg, m.stage, m.samples, ReplyView::Aborted).action is Stop
        }),
{
}

/// What is left of a pause after `k` tenths of a second.
pub open spec fn left_after(remaining: nat, k: int) -> nat {
    (remaining - k * 100_000_000) as nat
}

/// Whether of five looks at a countdown, a tenth of a second apart, the `i`th
/// is the one that is reported.
pub open spec fn is_only_report(remaining: nat, i: int) -> bool {
    &&& 0 <= i < 5
    &&& forall|k: int|
        0 <= k < 5 ==> steps::is_reported(#[trigger] left_after(remaining, k)) == (k == i)
}

/// The countdown is reported twice a second: of any five looks at it, a tenth
/// of a second apart, exactly one is reported.
pub proof fn law_the_countdown_is_reported_twice_a_second(remaining: nat)
    requires
        remaining >= 400_000_000,
    ensures
        exists|i: int| #[trigger] is_only_report(remaining, i),
{
    let ms = remaining as int / 1_000_000;
    let i = (ms % 500) / 100;
    assert forall|k: int| 0 <= k < 5 implies steps::is_reported(
        #[trigger] left_after(remaining, k),
    ) == (k == i) by {
        lemma_half_second(remaining - k * 100_000_000);
        lemma_shift(ms, k);
        assert((remaining - k * 100_000_000) / 1_000_000 == ms - 100 * k);
    }
    assert(is_only_report(remaining, i));
}

proof fn lemma_half_second(r: int)
    requires
        r >= 0,
    ensures
        (r % 1_000_000_000) / 1_000_000 % 500 == (r / 1_000_000) % 500,
{
    let a = r / 1_000_000_000;
    let b = r % 1_000_000_000;
    assert(r == 1_000_000_000 * a + b);
    assert(r / 1_000_000 == 1000 * a + b / 1_000_000);
    assert((1000 * a + b / 1_000_000) % 500 == (b / 1_000_000) % 500);
}

proof fn lemma_shift(ms: int, k: int)
    requires
        ms >= 400,
        0 <= k < 5,
    ensures
        (ms - 100 * k) % 500 < 100 <==> k == (ms % 500) / 100,
{
    let q = ms / 500;
    let r = ms % 500;
    assert(ms == 500 * q + r);
    let d = r - 100 * k;
    if d >= 0 {
        assert((500 * q + d) % 500 == d);
    } else {
        assert((500 * (q - 1) + (d + 500)) % 500 == d + 500);
    }
}

/// Whether `events[i]`, if it is about a pause, comes after the result of the
/// cell ahead of the one that the pause is for.
pub open spec fn is_between(events: Seq<EventView>, i: int) -> bool {
    events[i] matches EventView::Cooldown { next, .. } ==> exists|j: int|
        0 <= j < i && #[trigger] is_result_of(events[j], runner::index_of(next) - 1)
}

/// Whether an event is the result of the cell at `index`.
pub open spec fn is_result_of(e: EventView, index: int) -> bool {
    e matches EventView::OpDone { cell, .. } && runner::index_of(cell) == index
}

/// Pauses lie between operations: there is none before the first, and each
/// comes after the result of the operation ahead of it.
pub proof fn law_pauses_lie_between_operations(cfg: Config, replies: Seq<ReplyView>)
    requires
        possible(cfg, replies),
    ensures
        forall|i: int|
            0 <= i < after(cfg, replies).events.len() ==> #[trigger] is_between(
                after(cfg, replies).events,
                i,
            ),
    decreases replies.len(),
{
    if replies.len() > 0 {
        let before = after(cfg, replies.drop_last());
        let m = steps::step(cfg, before.stage, before.samples, replies.last());
        let t = after(cfg, replies);
        let n = before.events.len() as int;
        law_pauses_lie_between_operations(cfg, replies.drop_last());
        law_work_follows_the_plan(cfg, replies.drop_last());
        assert(cfg.tasks@.len() == cfg.tasks.len());
        assert forall|i: int| 0 <= i < t.events.len() implies #[trigger] is_between(
            t.events,
            i,
        ) by {
            if i < n {
                assert(is_between(before.events, i));
                assert(t.events[i] == before.events[i]);
                if let EventView::Cooldown { next, .. } = t.events[i] {
                    let j = choose|j: int|
                        0 <= j < i && #[trigger] is_result_of(
                            before.events[j],
                            runner::index_of(next) - 1,
                        );
                    assert(t.events[j] == before.events[j]);
                }
            } else if let EventView::Cooldown { next, .. } = t.events[i] {
                assert(t.events[i] == m.events[i - n]);
                match before.stage {
                    StageView::Sleeping { index, .. } => {
                        lemma_plan_completes(cfg, index as nat, index - 1);
                        let j = lemma_completed_mark(before.events, runner::cell_at(index - 1));
                        assert(t.events[j] == before.events[j]);
                        assert(is_result_of(t.events[j], runner::index_of(next) - 1));
                    },
                    _ => {
                        assert(t.events[i - 1] == m.events[i - n - 1]);
                        assert(is_result_of(t.events[i - 1], runner::index_of(next) - 1));
                    },
                }
            }
        }
    }
}

} // verus!
