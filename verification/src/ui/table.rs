//! The results panel: a CDM grid, one row per task: label | Read cell | Write
//! cell, with rule lines separating the columns.

use vstd::prelude::*;

use crate::cli::Unit;
use crate::fio::Op;
use crate::measure;
use crate::measure::Reading;
use crate::runner;
use crate::runner::{Cell, Config};
use crate::text::chars_of;
use crate::ui::app;
use crate::ui::app::{Activity, ActivityView, App, AppState};
use crate::ui::layout;
use crate::ui::layout::{put, Area, Draw, DrawView};
use crate::ui::palette::Tone;
use crate::ui::shape;
use crate::ui::shape::pad_left;

verus! {

/// The numbers of a cell, as they are shown: its value in the current unit,
/// and the latency of its result with its unit. Either is disregarded where
/// the cell has none.
#[derive(Debug)]
pub struct CellText {
    pub value: String,
    pub latency: String,
}

// ---------------------------------------------------------------------------
// Columns

/// Width of the column of labels.
pub const LABEL_WIDTH: u16 = 16;

/// Where the column of labels ends.
pub open spec fn first_rule(bounds: Area) -> int {
    bounds.x + LABEL_WIDTH
}

/// Width of the read and of the write column.
pub open spec fn column_width(bounds: Area) -> int {
    layout::less(bounds.width as int, LABEL_WIDTH + 2) / 2
}

/// Where the read column begins.
pub open spec fn read_column(bounds: Area) -> int {
    first_rule(bounds) + 1
}

/// Where the read column ends.
pub open spec fn second_rule(bounds: Area) -> int {
    read_column(bounds) + column_width(bounds)
}

/// Where the write column begins.
pub open spec fn write_column(bounds: Area) -> int {
    second_rule(bounds) + 1
}

/// Where the column of a direction begins.
pub open spec fn column_at(bounds: Area, op: Op) -> int {
    match op {
        Op::Read => read_column(bounds),
        Op::Write => write_column(bounds),
    }
}

// ---------------------------------------------------------------------------
// The grid

/// A text centered within a column starting at `x`.
pub open spec fn centered(bounds: Area, x: int, s: Seq<char>) -> Seq<DrawView> {
    layout::put_at(
        bounds,
        x + layout::less(column_width(bounds), s.len() as int) / 2,
        bounds.y as int,
        s,
        layout::bold(Tone::Title),
    )
}

/// The headings of the two columns.
pub open spec fn headings(bounds: Area, unit: Unit) -> Seq<DrawView> {
    centered(bounds, read_column(bounds), "Read ("@ + unit.heading_text() + ")"@) + centered(
        bounds,
        write_column(bounds),
        "Write ("@ + unit.heading_text() + ")"@,
    )
}

/// The column separators over the first `n` rows of the panel.
pub open spec fn separators(bounds: Area, n: nat) -> Seq<DrawView>
    decreases n,
{
    if n == 0 {
        Seq::empty()
    } else {
        let y = bounds.y + n - 1;
        separators(bounds, (n - 1) as nat) + layout::put_at(
            bounds,
            first_rule(bounds),
            y,
            "│"@,
            layout::plain(Tone::Border),
        ) + layout::put_at(
            bounds,
            second_rule(bounds),
            y,
            "│"@,
            layout::plain(Tone::Border),
        )
    }
}

/// What a horizontal rule shows at column `x`: a junction at the separators.
pub open spec fn rule_symbol(bounds: Area, x: int) -> Seq<char> {
    if x == first_rule(bounds) || x == second_rule(bounds) {
        "┼"@
    } else {
        "─"@
    }
}

/// The first `n` columns of a horizontal rule at row `y`.
pub open spec fn rule(bounds: Area, y: int, n: nat) -> Seq<DrawView>
    decreases n,
{
    if n == 0 {
        Seq::empty()
    } else {
        let x = bounds.x + n - 1;
        rule(bounds, y, (n - 1) as nat) + layout::put_at(
            bounds,
            x,
            y,
            rule_symbol(bounds, x),
            layout::plain(Tone::Border),
        )
    }
}

/// The horizontal rules above the first `n` tasks, as far as there is room.
pub open spec fn rules(bounds: Area, n: nat) -> Seq<DrawView>
    decreases n,
{
    if n == 0 {
        Seq::empty()
    } else {
        let y = bounds.y + 1 + 2 * (n - 1);
        let before = rules(bounds, (n - 1) as nat);
        if y < bounds.bottom_at() {
            before + rule(bounds, y, (bounds.right_at() - bounds.x) as nat)
        } else {
            before
        }
    }
}

// ---------------------------------------------------------------------------
// Cells

/// Whether `cell` is being run.
pub open spec fn is_active(s: AppState, cell: Cell) -> bool {
    s.outcome is None && s.activity == (ActivityView::Running { cell })
}

/// Whether a cell of task `task` is being run.
pub open spec fn is_active_task(s: AppState, task: int) -> bool {
    s.outcome is None && (s.activity matches ActivityView::Running { cell } && cell.task == task)
}

/// Where the number of a cell begins that starts at `x`: fixed-width,
/// right-aligned numbers keep the latency column tidy.
pub open spec fn number_at(bounds: Area, x: int) -> int {
    let right = if x + column_width(bounds) <= u16::MAX {
        x + column_width(bounds)
    } else {
        u16::MAX as int
    };
    layout::less(right, 9)
}

/// The number of a cell: bold once it is completed, an en dash where there is
/// none.
pub open spec fn number_draws(
    s: AppState,
    bounds: Area,
    x: int,
    y: int,
    cell: Cell,
    shown: Seq<char>,
) -> Seq<DrawView> {
    let c = app::known(s.cells, cell);
    let value = app::value_of(c, s.unit);
    let number = if value is Some {
        shown
    } else {
        "–"@
    };
    let ink = if c.result is Some {
        layout::bold(Tone::Text)
    } else if value is Some {
        layout::plain(Tone::Live)
    } else {
        layout::plain(Tone::Dim)
    };
    layout::put_at(bounds, number_at(bounds, x), y, shape::padded(number, 8), ink)
}

/// Where the latency of a cell begins; `None` where none is shown. Latency
/// belongs to the IOPS view only, keeping the MB/s view clean.
pub open spec fn latency_at(
    s: AppState,
    bounds: Area,
    x: int,
    cell: Cell,
    len: int,
) -> Option<int> {
    let at = layout::less(number_at(bounds, x), len + 2);
    if s.unit is Iops && app::known(s.cells, cell).result is Some && at > x + 4 {
        Some(at)
    } else {
        None
    }
}

/// The bar of a cell, left of its number and its latency, where there is room
/// for at least three columns of it.
pub open spec fn bar_draws(
    s: AppState,
    x: int,
    y: int,
    end: int,
    cell: Cell,
    scale: Reading,
) -> Seq<DrawView> {
    let c = app::known(s.cells, cell);
    let value = app::value_of(c, s.unit);
    let width = layout::less(end, x + 3);
    if width >= 3 {
        seq![
            DrawView::Bar {
                area: Area { x: (x + 1) as u16, y: y as u16, width: width as u16, height: 1 },
                value,
                scale,
                dimmed: c.result is None && (is_active(s, cell) || value is Some),
            },
        ]
    } else {
        Seq::empty()
    }
}

/// One single-line CDM cell: the bar on the left, the number on the right (in
/// the IOPS view, mean latency sits next to the number).
pub open spec fn cell_draws(
    s: AppState,
    bounds: Area,
    x: int,
    y: int,
    cell: Cell,
    scale: Reading,
    value: Seq<char>,
    latency: Seq<char>,
) -> Seq<DrawView> {
    let number = number_draws(s, bounds, x, y, cell, value);
    match latency_at(s, bounds, x, cell, latency.len() as int) {
        Some(at) => number + layout::put_at(bounds, at, y, latency, layout::plain(Tone::Dim))
            + bar_draws(s, x, y, at, cell, scale),
        None => number + bar_draws(s, x, y, number_at(bounds, x), cell, scale),
    }
}

// ---------------------------------------------------------------------------
// Rows

/// The best value in one direction.
pub open spec fn scale_of(s: AppState, cfg: Config, op: Op) -> Reading {
    measure::highest(app::column(s.cells, s.unit, op, cfg.tasks@.len()))
}

/// The cell of a row in one direction.
pub open spec fn cell_of_row(
    s: AppState,
    cfg: Config,
    bounds: Area,
    i: int,
    op: Op,
    texts: Seq<CellText>,
) -> Seq<DrawView> {
    let cell = Cell { task: i as usize, op };
    let t = texts[runner::index_of(cell)];
    cell_draws(
        s,
        bounds,
        column_at(bounds, op),
        bounds.y + 2 + 2 * i,
        cell,
        scale_of(s, cfg, op),
        t.value@,
        t.latency@,
    )
}

/// The label of a row, with a mark ahead of it while its task runs.
pub open spec fn label_draws(s: AppState, cfg: Config, bounds: Area, i: int) -> Seq<DrawView> {
    let y = bounds.y + 2 + 2 * i;
    let task = cfg.tasks@[i];
    let mark = if is_active_task(s, i) {
        layout::put_at(bounds, bounds.x as int, y, "▶"@, layout::bold(Tone::Live))
    } else {
        Seq::empty()
    };
    mark + layout::put_at(
        bounds,
        bounds.x + 2,
        y,
        task.row_text(),
        layout::bold(Tone::Text),
    ) + layout::put_at(
        bounds,
        bounds.x + 2 + task.row_text().len() + 1,
        y,
        task.queue_text(),
        layout::plain(Tone::Dim),
    )
}

/// The row of a task: its label and its two cells.
pub open spec fn row_draws(
    s: AppState,
    cfg: Config,
    bounds: Area,
    texts: Seq<CellText>,
    i: int,
) -> Seq<DrawView> {
    label_draws(s, cfg, bounds, i) + cell_of_row(s, cfg, bounds, i, Op::Read, texts) + cell_of_row(
        s,
        cfg,
        bounds,
        i,
        Op::Write,
        texts,
    )
}

/// The rows of the first `n` tasks, as far as there is room.
pub open spec fn rows(
    s: AppState,
    cfg: Config,
    bounds: Area,
    texts: Seq<CellText>,
    n: nat,
) -> Seq<DrawView>
    decreases n,
{
    if n == 0 {
        Seq::empty()
    } else {
        let before = rows(s, cfg, bounds, texts, (n - 1) as nat);
        if bounds.y + 2 + 2 * (n - 1) < bounds.bottom_at() {
            before + row_draws(s, cfg, bounds, texts, n - 1)
        } else {
            before
        }
    }
}

/// All that the results panel shows inside its border; nothing in a panel that
/// is too small for it.
pub open spec fn result_draws(s: AppState, cfg: Config, bounds: Area, texts: Seq<CellText>) -> Seq<
    DrawView,
> {
    if bounds.height < 3 || bounds.width < 40 {
        Seq::empty()
    } else {
        headings(bounds, s.unit) + separators(
            bounds,
            (bounds.bottom_at() - bounds.y) as nat,
        ) + rules(bounds, cfg.tasks@.len()) + rows(s, cfg, bounds, texts, cfg.tasks@.len())
    }
}

// ---------------------------------------------------------------------------
// Drawing

proof fn lemma_add_associative(a: Seq<DrawView>, b: Seq<DrawView>, c: Seq<DrawView>)
    ensures
        a + b + c == a + (b + c),
{
    assert(a + b + c =~= a + (b + c));
}

fn put_centered(out: &mut Vec<Draw>, bounds: Area, x: u128, width: u128, s: &str)
    requires
        width == column_width(bounds),
        x <= 0x4_0000,
    ensures
        layout::draw_views(final(out)@) == layout::draw_views(old(out)@) + centered(bounds, x as int, s@),
{
    let len: u128 = chars_of(s).len() as u128;
    let free: u128 = if width >= len {
        width - len
    } else {
        0
    };
    put(out, bounds, x + free / 2, bounds.y as u128, s, Tone::Title, true);
}

fn heading(word: &str, unit: Unit) -> (r: String)
    ensures
        r@ == word@ + unit.heading_text() + ")"@,
{
    let mut out = word.to_owned();
    out.append(unit.heading());
    out.append(")");
    out
}

fn draw_grid(out: &mut Vec<Draw>, bounds: Area, tasks: usize, col_w: u128)
    requires
        col_w == column_width(bounds),
    ensures
        layout::draw_views(final(out)@) == layout::draw_views(old(out)@) + separators(
            bounds,
            (bounds.bottom_at() - bounds.y) as nat,
        ) + rules(bounds, tasks as nat),
{
    let sep1: u128 = bounds.x as u128 + LABEL_WIDTH as u128;
    let sep2: u128 = sep1 + 1 + col_w;
    let bottom: u16 = bounds.bottom();
    let right: u16 = bounds.right();
    let ghost start = layout::draw_views(out@);
    let mut y: u16 = bounds.y;
    assert(start + separators(bounds, 0) =~= start);
    while y < bottom
        invariant
            bounds.y <= y <= bottom,
            bottom == bounds.bottom_at(),
            sep1 == first_rule(bounds),
            sep2 == second_rule(bounds),
            layout::draw_views(out@) == start + separators(bounds, (y - bounds.y) as nat),
        decreases bottom - y,
    {
        let ghost before = separators(bounds, (y - bounds.y) as nat);
        put(out, bounds, sep1, y as u128, "│", Tone::Border, false);
        put(out, bounds, sep2, y as u128, "│", Tone::Border, false);
        proof {
            let one = layout::put_at(bounds, sep1 as int, y as int, "│"@, layout::plain(Tone::Border));
            let two = layout::put_at(bounds, sep2 as int, y as int, "│"@, layout::plain(Tone::Border));
            assert(start + before + one + two =~= start + (before + one + two));
        }
        y += 1;
    }
    let ghost barred = layout::draw_views(out@);
    let mut i: usize = 0;
    assert(barred + rules(bounds, 0) =~= barred);
    while i < tasks
        invariant
            i <= tasks,
            bottom == bounds.bottom_at(),
            right == bounds.right_at(),
            sep1 == first_rule(bounds),
            sep2 == second_rule(bounds),
            layout::draw_views(out@) == barred + rules(bounds, i as nat),
        decreases tasks - i,
    {
        let ry: u128 = bounds.y as u128 + 1 + 2 * (i as u128);
        if ry < bottom as u128 {
            let ghost ruled = layout::draw_views(out@);
            let mut x: u16 = bounds.x;
            assert(ruled + rule(bounds, ry as int, 0) =~= ruled);
            while x < right
                invariant
                    bounds.x <= x <= right,
                    right == bounds.right_at(),
                    sep1 == first_rule(bounds),
                    sep2 == second_rule(bounds),
                    layout::draw_views(out@) == ruled + rule(bounds, ry as int, (x - bounds.x) as nat),
                decreases right - x,
            {
                let ghost before = rule(bounds, ry as int, (x - bounds.x) as nat);
                let symbol = if x as u128 == sep1 || x as u128 == sep2 {
                    "┼"
                } else {
                    "─"
                };
                put(out, bounds, x as u128, ry, symbol, Tone::Border, false);
                proof {
                    let one = layout::put_at(
                        bounds,
                        x as int,
                        ry as int,
                        rule_symbol(bounds, x as int),
                        layout::plain(Tone::Border),
                    );
                    assert(ruled + before + one =~= ruled + (before + one));
                }
                x += 1;
            }
            proof {
                let one = rule(bounds, ry as int, (bounds.right_at() - bounds.x) as nat);
                assert(barred + rules(bounds, i as nat) + one =~= barred + (rules(
                    bounds,
                    i as nat,
                ) + one));
            }
        }
        i += 1;
    }
}

#[verifier::rlimit(30)]
fn draw_cell(
    out: &mut Vec<Draw>,
    bounds: Area,
    x: u128,
    y: u16,
    col_w: u128,
    app: &App,
    cell: Cell,
    scale: Reading,
    texts: &CellText,
)
    requires
        app.wf(),
        x <= 0x4_0000,
        bounds.x <= x,
        col_w == column_width(bounds),
        y < bounds.bottom_at(),
    ensures
        layout::draw_views(final(out)@) == layout::draw_views(old(out)@) + cell_draws(
            app@,
            bounds,
            x as int,
            y as int,
            cell,
            scale,
            texts.value@,
            texts.latency@,
        ),
{
    let ghost start = layout::draw_views(out@);
    let active = app.outcome.is_none() && (match app.activity {
        Activity::Running { cell: c } => c == cell,
        _ => false,
    });
    let done = match app.cell(cell) {
        Some(v) => v.result.is_some(),
        None => false,
    };
    let value = app.value(cell);
    let number = match value {
        Some(_) => pad_left(texts.value.as_str(), 8),
        None => pad_left("–", 8),
    };
    let (tone, bold) = if done {
        (Tone::Text, true)
    } else if value.is_some() {
        (Tone::Live, false)
    } else {
        (Tone::Dim, false)
    };
    let right: u128 = if x + col_w <= 65535 {
        x + col_w
    } else {
        65535
    };
    let vx: u128 = if right >= 9 {
        right - 9
    } else {
        0
    };
    put(out, bounds, vx, y as u128, number.as_str(), tone, bold);
    let ghost number_part = number_draws(app@, bounds, x as int, y as int, cell, texts.value@);
    assert(layout::draw_views(out@) == start + number_part);
    let mut end: u128 = vx;
    let ghost mut latency_part: Seq<DrawView> = Seq::empty();
    assert(start + number_part + latency_part =~= start + number_part);
    if app.unit == Unit::Iops && done {
        let len: u128 = chars_of(texts.latency.as_str()).len() as u128;
        let lx: u128 = if vx >= len + 2 {
            vx - (len + 2)
        } else {
            0
        };
        if lx > x + 4 {
            put(out, bounds, lx, y as u128, texts.latency.as_str(), Tone::Dim, false);
            end = lx;
            proof {
                latency_part =
                layout::put_at(
                    bounds,
                    lx as int,
                    y as int,
                    texts.latency@,
                    layout::plain(Tone::Dim),
                );
            }
        }
    }
    assert(layout::draw_views(out@) == start + number_part + latency_part);
    let bar_w: u128 = if end >= x + 3 {
        end - (x + 3)
    } else {
        0
    };
    let ghost bar_part = bar_draws(app@, x as int, y as int, end as int, cell, scale);
    let ghost before = out@;
    if bar_w >= 3 {
        let area = Area { x: (x + 1) as u16, y, width: bar_w as u16, height: 1 };
        let dimmed = !done && (active || value.is_some());
        out.push(Draw::Bar { area, value, scale, dimmed });
        assert(layout::draw_views(out@) =~= layout::draw_views(before) + bar_part);
    } else {
        assert(layout::draw_views(before) + bar_part =~= layout::draw_views(before));
    }
    assert(number_part + Seq::<DrawView>::empty() =~= number_part);
    assert(start + number_part + latency_part + bar_part =~= start + (number_part + latency_part
        + bar_part));
}

fn draw_label(out: &mut Vec<Draw>, bounds: Area, app: &App, cfg: &Config, i: usize, y: u16)
    requires
        i < cfg.tasks@.len(),
        y == bounds.y + 2 + 2 * i,
    ensures
        layout::draw_views(final(out)@) == layout::draw_views(old(out)@) + label_draws(
            app@,
            *cfg,
            bounds,
            i as int,
        ),
{
    let ghost start = layout::draw_views(out@);
    let active = app.outcome.is_none() && (match app.activity {
        Activity::Running { cell } => cell.task == i,
        _ => false,
    });
    let ghost mut mark: Seq<DrawView> = Seq::empty();
    assert(start + mark =~= start);
    if active {
        put(out, bounds, bounds.x as u128, y as u128, "▶", Tone::Live, true);
        proof {
            mark =
            layout::put_at(
                bounds,
                bounds.x as int,
                y as int,
                "▶"@,
                layout::bold(Tone::Live),
            );
        }
    }
    let (name, queue) = cfg.tasks[i].label();
    let len: u128 = chars_of(name.as_str()).len() as u128;
    let name_x: u128 = bounds.x as u128 + 2;
    put(out, bounds, name_x, y as u128, name.as_str(), Tone::Text, true);
    put(out, bounds, name_x + len + 1, y as u128, queue.as_str(), Tone::Dim, false);
    proof {
        let one = layout::put_at(
            bounds,
            name_x as int,
            y as int,
            name@,
            layout::bold(Tone::Text),
        );
        let two = layout::put_at(
            bounds,
            name_x + len + 1,
            y as int,
            queue@,
            layout::plain(Tone::Dim),
        );
        assert(start + mark + one + two =~= start + (mark + one + two));
    }
}

#[verifier::rlimit(30)]
fn draw_row(
    out: &mut Vec<Draw>,
    bounds: Area,
    col_w: u128,
    app: &App,
    cfg: &Config,
    i: usize,
    y: u16,
    read_scale: Reading,
    write_scale: Reading,
    texts: &Vec<CellText>,
)
    requires
        app.wf(),
        i < cfg.tasks@.len(),
        texts@.len() == cfg.plan().len(),
        col_w == column_width(bounds),
        y == bounds.y + 2 + 2 * i,
        y < bounds.bottom_at(),
        read_scale == scale_of(app@, *cfg, Op::Read),
        write_scale == scale_of(app@, *cfg, Op::Write),
    ensures
        layout::draw_views(final(out)@) == layout::draw_views(old(out)@) + row_draws(
            app@,
            *cfg,
            bounds,
            texts@,
            i as int,
        ),
{
    let ghost start = layout::draw_views(out@);
    let ghost label = label_draws(app@, *cfg, bounds, i as int);
    let ghost read = cell_of_row(app@, *cfg, bounds, i as int, Op::Read, texts@);
    let ghost write = cell_of_row(app@, *cfg, bounds, i as int, Op::Write, texts@);
    draw_label(out, bounds, app, cfg, i, y);
    assert(layout::draw_views(out@) == start + label);
    let read_x: u128 = bounds.x as u128 + LABEL_WIDTH as u128 + 1;
    let write_x: u128 = read_x + col_w + 1;
    let left = Cell { task: i, op: Op::Read };
    let right = Cell { task: i, op: Op::Write };
    assert(runner::index_of(left) == 2 * i && runner::index_of(right) == 2 * i + 1);
    assert(read_x == column_at(bounds, Op::Read) && write_x == column_at(bounds, Op::Write));
    draw_cell(out, bounds, read_x, y, col_w, app, left, read_scale, &texts[2 * i]);
    assert(layout::draw_views(out@) == start + label + read);
    draw_cell(out, bounds, write_x, y, col_w, app, right, write_scale, &texts[2 * i + 1]);
    assert(layout::draw_views(out@) == start + label + read + write);
    proof {
        lemma_add_associative(start, label, read);
        lemma_add_associative(start, label + read, write);
    }
}

/// What the results panel shows inside its border `bounds`, the numbers of the
/// cells, in execution order, being shown as `texts`.
pub fn draw_results(bounds: Area, app: &App, cfg: &Config, texts: &Vec<CellText>) -> (r: Vec<Draw>)
    requires
        app.wf(),
        texts@.len() == cfg.plan().len(),
    ensures
        layout::draw_views(r@) == result_draws(app@, *cfg, bounds, texts@),
{
    let mut out: Vec<Draw> = Vec::new();
    assert(layout::draw_views(out@) =~= Seq::empty());
    if bounds.height < 3 || bounds.width < 40 {
        return out;
    }
    let col_w: u128 = (bounds.width as u128 - (LABEL_WIDTH as u128 + 2)) / 2;
    let read_x: u128 = bounds.x as u128 + LABEL_WIDTH as u128 + 1;
    let write_x: u128 = read_x + col_w + 1;
    let read = heading("Read (", app.unit);
    let write = heading("Write (", app.unit);
    put_centered(&mut out, bounds, read_x, col_w, read.as_str());
    put_centered(&mut out, bounds, write_x, col_w, write.as_str());
    assert(layout::draw_views(out@) =~= headings(bounds, app@.unit));
    draw_grid(&mut out, bounds, cfg.tasks.len(), col_w);

    // CDM-style bars: each column scales against its own best value.
    let read_scale = app.col_max(cfg, Op::Read);
    let write_scale = app.col_max(cfg, Op::Write);
    let bottom: u16 = bounds.bottom();
    let ghost start = layout::draw_views(out@);
    let mut i: usize = 0;
    assert(start + rows(app@, *cfg, bounds, texts@, 0) =~= start);
    while i < cfg.tasks.len()
        invariant
            i <= cfg.tasks.len(),
            app.wf(),
            texts@.len() == cfg.plan().len(),
            col_w == column_width(bounds),
            bottom == bounds.bottom_at(),
            read_scale == scale_of(app@, *cfg, Op::Read),
            write_scale == scale_of(app@, *cfg, Op::Write),
            layout::draw_views(out@) == start + rows(app@, *cfg, bounds, texts@, i as nat),
        decreases cfg.tasks.len() - i,
    {
        let y: u128 = bounds.y as u128 + 2 + 2 * (i as u128);
        if y < bottom as u128 {
            let ghost before = rows(app@, *cfg, bounds, texts@, i as nat);
            draw_row(
                &mut out,
                bounds,
                col_w,
                app,
                cfg,
                i,
                y as u16,
                read_scale,
                write_scale,
                texts,
            );
            proof {
                let row = row_draws(app@, *cfg, bounds, texts@, i as int);
                lemma_add_associative(start, before, row);
            }
        }
        i += 1;
    }
    assert(layout::draw_views(out@) =~= result_draws(app@, *cfg, bounds, texts@));
    out
}

// ---------------------------------------------------------------------------
// Laws

/// Whether something is drawn within `bounds`, and no further.
pub open spec fn is_inside(bounds: Area, d: DrawView) -> bool {
    match d {
        DrawView::Text { x, y, max, .. } => {
            &&& bounds.x <= x < bounds.right_at()
            &&& bounds.y <= y < bounds.bottom_at()
            &&& x + max == bounds.right_at()
        },
        DrawView::Bar { area, .. } => {
            &&& bounds.x <= area.x && area.x + area.width <= bounds.right_at()
            &&& bounds.y <= area.y && area.y + area.height <= bounds.bottom_at()
        },
    }
}

/// Whether all of `s` is drawn within `bounds`.
pub open spec fn all_inside(bounds: Area, s: Seq<DrawView>) -> bool {
    forall|i: int| 0 <= i < s.len() ==> is_inside(bounds, #[trigger] s[i])
}

proof fn lemma_inside_add(bounds: Area, a: Seq<DrawView>, b: Seq<DrawView>)
    requires
        all_inside(bounds, a),
        all_inside(bounds, b),
    ensures
        all_inside(bounds, a + b),
{
    assert forall|i: int| 0 <= i < (a + b).len() implies is_inside(
        bounds,
        #[trigger] (a + b)[i],
    ) by {
        if i < a.len() {
            assert((a + b)[i] == a[i]);
        } else {
            assert((a + b)[i] == b[i - a.len()]);
        }
    }
}

proof fn lemma_separators_inside(bounds: Area, n: nat)
    ensures
        all_inside(bounds, separators(bounds, n)),
    decreases n,
{
    if n > 0 {
        let y = bounds.y + n - 1;
        let before = separators(bounds, (n - 1) as nat);
        let ink = layout::plain(Tone::Border);
        let one = layout::put_at(bounds, first_rule(bounds), y, "│"@, ink);
        let two = layout::put_at(bounds, second_rule(bounds), y, "│"@, ink);
        lemma_separators_inside(bounds, (n - 1) as nat);
        lemma_inside_add(bounds, before, one);
        lemma_inside_add(bounds, before + one, two);
    }
}

proof fn lemma_rule_inside(bounds: Area, y: int, n: nat)
    requires
        bounds.y <= y,
    ensures
        all_inside(bounds, rule(bounds, y, n)),
    decreases n,
{
    if n > 0 {
        let x = bounds.x + n - 1;
        lemma_rule_inside(bounds, y, (n - 1) as nat);
        lemma_inside_add(
            bounds,
            rule(bounds, y, (n - 1) as nat),
            layout::put_at(bounds, x, y, rule_symbol(bounds, x), layout::plain(Tone::Border)),
        );
    }
}

proof fn lemma_rules_inside(bounds: Area, n: nat)
    ensures
        all_inside(bounds, rules(bounds, n)),
    decreases n,
{
    if n > 0 {
        let y = bounds.y + 1 + 2 * (n - 1);
        let width = (bounds.right_at() - bounds.x) as nat;
        lemma_rules_inside(bounds, (n - 1) as nat);
        lemma_rule_inside(bounds, y, width);
        lemma_inside_add(bounds, rules(bounds, (n - 1) as nat), rule(bounds, y, width));
    }
}

proof fn lemma_cell_inside(
    s: AppState,
    bounds: Area,
    op: Op,
    y: int,
    cell: Cell,
    scale: Reading,
    value: Seq<char>,
    latency: Seq<char>,
)
    requires
        layout::fits(bounds),
        bounds.width >= 40,
        bounds.y <= y < bounds.bottom_at(),
    ensures
        all_inside(
            bounds,
            cell_draws(s, bounds, column_at(bounds, op), y, cell, scale, value, latency),
        ),
{
    let x = column_at(bounds, op);
    let number = number_draws(s, bounds, x, y, cell, value);
    assert(x + column_width(bounds) <= bounds.right_at());
    assert(column_width(bounds) >= 11);
    match latency_at(s, bounds, x, cell, latency.len() as int) {
        Some(at) => {
            let two = layout::put_at(bounds, at, y, latency, layout::plain(Tone::Dim));
            lemma_inside_add(bounds, number, two);
            lemma_inside_add(bounds, number + two, bar_draws(s, x, y, at, cell, scale));
        },
        None => {
            let end = number_at(bounds, x);
            lemma_inside_add(bounds, number, bar_draws(s, x, y, end, cell, scale));
        },
    }
}

proof fn lemma_label_inside(s: AppState, cfg: Config, bounds: Area, i: int)
    requires
        i >= 0,
    ensures
        all_inside(bounds, label_draws(s, cfg, bounds, i)),
{
    let y = bounds.y + 2 + 2 * i;
    let task = cfg.tasks@[i];
    let mark = if is_active_task(s, i) {
        layout::put_at(bounds, bounds.x as int, y, "▶"@, layout::bold(Tone::Live))
    } else {
        Seq::empty()
    };
    let name = layout::put_at(
        bounds,
        bounds.x + 2,
        y,
        task.row_text(),
        layout::bold(Tone::Text),
    );
    let queue = layout::put_at(
        bounds,
        bounds.x + 2 + task.row_text().len() + 1,
        y,
        task.queue_text(),
        layout::plain(Tone::Dim),
    );
    lemma_inside_add(bounds, mark, name);
    lemma_inside_add(bounds, mark + name, queue);
}

proof fn lemma_rows_inside(
    s: AppState,
    cfg: Config,
    bounds: Area,
    texts: Seq<CellText>,
    n: nat,
)
    requires
        layout::fits(bounds),
        bounds.width >= 40,
    ensures
        all_inside(bounds, rows(s, cfg, bounds, texts, n)),
    decreases n,
{
    if n > 0 {
        let i = n - 1;
        let before = rows(s, cfg, bounds, texts, i as nat);
        let y = bounds.y + 2 + 2 * i;
        lemma_rows_inside(s, cfg, bounds, texts, i as nat);
        if y < bounds.bottom_at() {
            let label = label_draws(s, cfg, bounds, i);
            let read = cell_of_row(s, cfg, bounds, i, Op::Read, texts);
            let write = cell_of_row(s, cfg, bounds, i, Op::Write, texts);
            lemma_label_inside(s, cfg, bounds, i);
            lemma_cell_of_row_inside(s, cfg, bounds, i, Op::Read, texts);
            lemma_cell_of_row_inside(s, cfg, bounds, i, Op::Write, texts);
            lemma_inside_add(bounds, label, read);
            lemma_inside_add(bounds, label + read, write);
            lemma_inside_add(bounds, before, label + read + write);
        }
    }
}

proof fn lemma_cell_of_row_inside(
    s: AppState,
    cfg: Config,
    bounds: Area,
    i: int,
    op: Op,
    texts: Seq<CellText>,
)
    requires
        layout::fits(bounds),
        bounds.width >= 40,
        i >= 0,
        bounds.y + 2 + 2 * i < bounds.bottom_at(),
    ensures
        all_inside(bounds, cell_of_row(s, cfg, bounds, i, op, texts)),
{
    let cell = Cell { task: i as usize, op };
    let t = texts[runner::index_of(cell)];
    lemma_cell_inside(
        s,
        bounds,
        op,
        bounds.y + 2 + 2 * i,
        cell,
        scale_of(s, cfg, op),
        t.value@,
        t.latency@,
    );
}

/// Whatever the session and the size of the terminal, the table stays inside
/// its panel, each text being clipped at the right border.
pub proof fn law_the_table_stays_inside_its_panel(
    s: AppState,
    cfg: Config,
    bounds: Area,
    texts: Seq<CellText>,
)
    requires
        layout::fits(bounds),
    ensures
        all_inside(bounds, result_draws(s, cfg, bounds, texts)),
{
    if bounds.height >= 3 && bounds.width >= 40 {
        let n = cfg.tasks@.len();
        let height = (bounds.bottom_at() - bounds.y) as nat;
        let read = centered(
            bounds,
            read_column(bounds),
            "Read ("@ + s.unit.heading_text() + ")"@,
        );
        let write = centered(
            bounds,
            write_column(bounds),
            "Write ("@ + s.unit.heading_text() + ")"@,
        );
        lemma_inside_add(bounds, read, write);
        lemma_separators_inside(bounds, height);
        lemma_rules_inside(bounds, n);
        lemma_rows_inside(s, cfg, bounds, texts, n);
        let a = headings(bounds, s.unit);
        let b = separators(bounds, height);
        lemma_inside_add(bounds, a, b);
        lemma_inside_add(bounds, a + b, rules(bounds, n));
        lemma_inside_add(bounds, a + b + rules(bounds, n), rows(s, cfg, bounds, texts, n));
    }
}

/// The rows of the tasks are among what the panel shows.
proof fn lemma_rows_have(
    s: AppState,
    cfg: Config,
    bounds: Area,
    texts: Seq<CellText>,
    n: nat,
    i: int,
    d: DrawView,
)
    requires
        0 <= i < n,
        bounds.y + 2 + 2 * i < bounds.bottom_at(),
        row_draws(s, cfg, bounds, texts, i).contains(d),
    ensures
        rows(s, cfg, bounds, texts, n).contains(d),
    decreases n,
{
    let all = rows(s, cfg, bounds, texts, n);
    let before = rows(s, cfg, bounds, texts, (n - 1) as nat);
    if i < n - 1 {
        lemma_rows_have(s, cfg, bounds, texts, (n - 1) as nat, i, d);
        let k = choose|k: int| 0 <= k < before.len() && before[k] == d;
        assert(all[k] == d);
    } else {
        let row = row_draws(s, cfg, bounds, texts, i);
        let k = choose|k: int| 0 <= k < row.len() && row[k] == d;
        assert(all[before.len() + k] == d);
    }
}

/// What a row shows, the panel shows.
proof fn lemma_results_have(
    s: AppState,
    cfg: Config,
    bounds: Area,
    texts: Seq<CellText>,
    i: int,
    d: DrawView,
)
    requires
        bounds.height >= 3,
        bounds.width >= 40,
        0 <= i < cfg.tasks@.len(),
        bounds.y + 2 + 2 * i < bounds.bottom_at(),
        row_draws(s, cfg, bounds, texts, i).contains(d),
    ensures
        result_draws(s, cfg, bounds, texts).contains(d),
{
    let n = cfg.tasks@.len();
    lemma_rows_have(s, cfg, bounds, texts, n, i, d);
    let head = headings(bounds, s.unit) + separators(
        bounds,
        (bounds.bottom_at() - bounds.y) as nat,
    ) + rules(bounds, n);
    let all = rows(s, cfg, bounds, texts, n);
    let k = choose|k: int| 0 <= k < all.len() && all[k] == d;
    assert((head + all)[head.len() + k] == d);
}

/// Each task has its row, every second one below the headings: its label, and
/// the values of its two cells, that for reading to the left of the middle rule
/// and that for writing to the right of it, each right-aligned in its column.
/// A cell without a value shows a dash; a result is in bold, a live value is
/// not.
#[verifier::rlimit(40)]
pub proof fn law_each_task_has_its_row(
    s: AppState,
    cfg: Config,
    bounds: Area,
    texts: Seq<CellText>,
    i: int,
    op: Op,
)
    requires
        layout::fits(bounds),
        bounds.height >= 3,
        bounds.width >= 40,
        texts.len() == 2 * cfg.tasks@.len(),
        0 <= i < cfg.tasks@.len(),
        bounds.y + 2 + 2 * i < bounds.bottom_at(),
    ensures
        ({
            let r = result_draws(s, cfg, bounds, texts);
            let task = cfg.tasks@[i];
            let y = bounds.y + 2 + 2 * i;
            let cell = Cell { task: i as usize, op };
            let known = app::known(s.cells, cell);
            let width = (bounds.width - 18) / 2;
            let end = if op is Read {
                bounds.x + 17 + width
            } else {
                bounds.x + 18 + 2 * width
            };
            let text = if app::value_of(known, s.unit) is None {
                "–"@
            } else if op is Read {
                texts[2 * i].value@
            } else {
                texts[2 * i + 1].value@
            };
            &&& r.contains(
                DrawView::Text {
                    x: bounds.x + 2,
                    y,
                    text: task.row_text(),
                    max: bounds.right_at() - bounds.x - 2,
                    ink: layout::bold(Tone::Text),
                },
            )
            &&& bounds.x + 3 + task.row_text().len() < bounds.right_at() ==> r.contains(
                DrawView::Text {
                    x: bounds.x + 3 + task.row_text().len(),
                    y,
                    text: task.queue_text(),
                    max: bounds.right_at() - bounds.x - 3 - task.row_text().len(),
                    ink: layout::plain(Tone::Dim),
                },
            )
            &&& r.contains(
                DrawView::Text {
                    x: end - 9,
                    y,
                    text: shape::padded(text, 8),
                    max: bounds.right_at() - (end - 9),
                    ink: if known.result is Some {
                        layout::bold(Tone::Text)
                    } else if known.live is Some {
                        layout::plain(Tone::Live)
                    } else {
                        layout::plain(Tone::Dim)
                    },
                },
            )
            &&& (s.outcome is None && s.activity == (ActivityView::Running { cell }))
                ==> r.contains(
                DrawView::Text {
                    x: bounds.x as int,
                    y,
                    text: "▶"@,
                    max: bounds.right_at() - bounds.x,
                    ink: layout::bold(Tone::Live),
                },
            )
        }),
{
    let y = bounds.y + 2 + 2 * i;
    let row = row_draws(s, cfg, bounds, texts, i);
    let label = label_draws(s, cfg, bounds, i);
    let read = cell_of_row(s, cfg, bounds, i, Op::Read, texts);
    let write = cell_of_row(s, cfg, bounds, i, Op::Write, texts);
    let task = cfg.tasks@[i];
    assert(cfg.tasks@.len() == cfg.tasks.len());
    let mark = if is_active_task(s, i) {
        layout::put_at(bounds, bounds.x as int, y, "▶"@, layout::bold(Tone::Live))
    } else {
        Seq::empty()
    };
    let at = mark.len() as int;
    let name = DrawView::Text {
        x: bounds.x + 2,
        y,
        text: task.row_text(),
        max: bounds.right_at() - bounds.x - 2,
        ink: layout::bold(Tone::Text),
    };
    assert(label[at] == name);
    assert(row[at] == name);
    lemma_results_have(s, cfg, bounds, texts, i, name);
    if bounds.x + 3 + task.row_text().len() < bounds.right_at() {
        let queue = DrawView::Text {
            x: bounds.x + 3 + task.row_text().len(),
            y,
            text: task.queue_text(),
            max: bounds.right_at() - bounds.x - 3 - task.row_text().len(),
            ink: layout::plain(Tone::Dim),
        };
        assert(label[at + 1] == queue);
        assert(row[at + 1] == queue);
        lemma_results_have(s, cfg, bounds, texts, i, queue);
    }
    let cell = Cell { task: i as usize, op };
    if s.outcome is None && s.activity == (ActivityView::Running { cell }) {
        assert(label[0] == mark[0]);
        assert(row[0] == mark[0]);
        lemma_results_have(s, cfg, bounds, texts, i, mark[0]);
    }
    let t = texts[runner::index_of(cell)];
    let x = column_at(bounds, op);
    let number = number_draws(s, bounds, x, y, cell, t.value@);
    assert(number.len() == 1);
    let offset = if op is Read {
        label.len() as int
    } else {
        label.len() as int + read.len()
    };
    let own = if op is Read {
        read
    } else {
        write
    };
    assert(own[0] == number[0]);
    assert(row[offset] == number[0]);
    lemma_results_have(s, cfg, bounds, texts, i, number[0]);
}

/// The bar of a cell is drawn for the cell's value, on the scale of the best
/// value of its direction, left of its number and of its latency, which stands
/// between them where it is shown.
#[verifier::rlimit(40)]
pub proof fn law_each_cell_has_its_bar(
    s: AppState,
    cfg: Config,
    bounds: Area,
    texts: Seq<CellText>,
    i: int,
    op: Op,
)
    requires
        layout::fits(bounds),
        bounds.height >= 3,
        bounds.width >= 50,
        texts.len() == 2 * cfg.tasks@.len(),
        0 <= i < cfg.tasks@.len(),
        bounds.y + 2 + 2 * i < bounds.bottom_at(),
    ensures
        ({
            let r = result_draws(s, cfg, bounds, texts);
            let y = bounds.y + 2 + 2 * i;
            let cell = Cell { task: i as usize, op };
            let known = app::known(s.cells, cell);
            let width = (bounds.width - 18) / 2;
            let (start, latency) = if op is Read {
                (bounds.x + 17, texts[2 * i].latency@)
            } else {
                (bounds.x + 18 + width, texts[2 * i + 1].latency@)
            };
            let shows = s.unit is Iops && known.result is Some && width - 9 > latency.len() + 6;
            let room = if shows {
                width - 12 - latency.len() - 2
            } else {
                width - 12
            };
            &&& room >= 3 ==> r.contains(
                DrawView::Bar {
                    area: Area {
                        x: (start + 1) as u16,
                        y: y as u16,
                        width: room as u16,
                        height: 1,
                    },
                    value: app::value_of(known, s.unit),
                    scale: measure::highest(app::column(s.cells, s.unit, op, cfg.tasks@.len())),
                    dimmed: known.result is None && (known.live is Some || (s.outcome is None
                        && s.activity == (ActivityView::Running { cell }))),
                },
            )
            &&& shows ==> r.contains(
                DrawView::Text {
                    x: start + width - 9 - latency.len() - 2,
                    y,
                    text: latency,
                    max: bounds.right_at() - (start + width - 9 - latency.len() - 2),
                    ink: layout::plain(Tone::Dim),
                },
            )
        }),
{
    let y = bounds.y + 2 + 2 * i;
    let row = row_draws(s, cfg, bounds, texts, i);
    let label = label_draws(s, cfg, bounds, i);
    let read = cell_of_row(s, cfg, bounds, i, Op::Read, texts);
    let write = cell_of_row(s, cfg, bounds, i, Op::Write, texts);
    assert(cfg.tasks@.len() == cfg.tasks.len());
    let cell = Cell { task: i as usize, op };
    let t = texts[runner::index_of(cell)];
    let x = column_at(bounds, op);
    let number = number_draws(s, bounds, x, y, cell, t.value@);
    assert(number.len() == 1);
    let own = if op is Read {
        read
    } else {
        write
    };
    let offset = if op is Read {
        label.len() as int
    } else {
        label.len() as int + read.len()
    };
    match latency_at(s, bounds, x, cell, t.latency@.len() as int) {
        Some(at) => {
            let shown = layout::put_at(bounds, at, y, t.latency@, layout::plain(Tone::Dim));
            let bar = bar_draws(s, x, y, at, cell, scale_of(s, cfg, op));
            assert(shown.len() == 1);
            assert(own == number + shown + bar);
            assert(own[1] == shown[0]);
            assert(row[offset + 1] == shown[0]);
            lemma_results_have(s, cfg, bounds, texts, i, shown[0]);
            if bar.len() > 0 {
                assert(own[2] == bar[0]);
                assert(row[offset + 2] == bar[0]);
                lemma_results_have(s, cfg, bounds, texts, i, bar[0]);
            }
        },
        None => {
            let bar = bar_draws(s, x, y, number_at(bounds, x), cell, scale_of(s, cfg, op));
            assert(own == number + bar);
            if bar.len() > 0 {
                assert(own[1] == bar[0]);
                assert(row[offset + 1] == bar[0]);
                lemma_results_have(s, cfg, bounds, texts, i, bar[0]);
            }
        },
    }
}

/// The columns have their headings, in the unit that is shown.
pub proof fn law_columns_have_their_headings(
    s: AppState,
    cfg: Config,
    bounds: Area,
    texts: Seq<CellText>,
)
    requires
        layout::fits(bounds),
        bounds.height >= 3,
        bounds.width >= 50,
    ensures
        ({
            let r = result_draws(s, cfg, bounds, texts);
            let width = (bounds.width - 18) / 2;
            let unit = if s.unit is Iops {
                "IOPS"@
            } else {
                "MB/s"@
            };
            &&& r.len() >= 2
            &&& r[0] matches DrawView::Text { x, y, text, .. } && text == "Read ("@ + unit + ")"@
                && y == bounds.y && bounds.x + 17 <= x <= bounds.x + 17 + width
            &&& r[1] matches DrawView::Text { x, y, text, .. } && text == "Write ("@ + unit
                + ")"@ && y == bounds.y && bounds.x + 18 + width <= x <= bounds.x + 18 + 2 * width
        }),
{
    let a = headings(bounds, s.unit);
    reveal_strlit("Read (");
    reveal_strlit("Write (");
    reveal_strlit("MB/s");
    reveal_strlit("IOPS");
    reveal_strlit(")");
    assert(a.len() == 2);
    let r = result_draws(s, cfg, bounds, texts);
    assert(r[0] == a[0] && r[1] == a[1]);
}

/// A latency is shown next to a result in IOPS, and nowhere else.
pub proof fn law_latency_belongs_to_results_in_iops(
    s: AppState,
    bounds: Area,
    x: int,
    cell: Cell,
    len: int,
)
    requires
        x >= 0,
        len >= 0,
    ensures
        latency_at(s, bounds, x, cell, len) is Some ==> s.unit is Iops && app::known(
            s.cells,
            cell,
        ).result is Some,
        latency_at(s, bounds, x, cell, len) matches Some(at) ==> x + 4 < at && at + len + 2
            == number_at(bounds, x),
        s.unit is Iops && app::known(s.cells, cell).result is Some && number_at(bounds, x) > x + len
            + 6 ==> latency_at(s, bounds, x, cell, len) is Some,
{
}

proof fn lemma_separators_have(bounds: Area, n: nat, k: int, x: int)
    requires
        0 <= k < n,
        bounds.y + k < bounds.bottom_at(),
        x == first_rule(bounds) || x == second_rule(bounds),
        x < bounds.right_at(),
    ensures
        separators(bounds, n).contains(
            DrawView::Text {
                x,
                y: bounds.y + k,
                text: "│"@,
                max: bounds.right_at() - x,
                ink: layout::plain(Tone::Border),
            },
        ),
    decreases n,
{
    let ink = layout::plain(Tone::Border);
    let d = DrawView::Text {
        x,
        y: bounds.y + k,
        text: "│"@,
        max: bounds.right_at() - x,
        ink,
    };
    let before = separators(bounds, (n - 1) as nat);
    let y = bounds.y + n - 1;
    let one = layout::put_at(bounds, first_rule(bounds), y, "│"@, ink);
    let two = layout::put_at(bounds, second_rule(bounds), y, "│"@, ink);
    let all = separators(bounds, n);
    assert(all == before + one + two);
    if k < n - 1 {
        lemma_separators_have(bounds, (n - 1) as nat, k, x);
        let j = choose|j: int| 0 <= j < before.len() && before[j] == d;
        assert(all[j] == d);
    } else if x == first_rule(bounds) {
        assert(one == seq![d]);
        assert(all[before.len() as int] == d);
    } else {
        assert(two == seq![d]);
        assert(all[before.len() as int + one.len()] == d);
    }
}

proof fn lemma_rule_has(bounds: Area, y: int, n: nat, k: int)
    requires
        0 <= k < n,
        bounds.x + k < bounds.right_at(),
        y < bounds.bottom_at(),
    ensures
        rule(bounds, y, n).contains(
            DrawView::Text {
                x: bounds.x + k,
                y,
                text: rule_symbol(bounds, bounds.x + k),
                max: bounds.right_at() - (bounds.x + k),
                ink: layout::plain(Tone::Border),
            },
        ),
    decreases n,
{
    let d = DrawView::Text {
        x: bounds.x + k,
        y,
        text: rule_symbol(bounds, bounds.x + k),
        max: bounds.right_at() - (bounds.x + k),
        ink: layout::plain(Tone::Border),
    };
    let before = rule(bounds, y, (n - 1) as nat);
    let all = rule(bounds, y, n);
    if k < n - 1 {
        lemma_rule_has(bounds, y, (n - 1) as nat, k);
        let j = choose|j: int| 0 <= j < before.len() && before[j] == d;
        assert(all[j] == d);
    } else {
        assert(all[before.len() as int] == d);
    }
}

proof fn lemma_rules_have(bounds: Area, n: nat, i: int, d: DrawView)
    requires
        0 <= i < n,
        bounds.y + 1 + 2 * i < bounds.bottom_at(),
        rule(
            bounds,
            bounds.y + 1 + 2 * i,
            (bounds.right_at() - bounds.x) as nat,
        ).contains(d),
    ensures
        rules(bounds, n).contains(d),
    decreases n,
{
    let before = rules(bounds, (n - 1) as nat);
    let all = rules(bounds, n);
    if i < n - 1 {
        lemma_rules_have(bounds, (n - 1) as nat, i, d);
        let j = choose|j: int| 0 <= j < before.len() && before[j] == d;
        assert(all[j] == d);
    } else {
        let one = rule(bounds, bounds.y + 1 + 2 * i, (bounds.right_at() - bounds.x) as nat);
        let j = choose|j: int| 0 <= j < one.len() && one[j] == d;
        assert(all[before.len() + j] == d);
    }
}

/// Rules separate the three columns in every row of the panel, and each task
/// from what is above it, all the way across, with a junction where they meet.
pub proof fn law_rules_separate_columns_and_rows(
    s: AppState,
    cfg: Config,
    bounds: Area,
    texts: Seq<CellText>,
    x: int,
    y: int,
    i: int,
)
    requires
        layout::fits(bounds),
        bounds.height >= 3,
        bounds.width >= 40,
        bounds.x <= x < bounds.right_at(),
        bounds.y <= y < bounds.bottom_at(),
        0 <= i < cfg.tasks@.len(),
    ensures
        ({
            let r = result_draws(s, cfg, bounds, texts);
            let middle = bounds.x + 17 + (bounds.width - 18) / 2;
            let ink = layout::plain(Tone::Border);
            let max = bounds.right_at() - x;
            &&& x == bounds.x + 16 || x == middle ==> r.contains(
                DrawView::Text { x, y, text: "│"@, max, ink },
            )
            &&& y == bounds.y + 1 + 2 * i && (x == bounds.x + 16 || x == middle) ==> r.contains(
                DrawView::Text { x, y, text: "┼"@, max, ink },
            )
            &&& y == bounds.y + 1 + 2 * i && x != bounds.x + 16 && x != middle ==> r.contains(
                DrawView::Text { x, y, text: "─"@, max, ink },
            )
        }),
{
    let n = cfg.tasks@.len();
    let height = (bounds.bottom_at() - bounds.y) as nat;
    let a = headings(bounds, s.unit);
    let b = separators(bounds, height);
    let c = rules(bounds, n);
    let e = rows(s, cfg, bounds, texts, n);
    let r = result_draws(s, cfg, bounds, texts);
    let ink = layout::plain(Tone::Border);
    let max = bounds.right_at() - x;
    assert(r == a + b + c + e);
    if x == first_rule(bounds) || x == second_rule(bounds) {
        lemma_separators_have(bounds, height, y - bounds.y, x);
        let d = DrawView::Text { x, y, text: "│"@, max, ink };
        let j = choose|j: int| 0 <= j < b.len() && b[j] == d;
        assert(r[a.len() + j] == d);
    }
    if y == bounds.y + 1 + 2 * i {
        let d = DrawView::Text { x, y, text: rule_symbol(bounds, x), max, ink };
        lemma_rule_has(bounds, y, (bounds.right_at() - bounds.x) as nat, x - bounds.x);
        lemma_rules_have(bounds, n, i, d);
        let j = choose|j: int| 0 <= j < c.len() && c[j] == d;
        assert(r[a.len() + b.len() + j] == d);
    }
}

} // verus!
