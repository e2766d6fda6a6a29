//! The header and the status panel of the interactive view, line by line.

use vstd::prelude::*;

use crate::disk;
use crate::disk::{human_bytes, DiskInfo};
use crate::duration::Duration;
use crate::runner::{Cell, Config, Phase};
use crate::text;
use crate::text::{chars_of, push_decimal};
use crate::ui::app;
use crate::ui::app::{Activity, ActivityView, App, AppState};
use crate::ui::layout;
use crate::ui::layout::{Area, Draw, DrawView, Ink, Span, SpanView};
use crate::ui::palette::Tone;
use crate::ui::shape;
use crate::ui::shape::{fmt_dur, pad_left, shorten_path, truncate};
use crate::ui::Outcome;

verus! {

/// A part of a line.
pub open spec fn part(s: Seq<char>, tone: Tone) -> SpanView {
    SpanView { text: s, ink: layout::plain(tone) }
}

/// A bold part of a line.
pub open spec fn bold_part(s: Seq<char>, tone: Tone) -> SpanView {
    SpanView { text: s, ink: layout::bold(tone) }
}

fn span(s: String, tone: Tone) -> (r: Span)
    ensures
        r@ == part(s@, tone),
{
    Span { text: s, ink: Ink { tone, bold: false } }
}

fn bold_span(s: String, tone: Tone) -> (r: Span)
    ensures
        r@ == bold_part(s@, tone),
{
    Span { text: s, ink: Ink { tone, bold: true } }
}

fn one(a: Span) -> (r: Vec<Span>)
    ensures
        layout::line_view(r@) == seq![a@],
{
    let mut line: Vec<Span> = Vec::new();
    line.push(a);
    assert(layout::line_view(line@) =~= seq![a@]);
    line
}

fn two(a: Span, b: Span) -> (r: Vec<Span>)
    ensures
        layout::line_view(r@) == seq![a@, b@],
{
    let mut line: Vec<Span> = Vec::new();
    line.push(a);
    line.push(b);
    assert(layout::line_view(line@) =~= seq![a@, b@]);
    line
}

fn three(a: Span, b: Span, c: Span) -> (r: Vec<Span>)
    ensures
        layout::line_view(r@) == seq![a@, b@, c@],
{
    let mut line: Vec<Span> = Vec::new();
    line.push(a);
    line.push(b);
    line.push(c);
    assert(layout::line_view(line@) =~= seq![a@, b@, c@]);
    line
}

// ---------------------------------------------------------------------------
// Header

/// The title of the header panel.
pub open spec fn title_text(version: Seq<char>) -> Seq<char> {
    " iomark "@ + version + " "@
}

/// The title of the header panel.
pub fn title(version: &str) -> (r: String)
    ensures
        r@ == title_text(version@),
{
    let mut out = " iomark ".to_owned();
    out.append(version);
    out.append(" ");
    out
}

/// The line on the volume under test, in `width` columns. The identity is
/// squeezed so the capacity facts always stay visible.
pub open spec fn disk_parts(d: DiskInfo, width: int) -> Seq<SpanView> {
    let free = disk::human_text(d.available as nat);
    let total = disk::human_text(d.total as nat);
    let room = layout::less(width, 19int + free.len() + total.len());
    seq![
        part("disk "@, Tone::Dim),
        part(shape::truncated(d.label_text(), room as nat), Tone::Text),
        part("  ·  "@, Tone::Dim),
        part(free, Tone::Text),
        part(" free of "@, Tone::Dim),
        part(total, Tone::Text),
    ]
}

fn disk_line(d: &DiskInfo, width: usize) -> (r: Vec<Span>)
    ensures
        layout::line_view(r@) == disk_parts(*d, width as int),
{
    let free = human_bytes(d.available);
    let total = human_bytes(d.total);
    let free_len: u128 = chars_of(free.as_str()).len() as u128;
    let total_len: u128 = chars_of(total.as_str()).len() as u128;
    let fixed: u128 = 19 + free_len + total_len;
    let room: usize = if width as u128 >= fixed {
        (width as u128 - fixed) as usize
    } else {
        0
    };
    let mut line: Vec<Span> = Vec::new();
    line.push(span("disk ".to_owned(), Tone::Dim));
    line.push(span(truncate(d.label().as_str(), room), Tone::Text));
    line.push(span("  ·  ".to_owned(), Tone::Dim));
    line.push(span(free, Tone::Text));
    line.push(span(" free of ".to_owned(), Tone::Dim));
    line.push(span(total, Tone::Text));
    assert(layout::line_view(line@) =~= disk_parts(*d, width as int));
    line
}

/// The columns that a line takes.
pub open spec fn line_len(parts: Seq<SpanView>) -> nat
    decreases parts.len(),
{
    if parts.len() == 0 {
        0
    } else {
        line_len(parts.drop_last()) + parts.last().text.len()
    }
}

/// However long the identity of a volume is, its free and its total space stay
/// visible, in a panel with room for them and an ellipsis.
pub proof fn law_capacity_stays_visible(d: DiskInfo, width: int)
    requires
        width > 19 + disk::human_text(d.available as nat).len() + disk::human_text(
            d.total as nat,
        ).len(),
    ensures
        line_len(disk_parts(d, width)) <= width,
{
    reveal_strlit("disk ");
    reveal_strlit("  ·  ");
    reveal_strlit(" free of ");
    reveal_with_fuel(line_len, 7);
    let parts = disk_parts(d, width);
    let a = parts.drop_last();
    let b = a.drop_last();
    let c = b.drop_last();
    let e = c.drop_last();
    assert(a.last() == parts[4] && b.last() == parts[3] && c.last() == parts[2]);
    assert(e.last() == parts[1] && e.drop_last().last() == parts[0]);
}

/// The line on the target directory, where the volume is not known.
pub open spec fn target_parts(target: Seq<char>, width: int) -> Seq<SpanView> {
    seq![
        part("target "@, Tone::Dim),
        part(shape::shortened(target, layout::less(width, 8) as nat), Tone::Text),
    ]
}

/// The seconds of the session's durations with one decimal, for those that are
/// not whole.
#[derive(Debug)]
pub struct Times {
    pub duration: String,
    pub warmup: String,
    pub interval: String,
}

/// The line on the plan.
pub open spec fn plan_text(cfg: Config, times: Times) -> Seq<char> {
    "file "@ + disk::human_text(cfg.size as nat) + "  ·  "@ + text::decimal(cfg.runs as nat)
        + " runs × "@ + shape::dur_text(cfg.duration, times.duration@) + "  ·  warmup "@
        + shape::dur_text(cfg.warmup, times.warmup@) + "  ·  interval "@ + shape::dur_text(
        cfg.interval,
        times.interval@,
    )
}

fn plan_line(cfg: &Config, times: &Times) -> (r: String)
    ensures
        r@ == plan_text(*cfg, *times),
{
    let mut out = "file ".to_owned();
    out.append(human_bytes(cfg.size).as_str());
    out.append("  ·  ");
    push_decimal(&mut out, cfg.runs as u128);
    out.append(" runs × ");
    out.append(fmt_dur(cfg.duration, times.duration.as_str()).as_str());
    out.append("  ·  warmup ");
    out.append(fmt_dur(cfg.warmup, times.warmup.as_str()).as_str());
    out.append("  ·  interval ");
    out.append(fmt_dur(cfg.interval, times.interval.as_str()).as_str());
    out
}

/// The line on a warning.
pub open spec fn warning_parts(warning: Seq<char>, width: int) -> Seq<SpanView> {
    seq![part(shape::truncated("⚠ "@ + warning, width as nat), Tone::Warn)]
}

/// The lines of the header panel, in `width` columns.
pub open spec fn header_parts(
    width: int,
    disk: Option<&DiskInfo>,
    cfg: Config,
    warnings: Seq<Seq<char>>,
    times: Times,
) -> Seq<Seq<SpanView>> {
    let first = match disk {
        Some(d) => disk_parts(*d, width),
        None => target_parts(cfg.target@, width),
    };
    seq![first, seq![part(plan_text(cfg, times), Tone::Dim)]] + warnings.map_values(
        |w: Seq<char>| warning_parts(w, width),
    )
}

/// The lines of the header panel, in `width` columns.
pub fn header_lines(
    width: u16,
    disk: Option<&DiskInfo>,
    cfg: &Config,
    warnings: &Vec<String>,
    times: &Times,
) -> (r: Vec<Vec<Span>>)
    ensures
        layout::lines_view(r@) == header_parts(
            width as int,
            disk,
            *cfg,
            text::texts(warnings@),
            *times,
        ),
{
    let columns: usize = width as usize;
    let first = match disk {
        Some(d) => disk_line(d, columns),
        None => {
            let room: usize = if columns >= 8 {
                columns - 8
            } else {
                0
            };
            two(
                span("target ".to_owned(), Tone::Dim),
                span(shorten_path(cfg.target.as_str(), room), Tone::Text),
            )
        },
    };
    let mut lines: Vec<Vec<Span>> = Vec::new();
    lines.push(first);
    lines.push(one(span(plan_line(cfg, times), Tone::Dim)));
    let ghost all = header_parts(width as int, disk, *cfg, text::texts(warnings@), *times);
    let mut i: usize = 0;
    assert(layout::lines_view(lines@) =~= all.take(2));
    while i < warnings.len()
        invariant
            i <= warnings.len(),
            columns == width,
            all.len() == 2 + warnings@.len(),
            layout::lines_view(lines@) == all.take(2 + i),
            forall|j: int|
                0 <= j < warnings@.len() ==> all[2 + j] == warning_parts(
                    #[trigger] warnings@[j]@,
                    width as int,
                ),
        decreases warnings.len() - i,
    {
        let ghost before = lines@;
        let mut warning = "⚠ ".to_owned();
        warning.append(warnings[i].as_str());
        lines.push(one(span(truncate(warning.as_str(), columns), Tone::Warn)));
        proof {
            assert(all[2 + i] == warning_parts(warnings@[i as int]@, width as int));
            assert(layout::lines_view(lines@) =~= layout::lines_view(before).push(all[2 + i]));
            assert(all.take(2 + i + 1) =~= all.take(2 + i).push(all[2 + i]));
        }
        i += 1;
    }
    assert(all.take(2 + i) =~= all);
    lines
}

// ---------------------------------------------------------------------------
// Status

/// A cell in words.
pub open spec fn cell_text(cfg: Config, cell: Cell) -> Seq<char> {
    cfg.tasks@[cell.task as int].label_text() + " "@ + cell.op.name_text()
}

fn cell_name(cfg: &Config, cell: Cell) -> (r: String)
    requires
        cell.task < cfg.tasks@.len(),
    ensures
        r@ == cell_text(*cfg, cell),
{
    let mut out = cfg.tasks[cell.task].to_string();
    out.append(" ");
    out.append(cell.op.name());
    out
}

/// A phase in words.
pub open spec fn phase_text(phase: Option<Phase>) -> Seq<char> {
    match phase {
        Some(Phase::Warmup) => " · warmup"@,
        Some(Phase::Measuring { run, total }) => " · run "@ + text::decimal(run as nat) + "/"@
            + text::decimal(total as nat),
        None => Seq::empty(),
    }
}

fn phase_name(phase: Option<Phase>) -> (r: String)
    ensures
        r@ == phase_text(phase),
{
    match phase {
        Some(Phase::Warmup) => " · warmup".to_owned(),
        Some(Phase::Measuring { run, total }) => {
            let mut out = " · run ".to_owned();
            push_decimal(&mut out, run as u128);
            out.append("/");
            push_decimal(&mut out, total as u128);
            out
        },
        None => String::new(),
    }
}

/// Whether the current activity, if it is about a cell, is about one of `cfg`.
pub open spec fn is_about(s: AppState, cfg: Config) -> bool {
    match s.activity {
        ActivityView::Cooldown { next, .. } => next.task < cfg.tasks@.len(),
        ActivityView::Running { cell } => cell.task < cfg.tasks@.len(),
        _ => true,
    }
}

/// The status line.
pub open spec fn status_parts(s: AppState, cfg: Config) -> Seq<SpanView> {
    if s.failure is Some {
        seq![part("error: "@ + s.failure->0, Tone::Error)]
    } else if s.outcome == Some(Outcome::Finished) {
        seq![bold_part("complete — press Q to exit"@, Tone::Title)]
    } else if s.outcome == Some(Outcome::Aborted) {
        seq![part("aborted"@, Tone::Warn)]
    } else {
        match s.activity {
            ActivityView::Idle => seq![part("starting…"@, Tone::Dim)],
            ActivityView::Preparing => seq![
                part("preparing test file "@, Tone::Text),
                part("("@ + disk::human_text(cfg.size as nat) + ")"@, Tone::Dim),
            ],
            ActivityView::Cooldown { next, remaining } => seq![
                part("next "@, Tone::Dim),
                part(cell_text(cfg, next), Tone::Text),
                part(
                    " in "@ + text::decimal(remaining / 1_000_000_000 + 1) + "s"@,
                    Tone::Dim,
                ),
            ],
            ActivityView::Running { cell } => seq![
                bold_part("▶ "@, Tone::Live),
                part(cell_text(cfg, cell), Tone::Text),
                part(phase_text(app::known(s.cells, cell).phase), Tone::Dim),
            ],
        }
    }
}

/// The status line.
pub fn status_line(app: &App, cfg: &Config) -> (r: Vec<Span>)
    requires
        app.wf(),
        is_about(app@, *cfg),
    ensures
        layout::line_view(r@) == status_parts(app@, *cfg),
{
    match &app.failure {
        Some(failure) => {
            let mut message = "error: ".to_owned();
            message.append(failure.as_str());
            return one(span(message, Tone::Error));
        },
        None => {},
    }
    match app.outcome {
        Some(Outcome::Finished) => {
            return one(bold_span("complete — press Q to exit".to_owned(), Tone::Title));
        },
        Some(Outcome::Aborted) => return one(span("aborted".to_owned(), Tone::Warn)),
        _ => {},
    }
    match app.activity {
        Activity::Idle => one(span("starting…".to_owned(), Tone::Dim)),
        Activity::Preparing => {
            let mut size = "(".to_owned();
            size.append(human_bytes(cfg.size).as_str());
            size.append(")");
            two(span("preparing test file ".to_owned(), Tone::Text), span(size, Tone::Dim))
        },
        Activity::Cooldown { next, remaining } => {
            let mut time = " in ".to_owned();
            push_decimal(&mut time, remaining.as_secs() as u128 + 1);
            time.append("s");
            three(
                span("next ".to_owned(), Tone::Dim),
                span(cell_name(cfg, next), Tone::Text),
                span(time, Tone::Dim),
            )
        },
        Activity::Running { cell } => {
            let phase = match app.cell(cell) {
                Some(v) => v.phase,
                None => None,
            };
            three(
                bold_span("▶ ".to_owned(), Tone::Live),
                span(cell_name(cfg, cell), Tone::Text),
                span(phase_name(phase), Tone::Dim),
            )
        },
    }
}

/// The hints on the lower border of the status panel.
pub open spec fn key_parts() -> Seq<SpanView> {
    seq![
        bold_part(" K "@, Tone::Title),
        part("unit "@, Tone::Dim),
        bold_part(" Q "@, Tone::Title),
        part("quit "@, Tone::Dim),
    ]
}

/// The hints on the lower border of the status panel.
pub fn key_hints() -> (r: Vec<Span>)
    ensures
        layout::line_view(r@) == key_parts(),
{
    let mut line: Vec<Span> = Vec::new();
    line.push(bold_span(" K ".to_owned(), Tone::Title));
    line.push(span("unit ".to_owned(), Tone::Dim));
    line.push(bold_span(" Q ".to_owned(), Tone::Title));
    line.push(span("quit ".to_owned(), Tone::Dim));
    assert(layout::line_view(line@) =~= key_parts());
    line
}

/// Minutes and seconds left, the seconds in two digits.
pub open spec fn eta_text(secs: nat) -> Seq<char> {
    " · ~"@ + text::decimal(secs / 60) + ":"@ + text::decimal((secs % 60) / 10) + text::decimal(
        secs % 10,
    ) + " left"@
}

/// What stands behind the progress bar: the percentage, shown as `percent`,
/// right-aligned in three columns, and the time left where it is known.
pub open spec fn tail_text(percent: Seq<char>, eta: Option<nat>) -> Seq<char> {
    let head = " "@ + shape::padded(percent, 3) + "%"@;
    match eta {
        Some(nanos) => head + eta_text(nanos / 1_000_000_000),
        None => head,
    }
}

fn tail(percent: &str, eta: Option<Duration>) -> (r: String)
    ensures
        r@ == tail_text(
            percent@,
            match eta {
                Some(d) => Some(d@),
                None => None,
            },
        ),
{
    let mut out = " ".to_owned();
    out.append(pad_left(percent, 3).as_str());
    out.append("%");
    match eta {
        Some(d) => {
            let secs: u64 = d.as_secs();
            out.append(" · ~");
            push_decimal(&mut out, (secs / 60) as u128);
            out.append(":");
            push_decimal(&mut out, ((secs % 60) / 10) as u128);
            push_decimal(&mut out, (secs % 10) as u128);
            out.append(" left");
            assert(out@ =~= tail_text(percent@, Some(d@)));
        },
        None => {},
    }
    out
}

/// Where the parts of the status panel go.
#[derive(Debug)]
pub struct Status {
    /// The status line.
    pub left: Area,
    /// The overall progress bar, where there is room for it and the session
    /// goes on.
    pub bar: Option<Area>,
    /// What stands behind the bar.
    pub tail: Option<Draw>,
}

/// Columns for the progress at the right: none in a narrow panel.
pub open spec fn right_width(bounds: Area) -> int {
    if bounds.width >= 64 {
        36
    } else {
        0
    }
}

/// Where the status line goes.
pub open spec fn left_area(bounds: Area) -> Area {
    Area {
        x: if bounds.x < u16::MAX {
            (bounds.x + 1) as u16
        } else {
            bounds.x
        },
        y: bounds.y,
        width: layout::less(bounds.width as int, right_width(bounds) + 2) as u16,
        height: 1,
    }
}

/// Where the progress bar goes.
pub open spec fn bar_area(bounds: Area) -> Area {
    Area { x: (bounds.right_at() - 36) as u16, y: bounds.y, width: 16, height: 1 }
}

/// The view of an optional thing to draw.
pub open spec fn drawn(d: Option<Draw>) -> Seq<DrawView> {
    match d {
        Some(d) => seq![d@],
        None => Seq::empty(),
    }
}

/// Where the parts of the status panel go whose border is around `bounds`, the
/// percentage being shown as `percent`; `None` where there is no room at all.
pub fn draw_status(bounds: Area, app: &App, percent: &str, elapsed: Duration) -> (r: Option<Status>)
    requires
        layout::fits(bounds),
    ensures
        match r {
            Some(status) => {
                let shows = bounds.width >= 64 && app@.outcome is None;
                let eta = if !app@.bench_started {
                    None
                } else if app@.planned >= elapsed@ {
                    Some((app@.planned - elapsed@) as nat)
                } else {
                    Some(0nat)
                };
                &&& bounds.height > 0
                &&& status.left == left_area(bounds)
                &&& status.bar == if shows {
                    Some(bar_area(bounds))
                } else {
                    None
                }
                &&& drawn(status.tail) == if shows {
                    layout::put_at(
                        bounds,
                        bounds.right_at() - 20,
                        bounds.y as int,
                        tail_text(percent@, eta),
                        layout::plain(Tone::Dim),
                    )
                } else {
                    Seq::empty()
                }
            },
            None => bounds.height == 0,
        },
{
    if bounds.height == 0 {
        return None;
    }
    // Right side: overall progress bar + percentage + ETA.
    let right_w: u16 = if bounds.width >= 64 {
        36
    } else {
        0
    };
    let left = Area {
        x: if bounds.x < u16::MAX {
            bounds.x + 1
        } else {
            bounds.x
        },
        y: bounds.y,
        width: if bounds.width >= right_w + 2 {
            bounds.width - (right_w + 2)
        } else {
            0
        },
        height: 1,
    };
    if right_w == 0 || app.outcome.is_some() {
        return Some(Status { left, bar: None, tail: None });
    }
    let right: u16 = bounds.right();
    let bar = Area { x: right - 36, y: bounds.y, width: 16, height: 1 };
    let label = tail(percent, app.eta(elapsed));
    let max: u16 = 20;
    let text = Draw::Text {
        x: right - 20,
        y: bounds.y,
        text: label,
        max,
        ink: Ink { tone: Tone::Dim, bold: false },
    };
    Some(Status { left, bar: Some(bar), tail: Some(text) })
}

// ---------------------------------------------------------------------------
// Laws

/// A failure is shown before anything else, with its message; then the end of
/// the session; while it goes on, what goes on: the preparation with the size
/// of the file, a pause with the cell that is next and the seconds until then,
/// counted up, or a run with its cell and its phase.
pub proof fn law_the_status_says_what_goes_on(s: AppState, cfg: Config)
    ensures
        ({
            let r = status_parts(s, cfg);
            let quiet = s.failure is None && s.outcome is None;
            &&& s.failure matches Some(message) ==> r == seq![
                part("error: "@ + message, Tone::Error),
            ]
            &&& s.failure is None && s.outcome == Some(Outcome::Finished) ==> r == seq![
                bold_part("complete — press Q to exit"@, Tone::Title),
            ]
            &&& s.failure is None && s.outcome == Some(Outcome::Aborted) ==> r == seq![
                part("aborted"@, Tone::Warn),
            ]
            &&& quiet && s.activity is Idle ==> r == seq![part("starting…"@, Tone::Dim)]
            &&& quiet && s.activity is Preparing ==> {
                &&& r.len() == 2
                &&& r[0].text == "preparing test file "@
                &&& r[1].text == "("@ + disk::human_text(cfg.size as nat) + ")"@
            }
            &&& quiet ==> (s.activity matches ActivityView::Cooldown { next, remaining } ==> {
                &&& r.len() == 3
                &&& r[0].text == "next "@
                &&& r[1].text == cell_text(cfg, next)
                &&& r[2].text == " in "@ + text::decimal(remaining / 1_000_000_000 + 1) + "s"@
            })
            &&& quiet ==> (s.activity matches ActivityView::Running { cell } ==> {
                &&& r.len() == 3
                &&& r[0].text == "▶ "@
                &&& r[1].text == cell_text(cfg, cell)
                &&& app::known(s.cells, cell).phase == Some(Phase::Warmup) ==> r[2].text
                    == " · warmup"@
                &&& app::known(s.cells, cell).phase matches Some(
                    Phase::Measuring { run, total },
                ) ==> r[2].text == " · run "@ + text::decimal(run as nat) + "/"@ + text::decimal(
                    total as nat,
                )
                &&& app::known(s.cells, cell).phase is None ==> r[2].text.len() == 0
            })
        }),
{
}

/// A cell goes by the label of its task and its direction.
pub proof fn law_a_cell_goes_by_its_task(cfg: Config, cell: Cell)
    requires
        cell.task < cfg.tasks@.len(),
    ensures
        cell.op is Read ==> cell_text(cfg, cell) == cfg.tasks@[cell.task as int].label_text()
            + " "@ + "read"@,
        cell.op is Write ==> cell_text(cfg, cell) == cfg.tasks@[cell.task as int].label_text()
            + " "@ + "write"@,
{
}

/// The header shows the volume, whole where there is room and with its free and
/// its total space, or else the target directory; then the plan; then each
/// warning, in order.
pub proof fn law_the_header_shows_volume_plan_and_warnings(
    width: int,
    disk: Option<&DiskInfo>,
    cfg: Config,
    warnings: Seq<Seq<char>>,
    times: Times,
    i: int,
)
    requires
        width >= 0,
        0 <= i < warnings.len(),
    ensures
        ({
            let r = header_parts(width, disk, cfg, warnings, times);
            &&& r.len() == 2 + warnings.len()
            &&& disk matches Some(d) ==> {
                let free = disk::human_text(d.available as nat);
                let total = disk::human_text(d.total as nat);
                &&& r[0].len() == 6
                &&& r[0][0].text == "disk "@
                &&& d.label_text().len() + 19 + free.len() + total.len() <= width ==> r[0][1].text
                    == d.label_text()
                &&& d.label_text().len() + 19 + free.len() + total.len() > width > 19 + free.len()
                    + total.len() ==> {
                    let room = width - 19 - free.len() - total.len();
                    &&& r[0][1].text.len() == room
                    &&& r[0][1].text.drop_last() == d.label_text().take(room - 1)
                }
                &&& r[0][3].text == free
                &&& r[0][4].text == " free of "@
                &&& r[0][5].text == total
            }
            &&& disk is None ==> {
                &&& r[0].len() == 2
                &&& r[0][0].text == "target "@
                &&& cfg.target@.len() + 8 <= width ==> r[0][1].text == cfg.target@
                &&& width >= 8 ==> r[0][1].text.len() <= width - 8
            }
            &&& r[1].len() == 1
            &&& r[1][0].text == plan_text(cfg, times)
            &&& r[2 + i].len() == 1
            &&& r[2 + i][0].ink.tone is Warn
            &&& ("⚠ "@ + warnings[i]).len() <= width ==> r[2 + i][0].text == "⚠ "@ + warnings[i]
        }),
{
    let r = header_parts(width, disk, cfg, warnings, times);
    assert(r[2 + i] == warning_parts(warnings[i], width));
    if let Some(d) = disk {
        let free = disk::human_text(d.available as nat);
        let total = disk::human_text(d.total as nat);
        let room = width - 19 - free.len() - total.len();
        if 0 < room < d.label_text().len() {
            shape::law_fitted_texts_fit(d.label_text(), room as nat);
            shape::law_cut_texts_keep_their_part(d.label_text(), room as nat);
        }
    }
    if disk is None && width >= 8 {
        shape::law_fitted_texts_fit(cfg.target@, (width - 8) as nat);
    }
}

/// The plan states the size of the file, the number of runs and the duration of
/// each, of the warmup and of the pause, each as its own.
pub proof fn law_the_plan_states_the_settings(
    cfg: Config,
    times: Times,
    duration: nat,
    warmup: nat,
    interval: nat,
)
    requires
        cfg.duration@ == duration * 1_000_000_000,
        cfg.warmup@ == warmup * 1_000_000_000,
        cfg.interval@ == interval * 1_000_000_000,
    ensures
        plan_text(cfg, times) == "file "@ + disk::human_text(cfg.size as nat) + "  ·  "@
            + text::decimal(cfg.runs as nat) + " runs × "@ + (text::decimal(duration) + "s"@)
            + "  ·  warmup "@ + (text::decimal(warmup) + "s"@) + "  ·  interval "@ + (
        text::decimal(interval) + "s"@),
{
    shape::law_whole_seconds_are_shown_as_they_are(cfg.duration, duration, times.duration@);
    shape::law_whole_seconds_are_shown_as_they_are(cfg.warmup, warmup, times.warmup@);
    shape::law_whole_seconds_are_shown_as_they_are(cfg.interval, interval, times.interval@);
}

/// The time left is shown in minutes and seconds, the seconds always in two
/// digits.
pub proof fn law_time_left_is_minutes_and_seconds(minutes: nat, tens: nat, ones: nat)
    requires
        tens < 6,
        ones < 10,
    ensures
        eta_text(60 * minutes + 10 * tens + ones) == " · ~"@ + text::decimal(minutes) + ":"@
            + text::decimal(tens) + text::decimal(ones) + " left"@,
{
}

/// Behind the bar stands the percentage, in three columns at least, and the
/// whole seconds that are left where they are known.
pub proof fn law_the_tail_shows_percent_and_time(percent: Seq<char>, nanos: nat)
    ensures
        tail_text(percent, None) == " "@ + shape::padded(percent, 3) + "%"@,
        tail_text(percent, Some(nanos)) == tail_text(percent, None) + eta_text(
            nanos / 1_000_000_000,
        ),
{
}

/// The parts of the status panel lie side by side, inside it: the line, the
/// bar, and what stands behind it.
pub proof fn law_status_parts_do_not_overlap(bounds: Area)
    requires
        layout::fits(bounds),
        bounds.height > 0,
    ensures
        left_area(bounds).y == bounds.y,
        left_area(bounds).right_at() <= bounds.right_at() || bounds.width < 2,
        bounds.width >= 64 ==> {
            &&& left_area(bounds).right_at() < bar_area(bounds).x
            &&& bar_area(bounds).y == bounds.y
            &&& bar_area(bounds).width == 16
            &&& bar_area(bounds).right_at() == bounds.right_at() - 20
        },
{
}

/// The title names the program and its version; the hints name the keys.
pub proof fn law_title_and_hints(version: Seq<char>)
    ensures
        title_text(version) == " iomark "@ + version + " "@,
        key_parts().len() == 4,
        key_parts()[0].text + key_parts()[1].text == " K "@ + "unit "@,
        key_parts()[2].text + key_parts()[3].text == " Q "@ + "quit "@,
{
}

} // verus!
