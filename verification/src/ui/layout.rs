//! Where the interactive view puts what: tight bordered panels, per-task
//! read/write rows with ratio bars, a live status footer.
//!
//! Drawing is described, not done: the functions here return what to write
//! where, and the terminal front end writes it.

use vstd::prelude::*;

use crate::measure::Reading;
use crate::ui::palette::Tone;

verus! {

/// Content is capped at this width and horizontally centered beyond it.
pub const MAX_WIDTH: u16 = 100;

/// A rectangle of the terminal.
#[derive(Debug, Clone, Copy, PartialEq, Eq, Structural)]
pub struct Area {
    pub x: u16,
    pub y: u16,
    pub width: u16,
    pub height: u16,
}

/// How a text is written.
#[derive(Debug, Clone, Copy, PartialEq, Eq, Structural)]
pub struct Ink {
    pub tone: Tone,
    pub bold: bool,
}

/// A part of a line.
#[derive(Debug)]
pub struct Span {
    pub text: String,
    pub ink: Ink,
}

/// Something to draw.
#[derive(Debug)]
pub enum Draw {
    /// A text, of which at most `max` columns are written.
    Text { x: u16, y: u16, text: String, max: u16, ink: Ink },
    /// A bar for `value` on a scale that ends at `scale`; nothing is filled
    /// where there is no value or the scale is zero.
    Bar { area: Area, value: Option<Reading>, scale: Reading, dimmed: bool },
}

impl Area {
    /// The first column behind the area.
    pub open spec fn right_at(self) -> int {
        if self.x + self.width <= u16::MAX {
            self.x + self.width
        } else {
            u16::MAX as int
        }
    }

    /// The first row below the area.
    pub open spec fn bottom_at(self) -> int {
        if self.y + self.height <= u16::MAX {
            self.y + self.height
        } else {
            u16::MAX as int
        }
    }

    /// The first column behind the area.
    pub fn right(self) -> (r: u16)
        ensures
            r == self.right_at(),
    {
        if self.width <= u16::MAX - self.x {
            self.x + self.width
        } else {
            u16::MAX
        }
    }

    /// The first row below the area.
    pub fn bottom(self) -> (r: u16)
        ensures
            r == self.bottom_at(),
    {
        if self.height <= u16::MAX - self.y {
            self.y + self.height
        } else {
            u16::MAX
        }
    }
}

/// `a - b`, or zero where `b` is greater.
pub open spec fn less(a: int, b: int) -> int {
    if a >= b {
        a - b
    } else {
        0
    }
}

// ---------------------------------------------------------------------------
// Panels

/// The area inside the border of a panel.
pub open spec fn inside(area: Area) -> Area {
    Area {
        x: if area.x < area.right_at() {
            (area.x + 1) as u16
        } else {
            area.x
        },
        y: if area.y < area.bottom_at() {
            (area.y + 1) as u16
        } else {
            area.y
        },
        width: less(area.width as int, 2) as u16,
        height: less(area.height as int, 2) as u16,
    }
}

/// `ratatui::widgets::Block::inner` of a bordered block: the area without a
/// border of one cell on each side, as far as there is room for it.
#[verifier::external_body]
pub(crate) fn panel_inner(area: Area) -> (r: Area)
    ensures
        r == inside(area),
{
    let Area { x, y, width, height } = area;
    let inner = ratatui::widgets::Block::bordered().inner(
        ratatui::layout::Rect { x, y, width, height },
    );
    Area { x: inner.x, y: inner.y, width: inner.width, height: inner.height }
}

/// The area inside the border of a panel.
pub fn inner(area: Area) -> (r: Area)
    ensures
        r == inside(area),
{
    panel_inner(area)
}

/// Whether three areas are stacked at the top of `content`, as high as asked.
pub open spec fn is_stack(
    r: (Area, Area, Area),
    content: Area,
    first: u16,
    second: u16,
    third: u16,
) -> bool {
    &&& r.0 == (Area { height: first, ..content })
    &&& r.1 == (Area { y: (content.y + first) as u16, height: second, ..content })
    &&& r.2 == (Area { y: (content.y + first + second) as u16, height: third, ..content })
}

/// Whether an area spans the columns of `content` and lies within its rows.
pub open spec fn is_row_of(area: Area, content: Area) -> bool {
    &&& area.x == content.x
    &&& area.width == content.width
    &&& content.y <= area.y
    &&& area.y + area.height <= content.y + content.height
}

/// Whether three areas share out `content` from top to bottom, in order, with
/// no row between them or left over, and none higher than asked.
pub open spec fn shares_out(
    r: (Area, Area, Area),
    content: Area,
    first: u16,
    second: u16,
    third: u16,
) -> bool {
    &&& is_row_of(r.0, content)
    &&& is_row_of(r.1, content)
    &&& is_row_of(r.2, content)
    &&& r.0.y == content.y
    &&& r.0.y + r.0.height == r.1.y
    &&& r.1.y + r.1.height == r.2.y
    &&& r.2.y + r.2.height == content.y + content.height
    &&& r.0.height <= first
    &&& r.1.height <= second
    &&& r.2.height <= third
}

/// `ratatui::layout::Layout::split` of a vertical layout with three `Length`
/// constraints that ask for all the rows of the area or more. The parts share
/// out the area in order: that the gaps ahead of, between and behind them are
/// empty goes before any length, and the lengths go before anything that would
/// grow a part or the gap behind the last, so that no part has more rows than
/// its length while another lacks some. How many rows each part goes without is
/// left to the solver, and nothing is claimed of it.
#[verifier::external_body]
fn split_rows(content: Area, first: u16, second: u16, third: u16) -> (r: (Area, Area, Area))
    requires
        content.y + content.height <= u16::MAX,
        first + second + third >= content.height,
    ensures
        shares_out(r, content, first, second, third),
{
    let Area { x, y, width, height } = content;
    let parts = ratatui::layout::Layout::vertical([first, second, third]).split(
        ratatui::layout::Rect { x, y, width, height },
    );
    let a = |i: usize| Area {
        x: parts[i].x,
        y: parts[i].y,
        width: parts[i].width,
        height: parts[i].height,
    };
    (a(0), a(1), a(2))
}

/// The three panels of the view.
#[derive(Debug, Clone, Copy, PartialEq, Eq, Structural)]
pub struct Panels {
    pub header: Area,
    pub results: Area,
    pub status: Area,
}

/// Rows of the header panel: two lines and the warnings, with the border.
pub open spec fn header_height(warnings: nat) -> nat {
    warnings + 4
}

/// Rows of the results panel: one per task and one for each rule above it, the
/// headings, and the border.
pub open spec fn results_height(tasks: nat) -> nat {
    2 * tasks + 3
}

/// Rows of the status panel.
pub const STATUS_HEIGHT: u16 = 3;

/// The rows that the panels ask for.
#[derive(Debug, Clone, Copy, PartialEq, Eq, Structural)]
pub struct Heights {
    pub header: u16,
    pub results: u16,
    pub status: u16,
}

/// The rows that the panels ask for.
pub fn heights(tasks: usize, warnings: usize) -> (r: Heights)
    requires
        total_height(tasks as nat, warnings as nat) <= u16::MAX,
    ensures
        r.header == header_height(warnings as nat),
        r.results == results_height(tasks as nat),
        r.status == STATUS_HEIGHT,
{
    Heights {
        header: warnings as u16 + 4,
        results: tasks as u16 * 2 + 3,
        status: STATUS_HEIGHT,
    }
}

/// Rows of all panels.
pub open spec fn total_height(tasks: nat, warnings: nat) -> int {
    header_height(warnings) + results_height(tasks) + STATUS_HEIGHT
}

/// The part of the terminal that the view takes.
pub open spec fn content_of(area: Area, tasks: nat, warnings: nat) -> Area {
    let width = if area.width < MAX_WIDTH {
        area.width
    } else {
        MAX_WIDTH
    };
    let total = total_height(tasks, warnings);
    Area {
        x: (area.x + (area.width - width) / 2) as u16,
        y: area.y,
        width,
        height: if total < area.height {
            total as u16
        } else {
            area.height
        },
    }
}

/// Whether an area lies within the terminal's coordinates.
pub open spec fn fits(area: Area) -> bool {
    area.x + area.width <= u16::MAX && area.y + area.height <= u16::MAX
}

/// Divides the terminal into the three panels, one below the other. In a
/// terminal that is high enough each has all its rows; in a lower one they
/// take all there is, none more than its rows.
pub fn panels(area: Area, tasks: usize, warnings: usize) -> (r: Panels)
    requires
        fits(area),
        total_height(tasks as nat, warnings as nat) <= u16::MAX,
    ensures
        ({
            let content = content_of(area, tasks as nat, warnings as nat);
            &&& shares_out(
                (r.header, r.results, r.status),
                content,
                header_height(warnings as nat) as u16,
                results_height(tasks as nat) as u16,
                STATUS_HEIGHT,
            )
            &&& total_height(tasks as nat, warnings as nat) <= area.height ==> is_stack(
                (r.header, r.results, r.status),
                content,
                header_height(warnings as nat) as u16,
                results_height(tasks as nat) as u16,
                STATUS_HEIGHT,
            )
        }),
{
    let width: u16 = if area.width < MAX_WIDTH {
        area.width
    } else {
        MAX_WIDTH
    };
    let rows = heights(tasks, warnings);
    let total: u16 = rows.header + rows.results + rows.status;
    let content = Area {
        x: area.x + (area.width - width) / 2,
        y: area.y,
        width,
        height: if total < area.height {
            total
        } else {
            area.height
        },
    };
    assert(content == content_of(area, tasks as nat, warnings as nat));
    let (header, results, status) = split_rows(
        content,
        rows.header,
        rows.results,
        rows.status,
    );
    Panels { header, results, status }
}

/// The view is centered: what is left of the terminal's width lies on its two
/// sides, to within a column.
pub proof fn law_the_view_is_centered(area: Area, tasks: nat, warnings: nat)
    requires
        fits(area),
    ensures
        ({
            let content = content_of(area, tasks, warnings);
            let left = content.x - area.x;
            let right = area.right_at() - content.right_at();
            &&& content.width <= MAX_WIDTH
            &&& content.width <= area.width
            &&& 0 <= right - left <= 1
        }),
{
}

// ---------------------------------------------------------------------------
// Views

/// A part of a line, with its text as a sequence.
#[verifier::ext_equal]
pub struct SpanView {
    pub text: Seq<char>,
    pub ink: Ink,
}

impl View for Span {
    type V = SpanView;

    open spec fn view(&self) -> SpanView {
        SpanView { text: self.text@, ink: self.ink }
    }
}

/// The views of the parts of a line.
pub open spec fn line_view(v: Seq<Span>) -> Seq<SpanView> {
    Seq::new(v.len(), |i: int| v[i]@)
}

/// The views of a list of lines.
pub open spec fn lines_view(v: Seq<Vec<Span>>) -> Seq<Seq<SpanView>> {
    Seq::new(v.len(), |i: int| line_view(v[i]@))
}

/// Something to draw, with its text as a sequence.
#[verifier::ext_equal]
pub enum DrawView {
    Text { x: int, y: int, text: Seq<char>, max: int, ink: Ink },
    Bar { area: Area, value: Option<Reading>, scale: Reading, dimmed: bool },
}

impl View for Draw {
    type V = DrawView;

    open spec fn view(&self) -> DrawView {
        match self {
            Draw::Text { x, y, text, max, ink } => DrawView::Text {
                x: *x as int,
                y: *y as int,
                text: text@,
                max: *max as int,
                ink: *ink,
            },
            Draw::Bar { area, value, scale, dimmed } => DrawView::Bar {
                area: *area,
                value: *value,
                scale: *scale,
                dimmed: *dimmed,
            },
        }
    }
}

/// The views of a list of things to draw.
pub open spec fn draw_views(v: Seq<Draw>) -> Seq<DrawView> {
    Seq::new(v.len(), |i: int| v[i]@)
}

/// A text in this tone.
pub open spec fn plain(tone: Tone) -> Ink {
    Ink { tone, bold: false }
}

/// A bold text in this tone.
pub open spec fn bold(tone: Tone) -> Ink {
    Ink { tone, bold: true }
}

// ---------------------------------------------------------------------------
// Writing

/// A text at a place, clipped to `bounds`; nothing where it begins outside.
pub open spec fn put_at(bounds: Area, x: int, y: int, s: Seq<char>, ink: Ink) -> Seq<DrawView> {
    if y >= bounds.bottom_at() || x >= bounds.right_at() {
        Seq::empty()
    } else {
        seq![DrawView::Text { x, y, text: s, max: bounds.right_at() - x, ink }]
    }
}

/// Bounds-checked text, clipped to `bounds`.
pub(crate) fn put(out: &mut Vec<Draw>, bounds: Area, x: u128, y: u128, s: &str, tone: Tone, bold: bool)
    ensures
        draw_views(final(out)@) == draw_views(old(out)@) + put_at(
            bounds,
            x as int,
            y as int,
            s@,
            Ink { tone, bold },
        ),
{
    let ghost before = out@;
    let right: u16 = bounds.right();
    if y >= bounds.bottom() as u128 || x >= right as u128 {
        assert(draw_views(before) + Seq::<DrawView>::empty() =~= draw_views(before));
        return;
    }
    let max: u16 = right - x as u16;
    out.push(
        Draw::Text { x: x as u16, y: y as u16, text: s.to_owned(), max, ink: Ink { tone, bold } },
    );
    assert(draw_views(out@) =~= draw_views(before) + put_at(
        bounds,
        x as int,
        y as int,
        s@,
        Ink { tone, bold },
    ));
}

/// In a terminal that is high enough nothing is cut off: inside its border the
/// header has a line for the volume, one for the plan and one for each warning,
/// the results have the headings and, for each task, its row and the rule
/// above it, and the status has a line.
pub proof fn law_every_line_has_its_row(p: Panels, area: Area, tasks: nat, warnings: nat, i: int)
    requires
        fits(area),
        total_height(tasks, warnings) <= area.height,
        is_stack(
            (p.header, p.results, p.status),
            content_of(area, tasks, warnings),
            header_height(warnings) as u16,
            results_height(tasks) as u16,
            STATUS_HEIGHT,
        ),
        0 <= i < tasks,
    ensures
        inside(p.header).height == 2 + warnings,
        inside(p.results).height == 1 + 2 * tasks,
        inside(p.results).y + 2 + 2 * i < inside(p.results).bottom_at(),
        inside(p.status).height == 1,
        p.header.bottom_at() <= p.results.y,
        p.results.bottom_at() <= p.status.y,
        p.status.bottom_at() <= area.bottom_at(),
{
}

/// A text is written where it is put, from there to the right border at most,
/// if it begins inside; else not at all.
pub proof fn law_texts_are_clipped(bounds: Area, x: int, y: int, s: Seq<char>, ink: Ink)
    ensures
        y < bounds.bottom_at() && x < bounds.right_at() ==> put_at(bounds, x, y, s, ink) == seq![
            DrawView::Text { x, y, text: s, max: bounds.right_at() - x, ink },
        ],
        y >= bounds.bottom_at() || x >= bounds.right_at() ==> put_at(bounds, x, y, s, ink)
            == Seq::<DrawView>::empty(),
{
}

/// A border takes one cell on each side of a panel that has room for it.
pub proof fn law_borders_take_one_cell(area: Area)
    requires
        fits(area),
        area.width >= 2,
        area.height >= 2,
    ensures
        inside(area).x == area.x + 1,
        inside(area).y == area.y + 1,
        inside(area).right_at() == area.right_at() - 1,
        inside(area).bottom_at() == area.bottom_at() - 1,
{
}

/// The view takes the whole width of the terminal up to a hundred columns, and
/// the rows that it needs as far as there are any, from the top.
pub proof fn law_the_view_takes_what_it_needs(area: Area, tasks: nat, warnings: nat)
    requires
        fits(area),
    ensures
        ({
            let content = content_of(area, tasks, warnings);
            &&& content.y == area.y
            &&& area.width <= 100 ==> content.width == area.width && content.x == area.x
            &&& area.width > 100 ==> content.width == 100
            &&& 2 * tasks + warnings + 10 <= area.height ==> content.height == 2 * tasks + warnings
                + 10
            &&& 2 * tasks + warnings + 10 > area.height ==> content.height == area.height
        }),
{
}

} // verus!
