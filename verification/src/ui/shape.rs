//! Numbers and texts as the interactive view shows them.

use vstd::prelude::*;
use vstd::slice::slice_subrange;

use crate::cli::Unit;
use crate::duration::Duration;
use crate::measure::Reading;
use crate::text;
use crate::text::{chars_of, decimal_string, string_of};

verus! {

/// The bits of 10000 as a measured number.
pub const TEN_THOUSAND_BITS: u64 = 0x40c3_8800_0000_0000;

/// The bits of 1000 as a measured number.
pub const THOUSAND_BITS: u64 = 0x408f_4000_0000_0000;

/// How many decimals a value is shown with: none from 10000 up, else two in
/// MB/s and one in IOPS.
pub fn value_decimals(unit: Unit, value: Reading) -> (r: u8)
    ensures
        r == (if value.is_number() && value.place >= Reading::place_of(TEN_THOUSAND_BITS) {
            0u8
        } else {
            match unit {
                Unit::MegabytesPerSec => 2,
                Unit::Iops => 1,
            }
        }),
{
    if value.at_least(Reading::from_bits(TEN_THOUSAND_BITS)) {
        0
    } else {
        match unit {
            Unit::MegabytesPerSec => 2,
            Unit::Iops => 1,
        }
    }
}

/// Whether a latency in microseconds is shown in milliseconds: from 1000 up.
pub open spec fn in_millis(lat_us: Reading) -> bool {
    lat_us.is_number() && lat_us.place >= Reading::place_of(THOUSAND_BITS)
}

/// How a latency is shown.
#[derive(Debug, Clone, Copy, PartialEq, Eq, Structural)]
pub struct LatencyForm {
    /// Whether in milliseconds rather than microseconds.
    pub millis: bool,
    pub decimals: u8,
}

/// How a latency in microseconds is shown: from 1000 up in milliseconds with
/// two decimals, else as it is with one.
pub fn latency_form(lat_us: Reading) -> (r: LatencyForm)
    ensures
        r.millis == in_millis(lat_us),
        r.decimals == (if in_millis(lat_us) {
            2u8
        } else {
            1
        }),
{
    if lat_us.at_least(Reading::from_bits(THOUSAND_BITS)) {
        LatencyForm { millis: true, decimals: 2 }
    } else {
        LatencyForm { millis: false, decimals: 1 }
    }
}

/// A latency whose number is shown as `number`, with its unit.
pub open spec fn latency_text(lat_us: Reading, number: Seq<char>) -> Seq<char> {
    if in_millis(lat_us) {
        number + " ms"@
    } else {
        number + " µs"@
    }
}

/// A latency whose number is shown as `number`, with its unit.
pub fn fmt_latency(lat_us: Reading, number: &str) -> (r: String)
    ensures
        r@ == latency_text(lat_us, number@),
{
    let mut out = number.to_owned();
    if latency_form(lat_us).millis {
        out.append(" ms");
    } else {
        out.append(" µs");
    }
    out
}

/// A duration: whole seconds as they are, any other as `tenths`, its seconds
/// with one decimal.
pub open spec fn dur_text(d: Duration, tenths: Seq<char>) -> Seq<char> {
    if d@ % 1_000_000_000 == 0 {
        text::decimal(d@ / 1_000_000_000) + "s"@
    } else {
        tenths + "s"@
    }
}

/// A duration: whole seconds as they are, any other as `tenths`, its seconds
/// with one decimal.
pub fn fmt_dur(d: Duration, tenths: &str) -> (r: String)
    ensures
        r@ == dur_text(d, tenths@),
{
    if d.subsec_nanos() == 0 {
        let mut out = decimal_string(d.as_secs() as u128);
        out.append("s");
        out
    } else {
        let mut out = tenths.to_owned();
        out.append("s");
        out
    }
}

/// `s` cut to `width` characters, the last an ellipsis where some are cut off;
/// where there is no room at all, the ellipsis alone.
pub open spec fn truncated(s: Seq<char>, width: nat) -> Seq<char> {
    if s.len() <= width {
        s
    } else if width == 0 {
        seq!['…']
    } else {
        s.take(width - 1).push('…')
    }
}

/// Char-aware truncation with an ellipsis.
pub fn truncate(s: &str, width: usize) -> (r: String)
    ensures
        r@ == truncated(s@, width as nat),
{
    let chars = chars_of(s);
    if chars.len() <= width {
        return s.to_owned();
    }
    let kept: usize = if width == 0 {
        0
    } else {
        width - 1
    };
    let mut out = string_of(slice_subrange(chars.as_slice(), 0, kept));
    out.push('…');
    assert(out@ =~= truncated(s@, width as nat));
    out
}

/// `s` in at most `max` characters, with an ellipsis for what is cut off ahead
/// of its tail.
pub open spec fn shortened(s: Seq<char>, max: nat) -> Seq<char> {
    if s.len() <= max {
        s
    } else if max == 0 {
        Seq::empty()
    } else {
        seq!['…'] + s.skip(s.len() + 1 - max)
    }
}

/// Fits a path into `max` chars, keeping the (more informative) tail.
pub fn shorten_path(path: &str, max: usize) -> (r: String)
    ensures
        r@ == shortened(path@, max as nat),
{
    let chars = chars_of(path);
    let count: usize = chars.len();
    if count <= max {
        return path.to_owned();
    }
    let mut out = String::new();
    if max > 0 {
        out.push('…');
        out.append(string_of(slice_subrange(chars.as_slice(), count - (max - 1), count)).as_str());
    }
    assert(out@ =~= shortened(path@, max as nat));
    out
}

/// A path that is fitted into a width fits it, and so does any other text,
/// unless there is no room even for the ellipsis. What has room is kept whole,
/// and what has not takes all the room.
pub proof fn law_fitted_texts_fit(s: Seq<char>, width: nat)
    ensures
        shortened(s, width).len() <= width,
        width > 0 ==> truncated(s, width).len() <= width,
        s.len() <= width ==> truncated(s, width) == s && shortened(s, width) == s,
        s.len() > width > 0 ==> truncated(s, width).len() == width && shortened(s, width).len()
            == width,
{
}

/// `n` spaces.
pub open spec fn spaces(n: nat) -> Seq<char> {
    Seq::new(n, |i: int| ' ')
}

/// `s` right-aligned in `width` characters; as it is where it takes more.
pub open spec fn padded(s: Seq<char>, width: nat) -> Seq<char> {
    if s.len() >= width {
        s
    } else {
        spaces((width - s.len()) as nat) + s
    }
}

/// `s` right-aligned in `width` characters.
pub fn pad_left(s: &str, width: usize) -> (r: String)
    ensures
        r@ == padded(s@, width as nat),
{
    let len: usize = chars_of(s).len();
    let mut out = String::new();
    let mut n: usize = len;
    assert(out@ =~= spaces(0));
    while n < width
        invariant
            n >= len,
            len < width ==> n <= width,
            len >= width ==> n == len,
            out@ == spaces((n - len) as nat),
        decreases width - n,
    {
        out.push(' ');
        assert(out@ =~= spaces((n + 1 - len) as nat));
        n += 1;
    }
    out.append(s);
    assert(out@ =~= padded(s@, width as nat));
    out
}

// ---------------------------------------------------------------------------
// Bars

/// One character of a bar.
#[derive(Debug, Clone, Copy, PartialEq, Eq, Structural)]
pub struct BarCell {
    pub symbol: char,
    /// Whether any of it is filled.
    pub filled: bool,
}

/// A block filled from the left by `n` eighths, 1 to 8.
pub open spec fn eighths(n: int) -> char {
    if n == 1 {
        '▏'
    } else if n == 2 {
        '▎'
    } else if n == 3 {
        '▍'
    } else if n == 4 {
        '▌'
    } else if n == 5 {
        '▋'
    } else if n == 6 {
        '▊'
    } else if n == 7 {
        '▉'
    } else {
        '█'
    }
}

/// The `i`th character of a bar of which `filled` eighths are filled; what is
/// not filled at all is a dotted track.
pub open spec fn bar_cell(i: int, filled: int) -> BarCell {
    let rest = filled - 8 * i;
    if rest > 0 {
        BarCell {
            symbol: eighths(
                if rest < 8 {
                    rest
                } else {
                    8
                },
            ),
            filled: true,
        }
    } else {
        BarCell { symbol: '·', filled: false }
    }
}

/// A one-line ratio bar with sub-cell precision: `width` characters of which
/// `filled` eighths are filled; the unfilled remainder renders as a dotted
/// track.
pub fn bar_cells(width: u16, filled: u32) -> (r: Vec<BarCell>)
    ensures
        r@ == Seq::new(width as nat, |i: int| bar_cell(i, filled as int)),
{
    let mut r: Vec<BarCell> = Vec::new();
    let mut i: u16 = 0;
    while i < width
        invariant
            i <= width,
            r@ == Seq::new(i as nat, |j: int| bar_cell(j, filled as int)),
        decreases width - i,
    {
        let start: u32 = i as u32 * 8;
        let cell = if filled <= start {
            BarCell { symbol: '·', filled: false }
        } else {
            let rest: u32 = filled - start;
            let symbol = if rest >= 8 {
                '█'
            } else if rest == 1 {
                '▏'
            } else if rest == 2 {
                '▎'
            } else if rest == 3 {
                '▍'
            } else if rest == 4 {
                '▌'
            } else if rest == 5 {
                '▋'
            } else if rest == 6 {
                '▊'
            } else {
                '▉'
            };
            BarCell { symbol, filled: true }
        };
        r.push(cell);
        assert(r@ =~= Seq::new((i + 1) as nat, |j: int| bar_cell(j, filled as int)));
        i += 1;
    }
    r
}

/// A bar is filled from the left: nothing is filled behind what is not.
pub proof fn law_bars_fill_from_the_left(i: int, j: int, filled: int)
    requires
        0 <= i <= j,
        bar_cell(j, filled).filled,
    ensures
        bar_cell(i, filled).filled,
        i < j ==> bar_cell(i, filled).symbol == '█',
{
}

/// A bar shows as much as is filled: a column is full where all its eighths
/// are, empty where none is, and else shows just those that are.
pub proof fn law_bars_show_what_is_filled(i: int, filled: int)
    requires
        i >= 0,
    ensures
        filled >= 8 * i + 8 ==> bar_cell(i, filled) == (BarCell { symbol: '█', filled: true }),
        filled <= 8 * i ==> bar_cell(i, filled) == (BarCell { symbol: '·', filled: false }),
        filled == 8 * i + 1 ==> bar_cell(i, filled) == (BarCell { symbol: '▏', filled: true }),
        filled == 8 * i + 2 ==> bar_cell(i, filled) == (BarCell { symbol: '▎', filled: true }),
        filled == 8 * i + 3 ==> bar_cell(i, filled) == (BarCell { symbol: '▍', filled: true }),
        filled == 8 * i + 4 ==> bar_cell(i, filled) == (BarCell { symbol: '▌', filled: true }),
        filled == 8 * i + 5 ==> bar_cell(i, filled) == (BarCell { symbol: '▋', filled: true }),
        filled == 8 * i + 6 ==> bar_cell(i, filled) == (BarCell { symbol: '▊', filled: true }),
        filled == 8 * i + 7 ==> bar_cell(i, filled) == (BarCell { symbol: '▉', filled: true }),
{
}

/// A text that is aligned to the right is whole, ends at the width where it is
/// shorter, and has only spaces ahead of it.
pub proof fn law_aligned_texts_are_whole(s: Seq<char>, width: nat)
    ensures
        ({
            let r = padded(s, width);
            &&& r.len() == if s.len() >= width {
                s.len()
            } else {
                width
            }
            &&& r.skip(r.len() - s.len()) == s
            &&& forall|i: int| 0 <= i < r.len() - s.len() ==> #[trigger] r[i] == ' '
        }),
{
    let r = padded(s, width);
    assert(r.skip(r.len() - s.len()) =~= s);
}

/// What is cut off a text is its end, and of a path its beginning: what stays
/// is theirs, with an ellipsis for the rest.
pub proof fn law_cut_texts_keep_their_part(s: Seq<char>, width: nat)
    requires
        s.len() > width > 0,
    ensures
        truncated(s, width).last() == '…',
        truncated(s, width).drop_last() == s.take(width - 1),
        shortened(s, width)[0] == '…',
        shortened(s, width).skip(1) == s.skip(s.len() - (width - 1)),
{
    assert(truncated(s, width).drop_last() =~= s.take(width - 1));
    assert(shortened(s, width).skip(1) =~= s.skip(s.len() - (width - 1)));
}

/// Whole seconds are shown as a number, any other duration with a decimal.
pub proof fn law_whole_seconds_are_shown_as_they_are(d: Duration, secs: nat, tenths: Seq<char>)
    ensures
        d@ == secs * 1_000_000_000 ==> dur_text(d, tenths) == text::decimal(secs) + "s"@,
        d@ % 1_000_000_000 != 0 ==> dur_text(d, tenths) == tenths + "s"@,
{
}

/// A latency is shown in milliseconds from 1000 microseconds up.
pub proof fn law_long_latencies_are_in_milliseconds(lat_us: Reading, number: Seq<char>)
    ensures
        lat_us.is_number() && lat_us.place >= Reading::place_of(0x408f_4000_0000_0000)
            ==> latency_text(lat_us, number) == number + " ms"@,
        lat_us.is_number() && lat_us.place < Reading::place_of(0x408f_4000_0000_0000)
            ==> latency_text(lat_us, number) == number + " µs"@,
{
}

} // verus!
