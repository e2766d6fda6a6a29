//! btop-style palette: low-saturation colors on truecolor terminals, plain
//! ANSI colors elsewhere.

use vstd::prelude::*;
use vstd::slice::slice_subrange;

use crate::text;
use crate::text::{chars_of, starts_with};

verus! {

/// A color of the terminal.
#[derive(Debug, Clone, Copy, PartialEq, Eq, Structural)]
pub enum Color {
    Rgb(u8, u8, u8),
    DarkGray,
    Green,
    White,
    Yellow,
    Red,
}

/// What a color is used for.
#[derive(Debug, Clone, Copy, PartialEq, Eq, Structural)]
pub enum Tone {
    Border,
    Title,
    Text,
    Dim,
    Live,
    Warn,
    Error,
    Track,
}

/// Which colors the terminal has.
#[derive(Debug, Clone, Copy, PartialEq, Eq, Structural)]
pub struct Palette {
    pub truecolor: bool,
}

/// The small letter of an ASCII capital; any other character is its own.
pub open spec fn lower_char(c: char) -> char {
    if 'A' <= c && c <= 'Z' {
        ((c as u8) + 32) as char
    } else {
        c
    }
}

/// `s` with each ASCII letter in lower case.
pub open spec fn lower(s: Seq<char>) -> Seq<char> {
    Seq::new(s.len(), |i: int| lower_char(s[i]))
}

fn to_lower(s: &[char]) -> (r: Vec<char>)
    ensures
        r@ == lower(s@),
{
    let mut r: Vec<char> = Vec::new();
    let mut i: usize = 0;
    while i < s.len()
        invariant
            i <= s.len(),
            r@ == lower(s@).take(i as int),
        decreases s.len() - i,
    {
        let c = s[i];
        let l = if 'A' <= c && c <= 'Z' {
            ((c as u8) + 32) as char
        } else {
            c
        };
        r.push(l);
        assert(lower(s@).take(i as int + 1) =~= lower(s@).take(i as int).push(lower_char(c)));
        i += 1;
    }
    assert(lower(s@).take(i as int) =~= lower(s@));
    r
}

/// Whether `word` occurs in `s`.
pub open spec fn occurs(s: Seq<char>, word: Seq<char>) -> bool {
    exists|i: int| 0 <= i <= s.len() && text::has_prefix(#[trigger] s.skip(i), word)
}

fn contains(s: &[char], word: &[char]) -> (r: bool)
    ensures
        r == occurs(s@, word@),
{
    let mut i: usize = 0;
    loop
        invariant
            i <= s.len(),
            forall|j: int| 0 <= j < i ==> !text::has_prefix(#[trigger] s@.skip(j), word@),
        decreases s.len() - i,
    {
        let rest = slice_subrange(s, i, s.len());
        assert(rest@ =~= s@.skip(i as int));
        if starts_with(rest, word) {
            return true;
        }
        if i == s.len() {
            return false;
        }
        i += 1;
    }
}

/// Whether the value of `COLORTERM` announces 24-bit colors.
pub open spec fn announces_truecolor(colorterm: Seq<char>) -> bool {
    occurs(lower(colorterm), "truecolor"@) || occurs(lower(colorterm), "24bit"@)
}

impl Palette {
    /// The palette for a terminal whose `COLORTERM` is this, where it is set.
    pub fn detect(colorterm: Option<&str>) -> (r: Palette)
        ensures
            r.truecolor == (match colorterm {
                Some(v) => announces_truecolor(v@),
                None => false,
            }),
    {
        let truecolor = match colorterm {
            Some(v) => {
                let value = to_lower(chars_of(v).as_slice());
                contains(value.as_slice(), chars_of("truecolor").as_slice()) || contains(
                    value.as_slice(),
                    chars_of("24bit").as_slice(),
                )
            },
            None => false,
        };
        Palette { truecolor }
    }

    /// The color for a use, on a truecolor terminal and elsewhere.
    pub open spec fn colors(tone: Tone) -> (Color, Color) {
        match tone {
            Tone::Border => (Color::Rgb(68, 76, 72), Color::DarkGray),
            Tone::Title => (Color::Rgb(152, 195, 121), Color::Green),
            Tone::Text => (Color::Rgb(214, 220, 224), Color::White),
            Tone::Dim => (Color::Rgb(124, 132, 132), Color::DarkGray),
            Tone::Live => (Color::Rgb(229, 192, 123), Color::Yellow),
            Tone::Warn => (Color::Rgb(198, 156, 88), Color::Yellow),
            Tone::Error => (Color::Rgb(224, 108, 117), Color::Red),
            Tone::Track => (Color::Rgb(54, 60, 57), Color::DarkGray),
        }
    }

    fn pick(self, rgb: Color, fallback: Color) -> (r: Color)
        ensures
            r == (if self.truecolor {
                rgb
            } else {
                fallback
            }),
    {
        if self.truecolor {
            rgb
        } else {
            fallback
        }
    }

    /// The color for a use.
    pub fn color(self, tone: Tone) -> (r: Color)
        ensures
            r == (if self.truecolor {
                Palette::colors(tone).0
            } else {
                Palette::colors(tone).1
            }),
    {
        match tone {
            Tone::Border => self.pick(Color::Rgb(68, 76, 72), Color::DarkGray),
            Tone::Title => self.pick(Color::Rgb(152, 195, 121), Color::Green),
            Tone::Text => self.pick(Color::Rgb(214, 220, 224), Color::White),
            Tone::Dim => self.pick(Color::Rgb(124, 132, 132), Color::DarkGray),
            Tone::Live => self.pick(Color::Rgb(229, 192, 123), Color::Yellow),
            Tone::Warn => self.pick(Color::Rgb(198, 156, 88), Color::Yellow),
            Tone::Error => self.pick(Color::Rgb(224, 108, 117), Color::Red),
            Tone::Track => self.pick(Color::Rgb(54, 60, 57), Color::DarkGray),
        }
    }
}

/// A terminal announces 24-bit colors by either word, anywhere in the value and
/// in capitals or not.
pub proof fn law_truecolor_is_found_anywhere(
    before: Seq<char>,
    word: Seq<char>,
    after: Seq<char>,
)
    requires
        lower(word) == "truecolor"@ || lower(word) == "24bit"@,
    ensures
        announces_truecolor(before + word + after),
{
    let s = lower(before + word + after);
    let i = before.len() as int;
    assert(s.skip(i).take(word.len() as int) =~= lower(word));
    assert(text::has_prefix(s.skip(i), lower(word)));
}

/// A value without either word announces none.
pub proof fn law_other_terminals_have_few_colors(colorterm: Seq<char>)
    requires
        forall|i: int, j: int|
            0 <= i <= j <= colorterm.len() ==> lower(#[trigger] colorterm.subrange(i, j))
                != "truecolor"@ && lower(colorterm.subrange(i, j)) != "24bit"@,
    ensures
        !announces_truecolor(colorterm),
{
    let s = lower(colorterm);
    assert forall|i: int, word: Seq<char>|
        0 <= i <= s.len() && (word == "truecolor"@ || word == "24bit"@) implies !#[trigger] text::has_prefix(
        s.skip(i),
        word,
    ) by {
        if text::has_prefix(s.skip(i), word) {
            let j = i + word.len();
            assert(lower(colorterm.subrange(i, j)) =~= s.skip(i).take(word.len() as int));
        }
    }
}

/// Failures are red, what runs and what is warned of yellow, titles green, and
/// the rest white or grey, in colors that differ from one another on a terminal
/// that has them.
pub proof fn law_tones_have_their_colors(a: Tone, b: Tone)
    ensures
        Palette::colors(Tone::Error).1 is Red,
        Palette::colors(Tone::Live).1 is Yellow && Palette::colors(Tone::Warn).1 is Yellow,
        Palette::colors(Tone::Title).1 is Green,
        Palette::colors(Tone::Text).1 is White,
        Palette::colors(Tone::Border).1 is DarkGray && Palette::colors(Tone::Dim).1 is DarkGray,
        Palette::colors(Tone::Track).1 is DarkGray,
        Palette::colors(a).0 is Rgb,
        Palette::colors(a).0 == Palette::colors(b).0 ==> a == b,
        !(Palette::colors(a).1 is Rgb),
{
}

} // verus!
