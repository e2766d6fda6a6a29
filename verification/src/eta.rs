//! The progress lines of fio: cutting them out of its output stream and
//! reading the live rates they carry (`[r=5956MiB/s][r=5956 IOPS]`).

use vstd::prelude::*;

use crate::text;
use crate::text::{decode_lossy, text_is};

verus! {

/// Matches the bandwidth and the operation rate of a progress line.
pub const RATE_PATTERN: &'static str =
    "\\[(?:r|w)=([0-9]+(?:\\.[0-9]+)?)((?:[KMGTP]i)?B)/s\\]\\[(?:r|w)=([0-9]+(?:\\.[0-9]+)?)([kKMG]?) IOPS\\]";

/// Matches the completion percentage of a progress line.
pub const PERCENT_PATTERN: &'static str = "\\[([0-9]+(?:\\.[0-9]+)?)%\\]";

/// A decimal number and the factor that its unit stands for.
#[derive(Debug)]
pub struct Amount {
    /// Digits, optionally with a decimal point between them.
    pub number: String,
    pub factor: u64,
}

/// What one progress line states.
#[derive(Debug)]
pub struct EtaRate {
    /// Bytes per second.
    pub bandwidth: Amount,
    /// Operations per second.
    pub iops: Amount,
    /// Completion percentage of the current run, when fio reports it.
    pub percent: Option<String>,
}

// ---------------------------------------------------------------------------
// The grammar of a progress line

/// Digits, or digits, a point and digits.
pub open spec fn is_amount(s: Seq<char>) -> bool {
    text::all_digits(s) || exists|k: int|
        0 < k < s.len() - 1 && #[trigger] s[k] == '.' && text::all_digits(s.take(k))
            && text::all_digits(s.skip(k + 1))
}

/// The bytes that a unit of bandwidth stands for.
pub open spec fn byte_factor(u: Seq<char>) -> Option<u64> {
    if u == seq!['B'] {
        Some(1)
    } else if u == seq!['K', 'i', 'B'] {
        Some(0x400)
    } else if u == seq!['M', 'i', 'B'] {
        Some(0x10_0000)
    } else if u == seq!['G', 'i', 'B'] {
        Some(0x4000_0000)
    } else if u == seq!['T', 'i', 'B'] {
        Some(0x100_0000_0000)
    } else if u == seq!['P', 'i', 'B'] {
        Some(0x4_0000_0000_0000)
    } else {
        None
    }
}

/// The operations that a unit of the operation rate stands for.
pub open spec fn iops_factor(u: Seq<char>) -> Option<u64> {
    if u == Seq::<char>::empty() {
        Some(1)
    } else if u == seq!['k'] || u == seq!['K'] {
        Some(1_000)
    } else if u == seq!['M'] {
        Some(1_000_000)
    } else if u == seq!['G'] {
        Some(1_000_000_000)
    } else {
        None
    }
}

/// `r` for a read, `w` for a write.
pub open spec fn is_direction(c: char) -> bool {
    c == 'r' || c == 'w'
}

/// The rates as a progress line shows them; `g` holds the bandwidth, its
/// unit, the operation rate and its unit.
pub open spec fn rate_text(first: char, second: char, g: Seq<Seq<char>>) -> Seq<char> {
    seq!['[', first, '='] + (g[0] + (g[1] + (seq!['/', 's', ']', '[', second, '='] + (g[2] + (g[3]
        + seq![' ', 'I', 'O', 'P', 'S', ']'])))))
}

/// Whether `line` shows the rates `g` from index `i` on.
pub open spec fn rate_at(line: Seq<char>, i: int, g: Seq<Seq<char>>) -> bool {
    &&& 0 <= i <= line.len()
    &&& g.len() == 4
    &&& is_amount(g[0])
    &&& byte_factor(g[1]) is Some
    &&& is_amount(g[2])
    &&& iops_factor(g[3]) is Some
    &&& exists|first: char, second: char|
        is_direction(first) && is_direction(second) && text::has_prefix(
            line.skip(i),
            #[trigger] rate_text(first, second, g),
        )
}

/// Whether the leftmost rates of `line` are `g`.
pub open spec fn first_rate(line: Seq<char>, g: Seq<Seq<char>>) -> bool {
    exists|i: int| #[trigger]
        rate_at(line, i, g) && forall|j: int, h: Seq<Seq<char>>|
            0 <= j < i ==> !#[trigger] rate_at(line, j, h)
}

/// Whether `line` shows a percentage `g[0]` from index `i` on.
pub open spec fn percent_at(line: Seq<char>, i: int, g: Seq<Seq<char>>) -> bool {
    &&& 0 <= i <= line.len()
    &&& g.len() == 1
    &&& is_amount(g[0])
    &&& text::has_prefix(line.skip(i), seq!['['] + (g[0] + seq!['%', ']']))
}

/// Whether the leftmost percentage of `line` is `g[0]`.
pub open spec fn first_percent(line: Seq<char>, g: Seq<Seq<char>>) -> bool {
    exists|i: int| #[trigger]
        percent_at(line, i, g) && forall|j: int, h: Seq<Seq<char>>|
            0 <= j < i ==> !#[trigger] percent_at(line, j, h)
}

/// Whether `found` is the outcome of a search for the leftmost rates.
pub open spec fn is_rate_search(line: Seq<char>, found: Option<Seq<Seq<char>>>) -> bool {
    match found {
        Some(g) => first_rate(line, g),
        None => forall|i: int, g: Seq<Seq<char>>| !#[trigger] rate_at(line, i, g),
    }
}

/// Whether `found` is the outcome of a search for the leftmost percentage.
pub open spec fn is_percent_search(line: Seq<char>, found: Option<Seq<Seq<char>>>) -> bool {
    match found {
        Some(g) => first_percent(line, g),
        None => forall|i: int, g: Seq<Seq<char>>| !#[trigger] percent_at(line, i, g),
    }
}

/// The views of the groups of a match.
pub open spec fn groups(r: Option<Vec<String>>) -> Option<Seq<Seq<char>>> {
    match r {
        Some(v) => Some(text::texts(v@)),
        None => None,
    }
}

/// `regex::Regex::new` and `Regex::captures`: the groups of the leftmost match
/// of `pattern` in `line`, without the match as a whole. Claimed for the two
/// patterns of this module, which are valid and of which every group takes
/// part in every match.
#[verifier::external_body]
fn captures(pattern: &str, line: &str) -> (r: Option<Vec<String>>)
    requires
        pattern@ == RATE_PATTERN@ || pattern@ == PERCENT_PATTERN@,
    ensures
        pattern@ == RATE_PATTERN@ ==> is_rate_search(line@, groups(r)),
        pattern@ == PERCENT_PATTERN@ ==> is_percent_search(line@, groups(r)),
{
    let caps = regex::Regex::new(pattern).expect("valid regex").captures(line)?;
    Some((1..caps.len()).map(|i| caps[i].to_owned()).collect())
}

// ---------------------------------------------------------------------------
// A match is determined by where it starts

/// How many digits and points `s` begins with.
spec fn span(s: Seq<char>) -> nat
    decreases s.len(),
{
    if s.len() > 0 && (text::is_digit(s[0]) || s[0] == '.') {
        1 + span(s.skip(1))
    } else {
        0
    }
}

proof fn lemma_span(a: Seq<char>, t: Seq<char>)
    requires
        forall|i: int| 0 <= i < a.len() ==> text::is_digit(#[trigger] a[i]) || a[i] == '.',
        t.len() > 0,
        !text::is_digit(t[0]) && t[0] != '.',
    ensures
        span(a + t) == a.len(),
    decreases a.len(),
{
    if a.len() > 0 {
        assert((a + t)[0] == a[0]);
        assert((a + t).skip(1) =~= a.skip(1) + t);
        assert forall|i: int| 0 <= i < a.skip(1).len() implies text::is_digit(
            #[trigger] a.skip(1)[i],
        ) || a.skip(1)[i] == '.' by {
            assert(a.skip(1)[i] == a[i + 1]);
        }
        lemma_span(a.skip(1), t);
    } else {
        assert(a + t =~= t);
    }
}

proof fn lemma_amount_chars(a: Seq<char>)
    requires
        is_amount(a),
    ensures
        a.len() > 0,
        forall|i: int| 0 <= i < a.len() ==> text::is_digit(#[trigger] a[i]) || a[i] == '.',
{
    if !text::all_digits(a) {
        let k = choose|k: int|
            0 < k < a.len() - 1 && #[trigger] a[k] == '.' && text::all_digits(a.take(k))
                && text::all_digits(a.skip(k + 1));
        assert forall|i: int| 0 <= i < a.len() implies text::is_digit(#[trigger] a[i]) || a[i]
            == '.' by {
            if i < k {
                assert(a[i] == a.take(k)[i]);
            } else if i > k {
                assert(a[i] == a.skip(k + 1)[i - k - 1]);
            }
        }
    }
}

/// An amount that `s` begins with and that no digit or point follows.
spec fn amount_of(s: Seq<char>) -> Seq<char> {
    s.take(span(s) as int)
}

proof fn lemma_amount_of(s: Seq<char>, a: Seq<char>, t: Seq<char>)
    requires
        is_amount(a),
        s == a + t,
        t.len() > 0,
        !text::is_digit(t[0]) && t[0] != '.',
    ensures
        amount_of(s) == a,
        s.skip(span(s) as int) == t,
{
    lemma_amount_chars(a);
    lemma_span(a, t);
    assert(s.take(a.len() as int) =~= a);
    assert(s.skip(a.len() as int) =~= t);
}

/// The rates that a text starting with rates shows, read off from left to
/// right.
spec fn rate_parts(s: Seq<char>) -> Seq<Seq<char>> {
    let s0 = s.skip(3);
    let s1 = s0.skip(span(s0) as int);
    let unit = if s1[0] == 'B' {
        1int
    } else {
        3int
    };
    let s2 = s1.skip(unit).skip(6);
    let s3 = s2.skip(span(s2) as int);
    let scale = if s3[0] == ' ' {
        0int
    } else {
        1int
    };
    seq![amount_of(s0), s1.take(unit), amount_of(s2), s3.take(scale)]
}

proof fn lemma_rate_parts(line: Seq<char>, i: int, g: Seq<Seq<char>>)
    requires
        rate_at(line, i, g),
    ensures
        g == rate_parts(line.skip(i)),
{
    let s = line.skip(i);
    let (first, second) = choose|first: char, second: char|
        is_direction(first) && is_direction(second) && text::has_prefix(
            s,
            #[trigger] rate_text(first, second, g),
        );
    let shown = rate_text(first, second, g);
    let tail = s.skip(shown.len() as int);
    assert(s =~= s.take(shown.len() as int) + tail);
    let end = seq![' ', 'I', 'O', 'P', 'S', ']'];
    let mid = seq!['/', 's', ']', '[', second, '='];
    // The scale of the operation rate and what follows it.
    let t3 = g[3] + (end + tail);
    let t2 = g[2] + t3;
    let t1 = g[1] + (mid + t2);
    let s0 = s.skip(3);
    assert(s0 =~= g[0] + t1);
    assert(g[1].len() == 1 || g[1].len() == 3);
    assert(t1[0] == g[1][0]);
    assert(g[1][0] == 'B' || g[1][0] == 'K' || g[1][0] == 'M' || g[1][0] == 'G' || g[1][0] == 'T'
        || g[1][0] == 'P');
    lemma_amount_of(s0, g[0], t1);
    let unit = if t1[0] == 'B' {
        1int
    } else {
        3int
    };
    assert(unit == g[1].len());
    assert(t1.take(unit) =~= g[1]);
    assert(t1.skip(unit).skip(6) =~= t2);
    assert(g[3].len() <= 1);
    if g[3].len() == 0 {
        assert(t3[0] == ' ');
    } else {
        assert(t3[0] == g[3][0]);
        assert(g[3][0] == 'k' || g[3][0] == 'K' || g[3][0] == 'M' || g[3][0] == 'G');
    }
    lemma_amount_of(t2, g[2], t3);
    assert(t3.take(g[3].len() as int) =~= g[3]);
    assert(g =~= rate_parts(s));
}

proof fn lemma_percent_parts(line: Seq<char>, i: int, g: Seq<Seq<char>>)
    requires
        percent_at(line, i, g),
    ensures
        g == seq![amount_of(line.skip(i).skip(1))],
{
    let s = line.skip(i);
    let shown = seq!['['] + (g[0] + seq!['%', ']']);
    let tail = s.skip(shown.len() as int);
    assert(s =~= s.take(shown.len() as int) + tail);
    let t = seq!['%', ']'] + tail;
    assert(s.skip(1) =~= g[0] + t);
    lemma_amount_of(s.skip(1), g[0], t);
    assert(g =~= seq![amount_of(s.skip(1))]);
}

/// A line has no two leftmost rates.
pub proof fn law_rate_is_unique(line: Seq<char>, g: Seq<Seq<char>>, h: Seq<Seq<char>>)
    requires
        first_rate(line, g),
        first_rate(line, h),
    ensures
        g == h,
{
    let i = choose|i: int| #[trigger]
        rate_at(line, i, g) && forall|j: int, h: Seq<Seq<char>>|
            0 <= j < i ==> !#[trigger] rate_at(line, j, h);
    let j = choose|i: int| #[trigger]
        rate_at(line, i, h) && forall|j: int, h: Seq<Seq<char>>|
            0 <= j < i ==> !#[trigger] rate_at(line, j, h);
    assert(i == j);
    lemma_rate_parts(line, i, g);
    lemma_rate_parts(line, j, h);
}

/// A line has no two leftmost percentages.
pub proof fn law_percent_is_unique(line: Seq<char>, g: Seq<Seq<char>>, h: Seq<Seq<char>>)
    requires
        first_percent(line, g),
        first_percent(line, h),
    ensures
        g == h,
{
    let i = choose|i: int| #[trigger]
        percent_at(line, i, g) && forall|j: int, h: Seq<Seq<char>>|
            0 <= j < i ==> !#[trigger] percent_at(line, j, h);
    let j = choose|i: int| #[trigger]
        percent_at(line, i, h) && forall|j: int, h: Seq<Seq<char>>|
            0 <= j < i ==> !#[trigger] percent_at(line, j, h);
    assert(i == j);
    lemma_percent_parts(line, i, g);
    lemma_percent_parts(line, j, h);
}

// ---------------------------------------------------------------------------
// Reading a progress line

/// What a progress line states, as views.
#[verifier::ext_equal]
pub struct EtaView {
    pub bandwidth: (Seq<char>, u64),
    pub iops: (Seq<char>, u64),
    pub percent: Option<Seq<char>>,
}

impl View for EtaRate {
    type V = EtaView;

    open spec fn view(&self) -> EtaView {
        EtaView {
            bandwidth: (self.bandwidth.number@, self.bandwidth.factor),
            iops: (self.iops.number@, self.iops.factor),
            percent: match self.percent {
                Some(p) => Some(p@),
                None => None,
            },
        }
    }
}

/// What `line` states, if it carries rates: its leftmost rates and, where it
/// has one, its leftmost percentage.
pub open spec fn eta_of(line: Seq<char>) -> Option<EtaView> {
    if exists|g: Seq<Seq<char>>| first_rate(line, g) {
        let g = choose|g: Seq<Seq<char>>| first_rate(line, g);
        Some(
            EtaView {
                bandwidth: (g[0], byte_factor(g[1])->0),
                iops: (g[2], iops_factor(g[3])->0),
                percent: percent_of(line),
            },
        )
    } else {
        None
    }
}

/// The leftmost percentage of `line`.
pub open spec fn percent_of(line: Seq<char>) -> Option<Seq<char>> {
    if exists|g: Seq<Seq<char>>| first_percent(line, g) {
        Some((choose|g: Seq<Seq<char>>| first_percent(line, g))[0])
    } else {
        None
    }
}

/// The view of what a line was found to state.
pub open spec fn eta_view(r: Option<EtaRate>) -> Option<EtaView> {
    match r {
        Some(rate) => Some(rate@),
        None => None,
    }
}

/// The leftmost rates that a line shows are what it states.
pub proof fn law_leftmost_rates_are_stated(line: Seq<char>, i: int, g: Seq<Seq<char>>)
    requires
        rate_at(line, i, g),
        forall|j: int, h: Seq<Seq<char>>| 0 <= j < i ==> !#[trigger] rate_at(line, j, h),
    ensures
        eta_of(line) matches Some(eta) && eta.bandwidth == (g[0], byte_factor(g[1])->0) && eta.iops
            == (g[2], iops_factor(g[3])->0),
{
    assert(first_rate(line, g));
    law_rate_is_unique(line, g, choose|g: Seq<Seq<char>>| first_rate(line, g));
}

/// A line that begins with rates states them, whatever follows.
pub proof fn law_shown_rates_are_stated(
    first: char,
    second: char,
    g: Seq<Seq<char>>,
    rest: Seq<char>,
)
    requires
        is_direction(first),
        is_direction(second),
        g.len() == 4,
        is_amount(g[0]),
        byte_factor(g[1]) is Some,
        is_amount(g[2]),
        iops_factor(g[3]) is Some,
    ensures
        eta_of(rate_text(first, second, g) + rest) matches Some(eta) && eta.bandwidth == (
            g[0],
            byte_factor(g[1])->0,
        ) && eta.iops == (g[2], iops_factor(g[3])->0),
{
    let shown = rate_text(first, second, g);
    let line = shown + rest;
    assert(line.skip(0) =~= line);
    assert(line.take(shown.len() as int) =~= shown);
    assert(text::has_prefix(line.skip(0), rate_text(first, second, g)));
    assert(rate_at(line, 0, g));
    law_leftmost_rates_are_stated(line, 0, g);
}

/// Bandwidths are in powers of 1024 bytes, operation rates in powers of 1000.
pub proof fn law_units_are_powers(u: Seq<char>)
    ensures
        byte_factor(seq!['B']) == Some(1u64),
        byte_factor(seq!['K', 'i', 'B']) == Some(1024u64),
        byte_factor(seq!['M', 'i', 'B']) matches Some(n) && n == 1024 * 1024,
        byte_factor(seq!['G', 'i', 'B']) matches Some(n) && n == 1024 * 1024 * 1024,
        byte_factor(seq!['T', 'i', 'B']) matches Some(n) && n == 1024 * 1024 * 1024 * 1024,
        byte_factor(seq!['P', 'i', 'B']) matches Some(n) && n == 1024 * 1024 * 1024 * 1024 * 1024,
        iops_factor(Seq::empty()) == Some(1u64),
        iops_factor(seq!['k']) == Some(1000u64),
        iops_factor(seq!['K']) == Some(1000u64),
        iops_factor(seq!['M']) matches Some(n) && n == 1000 * 1000,
        iops_factor(seq!['G']) matches Some(n) && n == 1000 * 1000 * 1000,
        byte_factor(u) is Some ==> u.len() > 0 && u.last() == 'B' && (u.len() == 1 || u.len() == 3),
        iops_factor(u) is Some ==> u.len() <= 1,
{
    let (k, m, g) = (seq!['K', 'i', 'B'], seq!['M', 'i', 'B'], seq!['G', 'i', 'B']);
    let (t, p, b) = (seq!['T', 'i', 'B'], seq!['P', 'i', 'B'], seq!['B']);
    assert(b.len() == 1 && k[0] == 'K' && m[0] == 'M' && g[0] == 'G' && t[0] == 'T' && p[0] == 'P');
    let e = Seq::<char>::empty();
    assert(e.len() == 0 && seq!['k'][0] == 'k' && seq!['K'][0] == 'K' && seq!['M'][0] == 'M'
        && seq!['G'][0] == 'G');
}

/// The leftmost percentage that a line shows is how far the run is; a line that
/// shows none does not say.
pub proof fn law_the_leftmost_percentage_is_stated(line: Seq<char>, i: int, g: Seq<Seq<char>>)
    ensures
        percent_at(line, i, g) && (forall|j: int, h: Seq<Seq<char>>|
            0 <= j < i ==> !#[trigger] percent_at(line, j, h)) ==> percent_of(line) == Some(g[0]),
        (forall|j: int, h: Seq<Seq<char>>| !#[trigger] percent_at(line, j, h)) ==> percent_of(
            line,
        ) is None,
        eta_of(line) matches Some(eta) ==> eta.percent == percent_of(line),
{
    if percent_at(line, i, g) && (forall|j: int, h: Seq<Seq<char>>|
        0 <= j < i ==> !#[trigger] percent_at(line, j, h)) {
        assert(first_percent(line, g));
        law_percent_is_unique(line, g, choose|g: Seq<Seq<char>>| first_percent(line, g));
    }
    if percent_of(line) is Some {
        let h = choose|g: Seq<Seq<char>>| first_percent(line, g);
        let j = choose|i: int| #[trigger] percent_at(line, i, h);
        assert(percent_at(line, j, h));
    }
}

/// A line without rates states nothing, whatever percentage it shows.
pub proof fn law_a_line_without_rates_states_nothing(line: Seq<char>)
    requires
        forall|i: int, g: Seq<Seq<char>>| !#[trigger] rate_at(line, i, g),
    ensures
        eta_of(line) is None,
{
    if exists|g: Seq<Seq<char>>| first_rate(line, g) {
        let g = choose|g: Seq<Seq<char>>| first_rate(line, g);
        let i = choose|i: int| #[trigger] rate_at(line, i, g);
        assert(rate_at(line, i, g));
    }
}

fn parse_percent(line: &str) -> (r: Option<String>)
    ensures
        percent_of(line@) == (match r {
            Some(p) => Some(p@),
            None => None,
        }),
{
    match captures(PERCENT_PATTERN, line) {
        Some(mut caps) => {
            let ghost g = text::texts(caps@);
            proof {
                assert(first_percent(line@, g));
                law_percent_is_unique(
                    line@,
                    g,
                    choose|g: Seq<Seq<char>>| first_percent(line@, g),
                );
            }
            caps.pop()
        },
        None => None,
    }
}

fn byte_unit(u: &str) -> (r: Option<u64>)
    ensures
        r == byte_factor(u@),
{
    proof {
        reveal_strlit("B");
        reveal_strlit("KiB");
        reveal_strlit("MiB");
        reveal_strlit("GiB");
        reveal_strlit("TiB");
        reveal_strlit("PiB");
        assert("B"@ =~= seq!['B']);
        assert("KiB"@ =~= seq!['K', 'i', 'B']);
        assert("MiB"@ =~= seq!['M', 'i', 'B']);
        assert("GiB"@ =~= seq!['G', 'i', 'B']);
        assert("TiB"@ =~= seq!['T', 'i', 'B']);
        assert("PiB"@ =~= seq!['P', 'i', 'B']);
    }
    if text_is(u, "B") {
        Some(1)
    } else if text_is(u, "KiB") {
        Some(0x400)
    } else if text_is(u, "MiB") {
        Some(0x10_0000)
    } else if text_is(u, "GiB") {
        Some(0x4000_0000)
    } else if text_is(u, "TiB") {
        Some(0x100_0000_0000)
    } else if text_is(u, "PiB") {
        Some(0x4_0000_0000_0000)
    } else {
        None
    }
}

fn iops_unit(u: &str) -> (r: Option<u64>)
    ensures
        r == iops_factor(u@),
{
    proof {
        reveal_strlit("");
        reveal_strlit("k");
        reveal_strlit("K");
        reveal_strlit("M");
        reveal_strlit("G");
        assert(""@ =~= Seq::<char>::empty());
        assert("k"@ =~= seq!['k']);
        assert("K"@ =~= seq!['K']);
        assert("M"@ =~= seq!['M']);
        assert("G"@ =~= seq!['G']);
    }
    if text_is(u, "") {
        Some(1)
    } else if text_is(u, "k") || text_is(u, "K") {
        Some(1_000)
    } else if text_is(u, "M") {
        Some(1_000_000)
    } else if text_is(u, "G") {
        Some(1_000_000_000)
    } else {
        None
    }
}

/// Extracts the live rate from one fio ETA line, if it carries one.
pub fn parse_eta_line(line: &str) -> (r: Option<EtaRate>)
    ensures
        eta_view(r) == eta_of(line@),
{
    let caps = match captures(RATE_PATTERN, line) {
        Some(caps) => caps,
        None => {
            proof {
                if exists|g: Seq<Seq<char>>| first_rate(line@, g) {
                    let g = choose|g: Seq<Seq<char>>| first_rate(line@, g);
                    let i = choose|i: int| #[trigger] rate_at(line@, i, g);
                }
            }
            return None;
        },
    };
    let ghost g = text::texts(caps@);
    proof {
        assert(first_rate(line@, g));
        law_rate_is_unique(line@, g, choose|g: Seq<Seq<char>>| first_rate(line@, g));
    }
    let bytes: u64 = match byte_unit(caps[1].as_str()) {
        Some(n) => n,
        None => return None,
    };
    let ops: u64 = match iops_unit(caps[3].as_str()) {
        Some(n) => n,
        None => return None,
    };
    Some(
        EtaRate {
            bandwidth: Amount { number: caps[0].as_str().to_owned(), factor: bytes },
            iops: Amount { number: caps[2].as_str().to_owned(), factor: ops },
            percent: parse_percent(line),
        },
    )
}

// ---------------------------------------------------------------------------
// Cutting the output stream into lines

/// The bytes that end a line: a carriage return (same-line refresh) or a line
/// feed.
pub open spec fn is_break(b: u8) -> bool {
    b == 13 || b == 10
}

/// The lines that `s` completes after a line begun with `begun`, each with the
/// byte that ends it, and what is left of the last line.
pub open spec fn cut(begun: Seq<u8>, s: Seq<u8>) -> (Seq<Seq<u8>>, Seq<u8>)
    decreases s.len(),
{
    if s.len() == 0 {
        (Seq::empty(), begun)
    } else {
        let (lines, rest) = cut(begun, s.drop_last());
        let line = rest.push(s.last());
        if is_break(s.last()) {
            (lines.push(line), Seq::empty())
        } else {
            (lines, line)
        }
    }
}

/// What a sequence of lines states, line by line; lines without rates state
/// nothing.
pub open spec fn etas_of(lines: Seq<Seq<u8>>) -> Seq<EtaView>
    decreases lines.len(),
{
    if lines.len() == 0 {
        Seq::empty()
    } else {
        match eta_of(text::utf8_lossy(lines.last())) {
            Some(eta) => etas_of(lines.drop_last()).push(eta),
            None => etas_of(lines.drop_last()),
        }
    }
}

/// The views of a list of rates.
pub open spec fn eta_views(v: Seq<EtaRate>) -> Seq<EtaView> {
    Seq::new(v.len(), |i: int| v[i]@)
}

/// The worker's output that is not yet a whole line.
#[derive(Debug)]
pub struct LineBuffer {
    begun: Vec<u8>,
}

impl View for LineBuffer {
    type V = Seq<u8>;

    closed spec fn view(&self) -> Seq<u8> {
        self.begun@
    }
}

impl LineBuffer {
    /// Before any output.
    pub fn new() -> (r: LineBuffer)
        ensures
            r@ == Seq::<u8>::empty(),
    {
        LineBuffer { begun: Vec::new() }
    }

    /// Takes in a chunk of output, in which lines begin and end anywhere, and
    /// returns the rates of the lines that it completes, in order.
    pub fn feed(&mut self, chunk: &[u8]) -> (r: Vec<EtaRate>)
        ensures
            final(self)@ == cut(old(self)@, chunk@).1,
            eta_views(r@) == etas_of(cut(old(self)@, chunk@).0),
    {
        let ghost begun = self@;
        let ghost mut lines: Seq<Seq<u8>> = Seq::empty();
        let mut rates: Vec<EtaRate> = Vec::new();
        let mut i: usize = 0;
        proof {
            assert(chunk@.take(0) =~= Seq::<u8>::empty());
            assert(eta_views(rates@) =~= etas_of(lines));
        }
        while i < chunk.len()
            invariant
                i <= chunk.len(),
                cut(begun, chunk@.take(i as int)) == (lines, self@),
                eta_views(rates@) == etas_of(lines),
            decreases chunk.len() - i,
        {
            let b: u8 = chunk[i];
            proof {
                assert(chunk@.take(i as int + 1).drop_last() =~= chunk@.take(i as int));
                assert(chunk@.take(i as int + 1).last() == b);
            }
            self.begun.push(b);
            if b == 13 || b == 10 {
                let ghost line = self.begun@;
                let text = decode_lossy(self.begun.as_slice());
                let ghost before = rates@;
                match parse_eta_line(text.as_str()) {
                    Some(rate) => {
                        rates.push(rate);
                        assert(eta_views(rates@) =~= eta_views(before).push(rate@));
                    },
                    None => {},
                }
                proof {
                    let longer = lines.push(line);
                    assert(longer.drop_last() =~= lines);
                    lines = longer;
                }
                self.begun = Vec::new();
            }
            i += 1;
        }
        assert(chunk@.take(i as int) =~= chunk@);
        rates
    }
}

/// How the output is cut into chunks does not matter: two chunks complete the
/// same lines as the two in one.
pub proof fn law_chunks_do_not_matter(begun: Seq<u8>, a: Seq<u8>, b: Seq<u8>)
    ensures
        cut(begun, a + b).0 == cut(begun, a).0 + cut(cut(begun, a).1, b).0,
        cut(begun, a + b).1 == cut(cut(begun, a).1, b).1,
    decreases b.len(),
{
    if b.len() == 0 {
        assert(a + b =~= a);
        assert(cut(begun, a).0 + Seq::<Seq<u8>>::empty() =~= cut(begun, a).0);
    } else {
        law_chunks_do_not_matter(begun, a, b.drop_last());
        assert((a + b).drop_last() =~= a + b.drop_last());
        assert((a + b).last() == b.last());
        let (first, rest) = cut(begun, a);
        let (second, last) = cut(rest, b.drop_last());
        if is_break(b.last()) {
            assert(first + second.push(last.push(b.last())) =~= (first + second).push(
                last.push(b.last()),
            ));
        }
    }
}

/// Every line that states rates is heard, in order, and no other.
pub proof fn law_every_line_is_heard(lines: Seq<Seq<u8>>, line: Seq<u8>, more: Seq<Seq<u8>>)
    ensures
        etas_of(lines + more) == etas_of(lines) + etas_of(more),
        eta_of(text::utf8_lossy(line)) matches Some(eta) ==> etas_of(seq![line]) == seq![eta],
        eta_of(text::utf8_lossy(line)) is None ==> etas_of(seq![line]) == Seq::<EtaView>::empty(),
    decreases more.len(),
{
    assert(seq![line].drop_last() =~= Seq::empty());
    assert(etas_of(seq![line].drop_last()) =~= Seq::empty());
    assert(etas_of(seq![line]) =~= match eta_of(text::utf8_lossy(line)) {
        Some(eta) => seq![eta],
        None => Seq::empty(),
    });
    if more.len() == 0 {
        assert(lines + more =~= lines);
        assert(etas_of(lines) + etas_of(more) =~= etas_of(lines));
    } else {
        law_every_line_is_heard(lines, line, more.drop_last());
        assert((lines + more).drop_last() =~= lines + more.drop_last());
        assert((lines + more).last() == more.last());
        assert(etas_of(lines + more) =~= etas_of(lines) + etas_of(more));
    }
}

/// A carriage return ends a line as a line feed does, and nothing else does.
pub proof fn law_two_bytes_end_a_line(begun: Seq<u8>, b: u8)
    ensures
        b == 13 || b == 10 ==> cut(begun, seq![b]) == (seq![begun.push(b)], Seq::<u8>::empty()),
        b != 13 && b != 10 ==> cut(begun, seq![b]) == (Seq::<Seq<u8>>::empty(), begun.push(b)),
{
    assert(seq![b].drop_last() =~= Seq::empty());
    assert(cut(begun, seq![b].drop_last()) == (Seq::<Seq<u8>>::empty(), begun));
    assert(Seq::<Seq<u8>>::empty().push(begun.push(b)) =~= seq![begun.push(b)]);
}

/// Cutting loses no byte and adds none, and keeps their order.
pub proof fn law_cutting_keeps_every_byte(begun: Seq<u8>, s: Seq<u8>)
    ensures
        cut(begun, s).0.flatten() + cut(begun, s).1 == begun + s,
    decreases s.len(),
{
    let (lines, rest) = cut(begun, s);
    if s.len() == 0 {
        assert(lines =~= Seq::empty());
        assert(lines.flatten() =~= Seq::<u8>::empty());
        assert(begun + s =~= begun);
        assert(Seq::<u8>::empty() + begun =~= begun);
    } else {
        law_cutting_keeps_every_byte(begun, s.drop_last());
        let (before, begun_last) = cut(begun, s.drop_last());
        let line = begun_last.push(s.last());
        assert((begun + s.drop_last()).push(s.last()) =~= begun + s);
        assert(before.flatten() + line =~= (before.flatten() + begun_last).push(s.last()));
        if is_break(s.last()) {
            assert(lines == before.push(line));
            before.lemma_flatten_push(line);
            assert(lines.flatten() + Seq::<u8>::empty() =~= before.flatten() + line);
        }
    }
}

/// Every line that is cut off ends at its first line break, and what is left
/// holds none.
pub proof fn law_lines_end_at_a_break(begun: Seq<u8>, s: Seq<u8>)
    requires
        forall|i: int| 0 <= i < begun.len() ==> !is_break(#[trigger] begun[i]),
    ensures
        forall|k: int|
            0 <= k < cut(begun, s).0.len() ==> ends_at_break(#[trigger] cut(begun, s).0[k]),
        forall|i: int| 0 <= i < cut(begun, s).1.len() ==> !is_break(#[trigger] cut(begun, s).1[i]),
    decreases s.len(),
{
    if s.len() > 0 {
        law_lines_end_at_a_break(begun, s.drop_last());
        let (lines, rest) = cut(begun, s.drop_last());
        let line = rest.push(s.last());
        if is_break(s.last()) {
            assert(ends_at_break(line));
            assert forall|k: int| 0 <= k < cut(begun, s).0.len() implies ends_at_break(
                #[trigger] cut(begun, s).0[k],
            ) by {
                if k < lines.len() {
                    assert(cut(begun, s).0[k] == lines[k]);
                }
            }
        }
    }
}

/// Whether the last byte is a line break, and the only one.
pub open spec fn ends_at_break(line: Seq<u8>) -> bool {
    &&& line.len() > 0
    &&& is_break(line.last())
    &&& forall|i: int| 0 <= i < line.len() - 1 ==> !is_break(#[trigger] line[i])
}

} // verus!
