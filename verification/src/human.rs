//! Durations in words, such as `1h 30min`, as far as it matters how long they
//! are: which of them reach 2^64 seconds.

use vstd::prelude::*;
use vstd::slice::slice_subrange;

use crate::text;
use crate::text::{parse_unsigned, split_on, string_of, text_is, white_space};

verus! {

/// 2^64 seconds in nanoseconds.
pub const LIMIT_NANOS: u128 = 18_446_744_073_709_551_616_000_000_000;

/// The letters of which a time unit is made.
pub open spec fn is_unit_letter(c: char) -> bool {
    ('a' <= c && c <= 'z') || ('A' <= c && c <= 'Z') || c as u32 == 0xb5
}

fn unit_letter(c: char) -> (r: bool)
    ensures
        r == is_unit_letter(c),
{
    ('a' <= c && c <= 'z') || ('A' <= c && c <= 'Z') || c as u32 == 0xb5
}

/// The nanoseconds of the unit that goes by the name `u`.
pub open spec fn unit_nanos(u: Seq<char>) -> Option<nat> {
    if u == "nanos"@ || u == "nsec"@ || u == "ns"@ {
        Some(1)
    } else if u == "usec"@ || u == "us"@ || u == "µs"@ {
        Some(1_000)
    } else if u == "millis"@ || u == "msec"@ || u == "ms"@ {
        Some(1_000_000)
    } else if u == "seconds"@ || u == "second"@ || u == "secs"@ || u == "sec"@ || u == "s"@ {
        Some(1_000_000_000)
    } else if u == "minutes"@ || u == "minute"@ || u == "min"@ || u == "mins"@ || u == "m"@ {
        Some(60_000_000_000)
    } else if u == "hours"@ || u == "hour"@ || u == "hr"@ || u == "hrs"@ || u == "h"@ {
        Some(3_600_000_000_000)
    } else if u == "days"@ || u == "day"@ || u == "d"@ {
        Some(86_400_000_000_000)
    } else if u == "weeks"@ || u == "week"@ || u == "wk"@ || u == "wks"@ || u == "w"@ {
        Some(604_800_000_000_000)
    } else if u == "months"@ || u == "month"@ || u == "M"@ {
        Some(2_630_016_000_000_000)
    } else if u == "years"@ || u == "year"@ || u == "yr"@ || u == "yrs"@ || u == "y"@ {
        Some(31_557_600_000_000_000)
    } else {
        None
    }
}

fn unit_of(u: &str) -> (r: Option<u128>)
    ensures
        match r {
            Some(n) => unit_nanos(u@) == Some(n as nat) && 0 < n <= 31_557_600_000_000_000,
            None => unit_nanos(u@) is None,
        },
{
    if text_is(u, "nanos") || text_is(u, "nsec") || text_is(u, "ns") {
        Some(1)
    } else if text_is(u, "usec") || text_is(u, "us") || text_is(u, "µs") {
        Some(1_000)
    } else if text_is(u, "millis") || text_is(u, "msec") || text_is(u, "ms") {
        Some(1_000_000)
    } else if text_is(u, "seconds") || text_is(u, "second") || text_is(u, "secs") || text_is(
        u,
        "sec",
    ) || text_is(u, "s") {
        Some(1_000_000_000)
    } else if text_is(u, "minutes") || text_is(u, "minute") || text_is(u, "min") || text_is(
        u,
        "mins",
    ) || text_is(u, "m") {
        Some(60_000_000_000)
    } else if text_is(u, "hours") || text_is(u, "hour") || text_is(u, "hr") || text_is(u, "hrs")
        || text_is(u, "h") {
        Some(3_600_000_000_000)
    } else if text_is(u, "days") || text_is(u, "day") || text_is(u, "d") {
        Some(86_400_000_000_000)
    } else if text_is(u, "weeks") || text_is(u, "week") || text_is(u, "wk") || text_is(u, "wks")
        || text_is(u, "w") {
        Some(604_800_000_000_000)
    } else if text_is(u, "months") || text_is(u, "month") || text_is(u, "M") {
        Some(2_630_016_000_000_000)
    } else if text_is(u, "years") || text_is(u, "year") || text_is(u, "yr") || text_is(u, "yrs")
        || text_is(u, "y") {
        Some(31_557_600_000_000_000)
    } else {
        None
    }
}

/// The first place from `i` on with a unit letter, or the end.
pub open spec fn unit_start(s: Seq<char>, i: int) -> int
    decreases s.len() - i,
{
    if 0 <= i < s.len() && !is_unit_letter(s[i]) {
        unit_start(s, i + 1)
    } else {
        i
    }
}

/// The first place from `i` on without a unit letter, or the end.
pub open spec fn unit_end(s: Seq<char>, i: int) -> int
    decreases s.len() - i,
{
    if 0 <= i < s.len() && is_unit_letter(s[i]) {
        unit_end(s, i + 1)
    } else {
        i
    }
}

/// `s` without its white space.
pub open spec fn squeezed(s: Seq<char>) -> Seq<char>
    decreases s.len(),
{
    if s.len() == 0 {
        Seq::empty()
    } else if text::is_white_space(s.last()) {
        squeezed(s.drop_last())
    } else {
        squeezed(s.drop_last()).push(s.last())
    }
}

/// How many decimals a number can have.
pub const MAX_DECIMALS: usize = 19;

/// Whether `s` is digits, for a number of 64 bits.
pub open spec fn is_whole(s: Seq<char>) -> bool {
    text::all_digits(s) && text::number(s) <= u64::MAX
}

/// Whether `s` is the decimals of a number.
pub open spec fn is_decimals(s: Seq<char>) -> bool {
    text::all_digits(s) && s.len() <= MAX_DECIMALS
}

/// The digits of a number ahead of its decimal point, and its decimals. White
/// space does not count. `None` where `t` is no number.
pub open spec fn number_parts(t: Seq<char>) -> Option<(Seq<char>, Seq<char>)> {
    let parts = text::split(squeezed(t), '.');
    if parts.len() == 1 && is_whole(parts[0]) {
        Some((parts[0], Seq::empty()))
    } else if parts.len() == 2 && is_whole(parts[0]) && is_decimals(parts[1]) {
        Some((parts[0], parts[1]))
    } else {
        None
    }
}

/// 10 to the power of `n`.
pub open spec fn ten_to(n: nat) -> nat
    decreases n,
{
    if n == 0 {
        1
    } else {
        10 * ten_to((n - 1) as nat)
    }
}

/// The whole nanoseconds in a number of units.
pub open spec fn term(whole: Seq<char>, decimals: Seq<char>, unit: nat) -> nat {
    text::number(whole) * unit + text::number(decimals) * unit / ten_to(decimals.len())
}

/// Whether a unit can end at `j`: where the text ends, at the next number, or
/// at white space.
pub open spec fn can_end(s: Seq<char>, j: int) -> bool {
    j >= s.len() || text::is_digit(s[j]) || text::is_white_space(s[j])
}

/// The nanoseconds of the number from `i` to `k` with the unit from `k` to `j`;
/// `None` where they are no number or no unit.
pub open spec fn term_at(s: Seq<char>, i: int, k: int, j: int) -> Option<nat> {
    match (number_parts(s.subrange(i, k)), unit_nanos(s.subrange(k, j))) {
        (Some((whole, decimals)), Some(unit)) => if can_end(s, j) {
            Some(term(whole, decimals, unit))
        } else {
            None
        },
        _ => None,
    }
}

/// The nanoseconds that the numbers with their units from `i` on add up to, as
/// far as there is a number with a unit.
pub open spec fn sum_from(s: Seq<char>, i: int) -> nat
    decreases s.len() - i,
    when 0 <= i <= s.len()
{
    proof {
        lemma_unit_start(s, i);
        lemma_unit_end(s, unit_start(s, i));
    }
    let k = unit_start(s, i);
    let j = unit_end(s, k);
    if k >= s.len() {
        0
    } else {
        match term_at(s, i, k, j) {
            Some(n) => n + sum_from(s, j),
            None => 0,
        }
    }
}

/// Whether the numbers with their units that `s` begins with add up to 2^64
/// seconds or more.
pub open spec fn reaches_limit(s: Seq<char>) -> bool {
    sum_from(s, 0) >= LIMIT_NANOS
}

/// The place found lies within the text.
pub proof fn lemma_unit_start(s: Seq<char>, i: int)
    requires
        0 <= i <= s.len(),
    ensures
        i <= unit_start(s, i) <= s.len(),
        unit_start(s, i) < s.len() ==> is_unit_letter(s[unit_start(s, i)]),
    decreases s.len() - i,
{
    if i < s.len() && !is_unit_letter(s[i]) {
        lemma_unit_start(s, i + 1);
    }
}

/// The place found lies within the text, and behind a letter.
pub proof fn lemma_unit_end(s: Seq<char>, i: int)
    requires
        0 <= i <= s.len(),
    ensures
        i <= unit_end(s, i) <= s.len(),
        i < s.len() && is_unit_letter(s[i]) ==> i < unit_end(s, i),
    decreases s.len() - i,
{
    if i < s.len() && is_unit_letter(s[i]) {
        lemma_unit_end(s, i + 1);
    }
}

fn squeeze(s: &[char]) -> (r: Vec<char>)
    ensures
        r@ == squeezed(s@),
{
    let mut r: Vec<char> = Vec::new();
    let mut i: usize = 0;
    assert(s@.take(0) =~= Seq::<char>::empty());
    while i < s.len()
        invariant
            i <= s.len(),
            r@ == squeezed(s@.take(i as int)),
        decreases s.len() - i,
    {
        assert(s@.take(i as int + 1).drop_last() =~= s@.take(i as int));
        if !white_space(s[i]) {
            r.push(s[i]);
        }
        i += 1;
    }
    assert(s@.take(i as int) =~= s@);
    r
}

/// Reads digits, for a number of 64 bits.
fn read_whole(s: &[char]) -> (r: Option<u64>)
    ensures
        match r {
            Some(n) => is_whole(s@) && n == text::number(s@),
            None => !is_whole(s@),
        },
{
    if s.len() > 0 && s[0] == '+' {
        assert(!text::is_digit(s@[0]));
        return None;
    }
    parse_unsigned(s, u64::MAX)
}

/// Digits stand for less than 10 to the power of their number.
proof fn lemma_number_bound(s: Seq<char>)
    requires
        forall|i: int| 0 <= i < s.len() ==> text::is_digit(#[trigger] s[i]),
    ensures
        text::number(s) < ten_to(s.len()),
    decreases s.len(),
{
    if s.len() > 0 {
        assert(text::is_digit(s[s.len() - 1]));
        assert forall|i: int| 0 <= i < s.drop_last().len() implies text::is_digit(
            #[trigger] s.drop_last()[i],
        ) by {
            assert(s.drop_last()[i] == s[i]);
        }
        lemma_number_bound(s.drop_last());
    }
}

/// 10 to the power of what decimals there can be.
fn power_of_ten(n: usize) -> (r: u64)
    requires
        n <= MAX_DECIMALS,
    ensures
        r == ten_to(n as nat),
        r > 0,
{
    let mut r: u64 = 1;
    let mut i: usize = 0;
    proof {
        lemma_powers_of_ten();
    }
    while i < n
        invariant
            i <= n <= MAX_DECIMALS,
            r == ten_to(i as nat),
            r > 0,
            forall|j: nat| j <= MAX_DECIMALS ==> #[trigger] ten_to(j) <= 10_000_000_000_000_000_000,
        decreases n - i,
    {
        assert(ten_to((i + 1) as nat) == 10 * r);
        r = r * 10;
        i += 1;
    }
    r
}

/// As many decimals as there can be are of 64 bits.
proof fn lemma_powers_of_ten()
    ensures
        forall|j: nat| j <= MAX_DECIMALS ==> #[trigger] ten_to(j) <= 10_000_000_000_000_000_000,
{
    assert(ten_to(MAX_DECIMALS as nat) == 10_000_000_000_000_000_000) by {
        reveal_with_fuel(ten_to, 20);
    }
    assert forall|j: nat| j <= MAX_DECIMALS implies #[trigger] ten_to(j)
        <= 10_000_000_000_000_000_000 by {
        lemma_ten_to_grows(j, MAX_DECIMALS as nat);
    }
}

proof fn lemma_ten_to_grows(a: nat, b: nat)
    requires
        a <= b,
    ensures
        ten_to(a) <= ten_to(b),
    decreases b,
{
    if a < b {
        lemma_ten_to_grows(a, (b - 1) as nat);
    }
}

/// The whole nanoseconds in `whole` units and a fraction of one, in as many
/// decimals as `count`.
fn read_term(whole: u64, fraction: u64, count: usize, unit: u128) -> (r: u128)
    requires
        0 < unit <= 31_557_600_000_000_000,
        count <= MAX_DECIMALS,
    ensures
        r == whole * unit + fraction * unit / (ten_to(count as nat) as int),
        r <= 2 * 0x1_0000_0000_0000_0000 * 31_557_600_000_000_000,
{
    let power: u64 = power_of_ten(count);
    proof {
        assert(whole * unit <= 0x1_0000_0000_0000_0000 * 31_557_600_000_000_000)
            by (nonlinear_arith)
            requires
                whole <= 0x1_0000_0000_0000_0000,
                0 < unit <= 31_557_600_000_000_000,
        ;
        assert(fraction * unit <= 0x1_0000_0000_0000_0000 * 31_557_600_000_000_000)
            by (nonlinear_arith)
            requires
                fraction <= 0x1_0000_0000_0000_0000,
                0 < unit <= 31_557_600_000_000_000,
        ;
    }
    let product: u128 = fraction as u128 * unit;
    let part: u128 = product / power as u128;
    assert(part <= product) by (nonlinear_arith)
        requires
            part == product / (power as u128),
            power > 0,
    ;
    whole as u128 * unit + part
}

/// The nanoseconds of the number from `i` to `k` with the unit from `k` to `j`.
fn read_term_at(s: &[char], i: usize, k: usize, j: usize) -> (r: Option<u128>)
    requires
        i <= k <= j <= s.len(),
    ensures
        match r {
            Some(n) => term_at(s@, i as int, k as int, j as int) == Some(n as nat) && n <= 2
                * 0x1_0000_0000_0000_0000 * 31_557_600_000_000_000,
            None => term_at(s@, i as int, k as int, j as int) is None,
        },
{
    let unit: u128 = match unit_of(string_of(slice_subrange(s, k, j)).as_str()) {
        Some(unit) => unit,
        None => return None,
    };
    if j < s.len() && !('0' <= s[j] && s[j] <= '9') && !white_space(s[j]) {
        return None;
    }
    let parts = split_on(squeeze(slice_subrange(s, i, k)).as_slice(), '.');
    let ghost all = text::pieces(parts@);
    assert(all[0] == parts@[0]@);
    if parts.len() > 2 {
        return None;
    }
    let whole: u64 = match read_whole(parts[0].as_slice()) {
        Some(whole) => whole,
        None => return None,
    };
    if parts.len() == 1 {
        return Some(read_term(whole, 0, 0, unit));
    }
    assert(all[1] == parts@[1]@);
    if parts[1].len() > MAX_DECIMALS {
        return None;
    }
    proof {
        if text::all_digits(all[1]) {
            lemma_number_bound(all[1]);
            lemma_powers_of_ten();
            assert(ten_to(all[1].len()) <= 10_000_000_000_000_000_000);
        }
    }
    match read_whole(parts[1].as_slice()) {
        Some(fraction) => Some(read_term(whole, fraction, parts[1].len(), unit)),
        None => None,
    }
}

/// Whether the numbers with their units that `s` begins with add up to 2^64
/// seconds or more.
pub fn at_limit(s: &[char]) -> (r: bool)
    ensures
        r == reaches_limit(s@),
{
    let mut sum: u128 = 0;
    let mut i: usize = 0;
    loop
        invariant
            i <= s.len(),
            sum < LIMIT_NANOS,
            sum_from(s@, 0) == sum + sum_from(s@, i as int),
        decreases s.len() - i,
    {
        let mut k: usize = i;
        while k < s.len() && !unit_letter(s[k])
            invariant
                i <= k <= s.len(),
                unit_start(s@, i as int) == unit_start(s@, k as int),
            decreases s.len() - k,
        {
            k += 1;
        }
        if k == s.len() {
            return false;
        }
        let mut j: usize = k;
        while j < s.len() && unit_letter(s[j])
            invariant
                k <= j <= s.len(),
                unit_end(s@, k as int) == unit_end(s@, j as int),
            decreases s.len() - j,
        {
            j += 1;
        }
        proof {
            lemma_unit_end(s@, k as int);
        }
        match read_term_at(s, i, k, j) {
            Some(n) => {
                sum += n;
            },
            None => return false,
        }
        if sum >= LIMIT_NANOS {
            return true;
        }
        i = j;
    }
}

/// Only the names of a year stand for more than a month.
proof fn lemma_years(u: Seq<char>)
    requires
        unit_nanos(u) matches Some(n) && n > 2_630_016_000_000_000,
    ensures
        u.len() > 0 && u[0] == 'y',
{
    reveal_strlit("years");
    reveal_strlit("year");
    reveal_strlit("yr");
    reveal_strlit("yrs");
    reveal_strlit("y");
}

/// Text without white space is as it is.
proof fn lemma_squeezed(s: Seq<char>)
    requires
        forall|i: int| 0 <= i < s.len() ==> !text::is_white_space(#[trigger] s[i]),
    ensures
        squeezed(s) == s,
    decreases s.len(),
{
    if s.len() > 0 {
        assert(!text::is_white_space(s[s.len() - 1]));
        assert forall|i: int| 0 <= i < s.drop_last().len() implies !text::is_white_space(
            #[trigger] s.drop_last()[i],
        ) by {
            assert(s.drop_last()[i] == s[i]);
        }
        lemma_squeezed(s.drop_last());
        assert(s.drop_last().push(s.last()) =~= s);
    }
}

proof fn lemma_unit_start_is(s: Seq<char>, i: int, k: int)
    requires
        0 <= i <= k <= s.len(),
        forall|j: int| i <= j < k ==> !is_unit_letter(#[trigger] s[j]),
        k < s.len() ==> is_unit_letter(s[k]),
    ensures
        unit_start(s, i) == k,
    decreases k - i,
{
    if i < k {
        lemma_unit_start_is(s, i + 1, k);
    }
}

proof fn lemma_unit_end_is_end(s: Seq<char>, i: int)
    requires
        0 <= i <= s.len(),
        forall|j: int| i <= j < s.len() ==> is_unit_letter(#[trigger] s[j]),
    ensures
        unit_end(s, i) == s.len(),
    decreases s.len() - i,
{
    if i < s.len() {
        lemma_unit_end_is_end(s, i + 1);
    }
}

/// One number of at most 10^12, its first `k` characters, with a unit that is
/// no year, the rest, does not reach the limit.
pub proof fn lemma_plain_number(s: Seq<char>, k: int)
    requires
        0 < k < s.len(),
        forall|i: int| 0 <= i < k ==> text::is_digit(#[trigger] s[i]),
        forall|i: int| k <= i < s.len() ==> is_unit_letter(#[trigger] s[i]),
        text::number(s.take(k)) <= 1_000_000_000_000,
        s[k] != 'y',
    ensures
        !reaches_limit(s),
{
    let n = s.take(k);
    lemma_unit_start_is(s, 0, k);
    lemma_unit_end_is_end(s, k);
    let u = s.subrange(k, s.len() as int);
    assert(u[0] == s[k]);
    assert(s.subrange(0, k) =~= n);
    assert forall|i: int| 0 <= i < n.len() implies !text::is_white_space(#[trigger] n[i])
        && n[i] != '.' by {
        assert(text::is_digit(s[i]));
    }
    lemma_squeezed(n);
    text::lemma_find_from(n, '.', 0);
    assert(text::split(n, '.') =~= seq![n.skip(0)]);
    assert(n.skip(0) =~= n);
    assert(sum_from(s, s.len() as int) == 0);
    match unit_nanos(u) {
        Some(unit) => {
            if unit > 2_630_016_000_000_000 {
                lemma_years(u);
            }
            assert(text::number(n) * unit <= 1_000_000_000_000 * 2_630_016_000_000_000)
                by (nonlinear_arith)
                requires
                    text::number(n) <= 1_000_000_000_000,
                    unit <= 2_630_016_000_000_000,
            ;
            assert(text::number(Seq::<char>::empty()) == 0);
            assert(0nat * unit / ten_to(0) == 0);
            assert(term(n, Seq::empty(), unit) == text::number(n) * unit);
        },
        None => {},
    }
}

// ---------------------------------------------------------------------------
// Sums

/// A number with a unit: the whole number, its decimals, and the unit.
pub struct Term {
    pub whole: nat,
    pub decimals: Seq<char>,
    pub unit: Seq<char>,
}

impl Term {
    /// Whether this is a number of 64 bits, with no more than 19 decimals.
    pub open spec fn wf(self) -> bool {
        &&& self.whole <= u64::MAX
        &&& self.decimals.len() == 0 || (text::all_digits(self.decimals) && self.decimals.len()
            <= 19)
        &&& unit_nanos(self.unit) is Some
        &&& self.unit.len() > 0
        &&& forall|k: int| 0 <= k < self.unit.len() ==> is_unit_letter(#[trigger] self.unit[k])
    }

    /// The number, with a point ahead of its decimals where it has any.
    pub open spec fn number(self) -> Seq<char> {
        if self.decimals.len() == 0 {
            text::decimal(self.whole)
        } else {
            text::decimal(self.whole) + seq!['.'] + self.decimals
        }
    }

    /// The whole nanoseconds that it is.
    pub open spec fn nanos(self) -> nat {
        let unit = unit_nanos(self.unit)->0;
        self.whole * unit + text::number(self.decimals) * unit / ten_to(self.decimals.len())
    }
}

/// Whether `terms` are numbers with units.
pub open spec fn are_terms(terms: Seq<Term>) -> bool {
    forall|i: int| 0 <= i < terms.len() ==> (#[trigger] terms[i]).wf()
}

/// `terms` in words, with a space between any two.
pub open spec fn sum_text(terms: Seq<Term>) -> Seq<char> {
    text::join(terms.map_values(|t: Term| t.number() + t.unit), ' ')
}

/// The nanoseconds that `terms` add up to.
pub open spec fn sum_nanos(terms: Seq<Term>) -> nat
    decreases terms.len(),
{
    if terms.len() == 0 {
        0
    } else {
        terms[0].nanos() + sum_nanos(terms.skip(1))
    }
}

/// White space does not count in a number.
proof fn lemma_squeezed_add(a: Seq<char>, b: Seq<char>)
    requires
        forall|i: int| 0 <= i < a.len() ==> text::is_white_space(#[trigger] a[i]),
        forall|i: int| 0 <= i < b.len() ==> !text::is_white_space(#[trigger] b[i]),
    ensures
        squeezed(a + b) == b,
    decreases a.len() + b.len(),
{
    if b.len() > 0 {
        let c = b.drop_last();
        assert((a + b).last() == b[b.len() - 1]);
        assert((a + b).drop_last() =~= a + c);
        assert forall|i: int| 0 <= i < c.len() implies !text::is_white_space(#[trigger] c[i]) by {
            assert(c[i] == b[i]);
        }
        lemma_squeezed_add(a, c);
        assert(c.push(b.last()) =~= b);
    } else if a.len() > 0 {
        let c = a.drop_last();
        assert((a + b).last() == a[a.len() - 1]);
        assert((a + b).drop_last() =~= c + b);
        assert forall|i: int| 0 <= i < c.len() implies text::is_white_space(#[trigger] c[i]) by {
            assert(c[i] == a[i]);
        }
        lemma_squeezed_add(c, b);
    }
}

/// The parts of a number, with white space ahead of it.
proof fn lemma_number_of_term(lead: Seq<char>, t: Term)
    requires
        t.wf(),
        forall|i: int| 0 <= i < lead.len() ==> text::is_white_space(#[trigger] lead[i]),
    ensures
        number_parts(lead + t.number()) == Some((text::decimal(t.whole), t.decimals)),
        forall|i: int| 0 <= i < t.number().len() ==> !is_unit_letter(#[trigger] t.number()[i]),
{
    let d = text::decimal(t.whole);
    let n = t.number();
    text::lemma_decimal(t.whole);
    assert forall|i: int| 0 <= i < n.len() implies !text::is_white_space(#[trigger] n[i])
        && !is_unit_letter(n[i]) by {
        if i < d.len() {
            assert(n[i] == d[i]);
            assert(text::is_digit(d[i]));
        } else if i > d.len() {
            assert(n[i] == t.decimals[i - d.len() - 1]);
            assert(text::is_digit(t.decimals[i - d.len() - 1]));
        }
    }
    lemma_squeezed_add(lead, n);
    let items = if t.decimals.len() == 0 {
        seq![d]
    } else {
        seq![d, t.decimals]
    };
    assert forall|i: int| 0 <= i < items.len() implies !(#[trigger] items[i]).contains('.') by {
        assert forall|k: int| 0 <= k < items[i].len() implies items[i][k] != '.' by {
            assert(text::is_digit(items[i][k]));
        }
    }
    if t.decimals.len() == 0 {
        assert(t.decimals =~= Seq::empty());
    } else {
        assert(items.skip(1) =~= seq![t.decimals]);
        assert(text::join(items.skip(1), '.') == t.decimals);
    }
    assert(text::join(items, '.') =~= n);
    text::law_splitting_undoes_joining(items, '.');
}

/// The first place without a unit letter.
proof fn lemma_unit_end_is(s: Seq<char>, i: int, j: int)
    requires
        0 <= i <= j <= s.len(),
        forall|k: int| i <= k < j ==> is_unit_letter(#[trigger] s[k]),
        j < s.len() ==> !is_unit_letter(s[j]),
    ensures
        unit_end(s, i) == j,
    decreases j - i,
{
    if i < j {
        lemma_unit_end_is(s, i + 1, j);
    }
}

proof fn lemma_sum_behind(before: Seq<char>, lead: Seq<char>, terms: Seq<Term>)
    requires
        are_terms(terms),
        terms.len() > 0,
        forall|i: int| 0 <= i < lead.len() ==> text::is_white_space(#[trigger] lead[i]),
    ensures
        sum_from(before + lead + sum_text(terms), before.len() as int) == sum_nanos(terms),
    decreases terms.len(),
{
    let s = before + lead + sum_text(terms);
    let words = terms.map_values(|t: Term| t.number() + t.unit);
    let rest = terms.skip(1);
    let rest_words = rest.map_values(|t: Term| t.number() + t.unit);
    let t = terms[0];
    let (d, u) = (t.number(), t.unit);
    let i = before.len() as int;
    let k = i + lead.len() + d.len();
    let j = k + u.len();
    assert(words[0] == d + u);
    assert(words.skip(1) =~= rest_words);
    let tail = if terms.len() == 1 {
        Seq::<char>::empty()
    } else {
        seq![' '] + text::join(rest_words, ' ')
    };
    assert(sum_text(terms) =~= d + u + tail);
    assert(s =~= before + lead + d + u + tail);
    lemma_number_of_term(lead, t);
    assert forall|m: int| i <= m < k implies !is_unit_letter(#[trigger] s[m]) by {
        if m < i + lead.len() {
            assert(s[m] == lead[m - i]);
        } else {
            assert(s[m] == d[m - i - lead.len()]);
        }
    }
    assert forall|m: int| k <= m < j implies is_unit_letter(#[trigger] s[m]) by {
        assert(s[m] == u[m - k]);
        assert(is_unit_letter(t.unit[m - k]));
    }
    assert(j < s.len() ==> s[j] == ' ');
    lemma_unit_start_is(s, i, k);
    lemma_unit_end_is(s, k, j);
    assert(s.subrange(i, k) =~= lead + d);
    assert(s.subrange(k, j) =~= u);
    text::lemma_decimal(t.whole);
    assert(term_at(s, i, k, j) == Some(t.nanos()));
    if terms.len() == 1 {
        assert(j == s.len());
        assert(sum_from(s, j) == 0);
        assert(sum_nanos(rest) == 0);
    } else {
        assert forall|m: int| 0 <= m < rest.len() implies (#[trigger] rest[m]).wf() by {
            assert(rest[m] == terms[m + 1]);
        }
        let next = before + lead + d + u;
        lemma_sum_behind(next, seq![' '], rest);
        assert(s =~= next + seq![' '] + sum_text(rest));
    }
    assert(sum_from(s, i) == t.nanos() + sum_from(s, j));
}

/// Numbers with units reach the limit exactly where they add up to 2^64
/// seconds or more, however many they are.
pub proof fn law_sums_reach_the_limit_by_adding_up(terms: Seq<Term>)
    requires
        terms.len() > 0,
        are_terms(terms),
    ensures
        reaches_limit(sum_text(terms)) <==> sum_nanos(terms) >= 0x1_0000_0000_0000_0000
            * 1_000_000_000,
{
    lemma_sum_behind(Seq::empty(), Seq::empty(), terms);
    assert(Seq::<char>::empty() + Seq::<char>::empty() + sum_text(terms) =~= sum_text(terms));
}

/// What the units stand for.
pub proof fn law_units_of_time()
    ensures
        unit_nanos("ns"@) == Some(1nat),
        unit_nanos("us"@) == Some(1000nat),
        unit_nanos("ms"@) == Some(1000 * 1000nat),
        unit_nanos("s"@) == Some(1000 * 1000 * 1000nat),
        unit_nanos("m"@) == Some(60 * 1000 * 1000 * 1000nat),
        unit_nanos("h"@) == Some(60 * 60 * 1000 * 1000 * 1000nat),
        unit_nanos("d"@) == Some(24 * 60 * 60 * 1000 * 1000 * 1000nat),
        unit_nanos("w"@) == Some(7 * 24 * 60 * 60 * 1000 * 1000 * 1000nat),
{
    reveal_strlit("nanos");
    reveal_strlit("nsec");
    reveal_strlit("ns");
    reveal_strlit("usec");
    reveal_strlit("us");
    reveal_strlit("µs");
    reveal_strlit("millis");
    reveal_strlit("msec");
    reveal_strlit("ms");
    reveal_strlit("seconds");
    reveal_strlit("second");
    reveal_strlit("secs");
    reveal_strlit("sec");
    reveal_strlit("s");
    reveal_strlit("minutes");
    reveal_strlit("minute");
    reveal_strlit("min");
    reveal_strlit("mins");
    reveal_strlit("m");
    reveal_strlit("hours");
    reveal_strlit("hour");
    reveal_strlit("hr");
    reveal_strlit("hrs");
    reveal_strlit("h");
    reveal_strlit("days");
    reveal_strlit("day");
    reveal_strlit("d");
    reveal_strlit("weeks");
    reveal_strlit("week");
    reveal_strlit("wk");
    reveal_strlit("wks");
    reveal_strlit("w");
    assert("ns"@[0] == 'n' && "us"@[0] == 'u' && "µs"@[0] == 'µ' && "ms"@[0] == 'm');
    assert("s"@[0] == 's' && "m"@[0] == 'm' && "h"@[0] == 'h' && "d"@[0] == 'd' && "w"@[0] == 'w');
    assert("m"@.len() == 1);
    assert("m"@ != "s"@ && "m"@ != "ns"@ && "m"@ != "us"@ && "m"@ != "ms"@);
    assert("m"@ != "nanos"@ && "m"@ != "nsec"@ && "m"@ != "usec"@ && "m"@ != "µs"@);
    assert("m"@ != "millis"@ && "m"@ != "msec"@);
    assert("m"@ != "seconds"@ && "m"@ != "second"@ && "m"@ != "secs"@ && "m"@ != "sec"@);
    assert(unit_nanos("m"@) is Some);
    assert("h"@ != "s"@ && "h"@ != "m"@);
    assert("d"@ != "s"@ && "d"@ != "m"@ && "d"@ != "h"@);
    assert("w"@ != "s"@ && "w"@ != "m"@ && "w"@ != "h"@ && "w"@ != "d"@);
}

} // verus!
