//! Command-line settings. Defaults mirror CrystalDiskMark 9 with its
//! "NVMe SSD" task preset.

use vstd::prelude::*;

use crate::duration::Duration;
use crate::human;
use crate::human::at_limit;
use crate::task;
use crate::task::{Fault, Pattern, SpecError, TaskSpec};
use crate::text;
use crate::text::{chars_of, parse_unsigned, split_on, string_of, text_is};

verus! {

pub const DEFAULT_TARGET: &'static str = ".";

pub const DEFAULT_TASKS: &'static str = "SEQ1MQ8T1,SEQ128KQ32T1,RND4KQ32T16,RND4KQ1T1";

pub const DEFAULT_UNIT: &'static str = "MB/s";

pub const DEFAULT_RUNS: &'static str = "3";

pub const DEFAULT_SIZE: &'static str = "1GiB";

/// Default of the measured run, the warmup and the pause.
pub const DEFAULT_TIME: &'static str = "5s";

/// The command line as it was given, option by option; `None` or an empty
/// list where an option is absent.
#[derive(Debug)]
pub struct Args {
    pub target: Option<String>,
    /// Each value of `--tasks`, a comma-separated list.
    pub tasks: Vec<String>,
    pub unit: Option<String>,
    pub runs: Option<String>,
    pub size: Option<String>,
    pub duration: Option<String>,
    pub warmup: Option<String>,
    pub interval: Option<String>,
    pub json: bool,
}

/// The settings of one session.
#[derive(Debug)]
pub struct Cli {
    /// Directory to benchmark (the test file is created here)
    pub target: String,
    /// Workloads, in the order in which they run
    pub tasks: Vec<TaskSpec>,
    /// Initial display unit
    pub unit: Unit,
    /// Measured runs per read/write operation; the best result is kept
    pub runs: u32,
    /// Test file size in bytes
    pub size: u64,
    /// Duration of each measured run
    pub duration: Duration,
    /// Unmeasured warmup before each operation (zero to disable)
    pub warmup: Duration,
    /// Pause between operations (zero to disable)
    pub interval: Duration,
    /// Emit one JSON object per completed workload
    pub json: bool,
}

/// A value that was rejected: which option it is of, and why.
#[derive(Debug)]
pub enum CliError {
    Tasks(SpecError),
    /// Holds the unknown name.
    Unit(String),
    /// Holds the value that is not between 1 and 99.
    Runs(String),
    /// The others hold the reason.
    Size(String),
    Duration(String),
    Warmup(String),
    Interval(String),
}

/// Display unit for benchmark results.
#[derive(Debug, Clone, Copy, PartialEq, Eq, Structural)]
pub enum Unit {
    /// Decimal megabytes per second (bytes / 10^6), as in CrystalDiskMark
    MegabytesPerSec,
    /// I/O operations per second
    Iops,
}

impl Unit {
    /// The other unit.
    pub fn toggled(self) -> (r: Unit)
        ensures
            r == self.other(),
    {
        match self {
            Unit::MegabytesPerSec => Unit::Iops,
            Unit::Iops => Unit::MegabytesPerSec,
        }
    }

    /// The other unit.
    pub open spec fn other(self) -> Unit {
        match self {
            Unit::MegabytesPerSec => Unit::Iops,
            Unit::Iops => Unit::MegabytesPerSec,
        }
    }

    /// The unit's heading.
    pub open spec fn heading_text(self) -> Seq<char> {
        match self {
            Unit::MegabytesPerSec => "MB/s"@,
            Unit::Iops => "IOPS"@,
        }
    }

    pub fn heading(self) -> (r: &'static str)
        ensures
            r@ == self.heading_text(),
    {
        match self {
            Unit::MegabytesPerSec => "MB/s",
            Unit::Iops => "IOPS",
        }
    }

    /// The unit that goes by the name `s`.
    pub open spec fn named(s: Seq<char>) -> Option<Unit> {
        if s == "MB/s"@ || s == "mbs"@ || s == "mb"@ {
            Some(Unit::MegabytesPerSec)
        } else if s == "IOPS"@ || s == "iops"@ {
            Some(Unit::Iops)
        } else {
            None
        }
    }

    /// The unit that goes by the name `s`.
    pub fn from_name(s: &str) -> (r: Option<Unit>)
        ensures
            r == Unit::named(s@),
    {
        if text_is(s, "MB/s") || text_is(s, "mbs") || text_is(s, "mb") {
            Some(Unit::MegabytesPerSec)
        } else if text_is(s, "IOPS") || text_is(s, "iops") {
            Some(Unit::Iops)
        } else {
            None
        }
    }
}

/// Toggling the unit twice gives it back.
pub proof fn law_toggling_twice_is_nothing(unit: Unit)
    ensures
        unit.other().other() == unit,
        unit.other() != unit,
{
}

/// A unit goes by its own heading.
pub proof fn law_heading_names_the_unit(unit: Unit)
    ensures
        Unit::named(unit.heading_text()) == Some(unit),
{
    reveal_strlit("MB/s");
    reveal_strlit("IOPS");
    reveal_strlit("mbs");
    reveal_strlit("mb");
    if unit is Iops {
        assert("IOPS"@[0] == 'I');
        assert("MB/s"@[0] == 'M');
        assert("mbs"@.len() == 3);
        assert("mb"@.len() == 2);
    }
}

// ---------------------------------------------------------------------------
// Sizes

/// What `parse_size` makes of `s` when every unit is binary: the bytes, or the
/// text of its error.
pub uninterp spec fn binary_size(s: Seq<char>) -> Result<u64, Seq<char>>;

/// The power of 1024 that a size unit stands for.
pub open spec fn size_factor(c: char) -> nat {
    if c == 'K' {
        0x400
    } else if c == 'M' {
        0x10_0000
    } else if c == 'G' {
        0x4000_0000
    } else if c == 'T' {
        0x100_0000_0000
    } else if c == 'P' {
        0x4_0000_0000_0000
    } else if c == 'E' {
        0x1000_0000_0000_0000
    } else {
        1
    }
}

/// `s` without `c` at its end.
pub open spec fn drop_suffix(s: Seq<char>, c: char) -> Seq<char> {
    if s.len() > 0 && s.last() == c {
        s.drop_last()
    } else {
        s
    }
}

/// The bytes that digits and an optional unit (`K`, `KB`, `KiB`, ... up to
/// `EiB`) stand for; `None` for any other text.
pub open spec fn plain_size(s: Seq<char>) -> Option<nat> {
    let t = drop_suffix(drop_suffix(s, 'B'), 'i');
    if t.len() == 0 {
        None
    } else {
        let factor = size_factor(t.last());
        let digits = if factor == 1 {
            t
        } else {
            t.drop_last()
        };
        if text::all_digits(digits) {
            Some(text::number(digits) * factor)
        } else {
            None
        }
    }
}

/// The result of a fallible reading, and what it should be.
pub open spec fn same_size(r: Result<u64, String>, expected: Result<u64, Seq<char>>) -> bool {
    match (r, expected) {
        (Ok(a), Ok(b)) => a == b,
        (Err(a), Err(b)) => a@ == b,
        _ => false,
    }
}

/// The number that the digits of `s` stand for, whatever stands between them.
pub open spec fn digits_value(s: Seq<char>) -> nat
    decreases s.len(),
{
    if s.len() == 0 {
        0
    } else if text::is_digit(s.last()) {
        digits_value(s.drop_last()) * 10 + text::digit_value(s.last())
    } else {
        digits_value(s.drop_last())
    }
}

/// Whether a size can begin with `s`, as far as its exponent: digits, with
/// underscores and spaces among them, and one decimal point behind a digit.
pub open spec fn is_mantissa(s: Seq<char>) -> bool
    decreases s.len(),
{
    s.len() > 0 ==> {
        let (before, c) = (s.drop_last(), s.last());
        &&& is_mantissa(before)
        &&& text::is_digit(c) || c == '_' || c == ' ' || (c == '.' && has_digit(before)
            && !before.contains('.'))
    }
}

/// Whether there is a digit in `s`.
pub open spec fn has_digit(s: Seq<char>) -> bool {
    exists|i: int| 0 <= i < s.len() && text::is_digit(#[trigger] s[i])
}

/// Whether the digit at `i` is rounded up and those ahead of it stand for the
/// greatest 64-bit number.
pub open spec fn carries_at(s: Seq<char>, i: int) -> bool {
    '5' <= s[i] && s[i] <= '9' && is_mantissa(s.take(i)) && digits_value(s.take(i)) == u64::MAX
}

/// Whether the digits ahead of one that is rounded up stand for the greatest
/// 64-bit number, so that rounding carries over.
pub open spec fn carries_over(s: Seq<char>) -> bool {
    exists|i: int| 0 <= i < s.len() && #[trigger] carries_at(s, i)
}

/// What a mantissa begins with is a mantissa.
proof fn lemma_mantissa_prefix(s: Seq<char>, i: int)
    requires
        0 <= i <= s.len(),
        is_mantissa(s),
    ensures
        is_mantissa(s.take(i)),
    decreases s.len() - i,
{
    if i < s.len() {
        lemma_mantissa_prefix(s.drop_last(), i);
        assert(s.drop_last().take(i) =~= s.take(i));
    } else {
        assert(s.take(i) =~= s);
    }
}

/// Whether rounding the digits of `s` carries over.
fn does_carry_over(s: &[char]) -> (r: bool)
    ensures
        r == carries_over(s@),
{
    let beyond: u128 = 0x1_0000_0000_0000_0000;
    let mut n: u128 = 0;
    let mut digit: bool = false;
    let mut point: bool = false;
    let mut i: usize = 0;
    assert(s@.take(0) =~= Seq::<char>::empty());
    while i < s.len()
        invariant
            i <= s.len(),
            beyond == 0x1_0000_0000_0000_0000,
            n <= beyond,
            n < beyond ==> n == digits_value(s@.take(i as int)),
            n == beyond ==> digits_value(s@.take(i as int)) >= beyond,
            is_mantissa(s@.take(i as int)),
            digit == has_digit(s@.take(i as int)),
            point == s@.take(i as int).contains('.'),
            forall|j: int| 0 <= j < i ==> !#[trigger] carries_at(s@, j),
        decreases s.len() - i,
    {
        let c = s[i];
        let ghost before = s@.take(i as int);
        let ghost next_text = s@.take(i as int + 1);
        assert(next_text.drop_last() =~= before);
        assert(next_text.last() == c);
        if n == u64::MAX as u128 && '5' <= c && c <= '9' {
            assert(carries_at(s@, i as int));
            return true;
        }
        if '0' <= c && c <= '9' {
            let next: u128 = n * 10 + (c as u32 - '0' as u32) as u128;
            n = if next < beyond {
                next
            } else {
                beyond
            };
            digit = true;
            assert(text::is_digit(next_text[i as int]));
        } else if c == '.' && digit && !point {
            point = true;
            assert(next_text[i as int] == '.');
        } else if c != '_' && c != ' ' {
            assert(!is_mantissa(next_text));
            assert forall|j: int| 0 <= j < s@.len() implies !#[trigger] carries_at(s@, j) by {
                if j > i && is_mantissa(s@.take(j)) {
                    lemma_mantissa_prefix(s@.take(j), i as int + 1);
                    assert(s@.take(j).take(i as int + 1) =~= next_text);
                }
                assert(j == i ==> !text::is_digit(c));
            }
            return false;
        }
        proof {
            assert forall|k: int| 0 <= k < before.len() implies before[k] == next_text[k] by {}
            if has_digit(next_text) && !text::is_digit(c) {
                let k = choose|k: int|
                    0 <= k < next_text.len() && text::is_digit(#[trigger] next_text[k]);
                assert(text::is_digit(before[k]));
            }
            if has_digit(before) {
                let k = choose|k: int| 0 <= k < before.len() && text::is_digit(#[trigger] before[k]);
                assert(text::is_digit(next_text[k]));
            }
            if before.contains('.') {
                let k = before.index_of('.');
                assert(next_text[k] == '.');
            }
            if next_text.contains('.') && c != '.' {
                let k = next_text.index_of('.');
                assert(before[k] == '.');
            }
        }
        i += 1;
    }
    false
}

/// The digits of digits are the digits.
proof fn lemma_digits_value(s: Seq<char>)
    requires
        forall|i: int| 0 <= i < s.len() ==> text::is_digit(#[trigger] s[i]),
    ensures
        digits_value(s) == text::number(s),
    decreases s.len(),
{
    if s.len() > 0 {
        assert(text::is_digit(s[s.len() - 1]));
        assert forall|i: int| 0 <= i < s.drop_last().len() implies text::is_digit(
            #[trigger] s.drop_last()[i],
        ) by {
            assert(s.drop_last()[i] == s[i]);
        }
        lemma_digits_value(s.drop_last());
    }
}

/// A plain size whose digits carry over is beyond 64 bits.
proof fn lemma_carrying_sizes_are_large(s: Seq<char>)
    requires
        carries_over(s),
        plain_size(s) is Some,
    ensures
        plain_size(s)->0 > u64::MAX,
{
    let t = drop_suffix(drop_suffix(s, 'B'), 'i');
    let factor = size_factor(t.last());
    let digits = if factor == 1 {
        t
    } else {
        t.drop_last()
    };
    let n = digits.len() as int;
    assert(digits =~= s.take(n));
    let i = choose|i: int| 0 <= i < s.len() && #[trigger] carries_at(s, i);
    if i >= n {
        // What follows the digits is a unit, without any digit in it.
        assert(t.len() <= i || t[i] == s[i]);
        assert(s.len() > t.len() && i >= t.len() ==> s[i] == 'B' || s[i] == 'i');
        assert(false);
    }
    let head = digits.take(i);
    let next = digits.take(i + 1);
    assert(s.take(i) =~= head);
    assert forall|j: int| 0 <= j < head.len() implies text::is_digit(#[trigger] head[j]) by {
        assert(head[j] == digits[j]);
    }
    lemma_digits_value(head);
    assert(next.drop_last() =~= head);
    assert(next.last() == s[i]);
    text::lemma_number_prefix(digits, i + 1);
    assert(text::number(digits) * factor >= text::number(digits)) by (nonlinear_arith)
        requires
            factor >= 1,
            text::number(digits) >= 0,
    ;
}

/// `parse_size::Config::parse_size` with the binary unit system; the error as
/// its `Display` shows it. The result depends on the text alone. Digits with
/// an optional unit are multiplied out, and rejected only where the product is
/// beyond 64 bits. The function counts digits in an `i32`, so the text is
/// bounded. Where rounding carries over, its addition overflows; such texts
/// are left out.
#[verifier::external_body]
fn parse_binary_size(s: &str) -> (r: Result<u64, String>)
    requires
        s@.len() <= i32::MAX,
        !carries_over(s@),
    ensures
        same_size(r, binary_size(s@)),
        plain_size(s@) matches Some(n) ==> if n <= u64::MAX {
            r == Ok::<u64, String>(n as u64)
        } else {
            r is Err
        },
{
    parse_size::Config::new().with_unit_system(parse_size::UnitSystem::Binary).parse_size(
        s,
    ).map_err(|e| e.to_string())
}

/// What is said of a size whose digits carry over.
pub const SIZE_TOO_LARGE: &'static str = "number too large to fit in target type";

/// The bytes that `s` states, or why it states none.
pub open spec fn stated_size(s: Seq<char>) -> Result<u64, Seq<char>> {
    if carries_over(s) {
        Err(SIZE_TOO_LARGE@)
    } else {
        binary_size(s)
    }
}

/// A size as it was read, with zero rejected.
pub open spec fn nonzero_size(parsed: Result<u64, Seq<char>>) -> Result<u64, Seq<char>> {
    match parsed {
        Ok(n) => if n == 0 {
            Err("size must be non-zero"@)
        } else {
            Ok(n)
        },
        Err(e) => Err(e),
    }
}

/// The views of a reading of a size.
pub open spec fn size_view(r: Result<u64, String>) -> Result<u64, Seq<char>> {
    match r {
        Ok(n) => Ok(n),
        Err(e) => Err(e@),
    }
}

/// Rejects a size of zero bytes.
pub fn reject_zero_size(parsed: Result<u64, String>) -> (r: Result<u64, String>)
    ensures
        size_view(r) == nonzero_size(size_view(parsed)),
{
    match parsed {
        Ok(n) => if n == 0 {
            Err("size must be non-zero".to_owned())
        } else {
            Ok(n)
        },
        Err(e) => Err(e),
    }
}

/// Reads a test file size (binary units: 1GiB, 512M, ...), which is not zero.
/// Digits that carry over are refused.
pub fn parse_bytes(s: &str) -> (r: Result<u64, String>)
    requires
        s@.len() <= i32::MAX,
    ensures
        size_view(r) == nonzero_size(stated_size(s@)),
        plain_size(s@) matches Some(n) ==> if n == 0 {
            r matches Err(e) && e@ == "size must be non-zero"@
        } else if n <= u64::MAX {
            r == Ok::<u64, String>(n as u64)
        } else {
            r is Err
        },
{
    if does_carry_over(chars_of(s).as_slice()) {
        proof {
            if plain_size(s@) is Some {
                lemma_carrying_sizes_are_large(s@);
            }
        }
        return Err(SIZE_TOO_LARGE.to_owned());
    }
    reject_zero_size(parse_binary_size(s))
}

// ---------------------------------------------------------------------------
// Durations

/// What is said of a sum that reaches 2^64 seconds, as `humantime` says it.
pub const TOO_LARGE: &'static str =
    "number is too large or cannot be represented without a lack of precision (values below 1ns are not supported)";

/// What `humantime` makes of `s`: whole seconds and the nanoseconds beyond
/// them, or the text of its error.
pub uninterp spec fn human_duration(s: Seq<char>) -> Result<(u64, u32), Seq<char>>;

/// The nanoseconds that a time unit stands for.
pub open spec fn time_unit(u: Seq<char>) -> Option<nat> {
    if u == seq!['m', 's'] {
        Some(1_000_000)
    } else if u == seq!['s'] {
        Some(1_000_000_000)
    } else if u == seq!['m'] {
        Some(60_000_000_000)
    } else if u == seq!['h'] {
        Some(3_600_000_000_000)
    } else {
        None
    }
}

/// How many digits `s` begins with.
pub open spec fn leading_digits(s: Seq<char>) -> nat
    decreases s.len(),
{
    if s.len() > 0 && text::is_digit(s[0]) {
        1 + leading_digits(s.skip(1))
    } else {
        0
    }
}

/// The nanoseconds that a number of at most 10^12 and a unit (`ms`, `s`, `m`
/// or `h`) stand for; `None` for any other text.
pub open spec fn plain_time(s: Seq<char>) -> Option<nat> {
    let k = leading_digits(s) as int;
    let n = text::number(s.take(k));
    match time_unit(s.skip(k)) {
        Some(unit) => if k > 0 && n <= 1_000_000_000_000 {
            Some(n * unit)
        } else {
            None
        },
        None => None,
    }
}

proof fn lemma_leading_digits(s: Seq<char>)
    ensures
        leading_digits(s) <= s.len(),
        forall|i: int| 0 <= i < leading_digits(s) ==> text::is_digit(#[trigger] s[i]),
    decreases s.len(),
{
    if s.len() > 0 && text::is_digit(s[0]) {
        lemma_leading_digits(s.skip(1));
        assert forall|i: int| 0 <= i < leading_digits(s) implies text::is_digit(#[trigger] s[i]) by {
            if i > 0 {
                assert(s[i] == s.skip(1)[i - 1]);
            }
        }
    }
}

/// A number and a unit stay below 2^64 seconds, and are no bare number.
proof fn lemma_plain_time(s: Seq<char>)
    requires
        plain_time(s) is Some,
    ensures
        !human::reaches_limit(s),
        text::unsigned(s, u64::MAX as nat) is None,
{
    lemma_leading_digits(s);
    let k = leading_digits(s) as int;
    let u = s.skip(k);
    assert(u[0] == 'm' || u[0] == 's' || u[0] == 'h');
    assert forall|i: int| k <= i < s.len() implies human::is_unit_letter(#[trigger] s[i])
        && !text::is_digit(s[i]) by {
        assert(s[i] == u[i - k]);
        assert(u.len() <= 2);
        assert(i - k == 0 || i - k == 1);
        assert(u.len() == 2 ==> u[1] == 's');
    }
    assert(text::is_digit(s[0]));
    assert(u.len() > 0);
    assert(!text::is_digit(s[k]));
    human::lemma_plain_number(s, k);
}

/// The views of a reading of seconds and nanoseconds.
pub open spec fn parts_view(r: Result<(u64, u32), String>) -> Result<(u64, u32), Seq<char>> {
    match r {
        Ok(p) => Ok(p),
        Err(e) => Err(e@),
    }
}

/// Whether the nanoseconds, where there are any, are less than a second.
pub open spec fn has_whole_seconds(r: Result<(u64, u32), String>) -> bool {
    match r {
        Ok((_, nanos)) => nanos < 1_000_000_000,
        Err(_) => true,
    }
}

/// Seconds and nanoseconds as nanoseconds.
pub open spec fn nanos_of(parts: Result<(u64, u32), Seq<char>>) -> Result<nat, Seq<char>> {
    match parts {
        Ok((secs, nanos)) => Ok((secs * 1_000_000_000 + nanos) as nat),
        Err(e) => Err(e),
    }
}

/// `humantime::parse_duration`, as whole seconds and the nanoseconds beyond
/// them; the error as its `Display` shows it. The result depends on the text
/// alone. A number and a unit are multiplied out. The function panics where
/// several numbers add up to exactly 2^64 seconds; texts whose numbers reach
/// that are left out.
#[verifier::external_body]
fn parse_human_duration(s: &str) -> (r: Result<(u64, u32), String>)
    requires
        !human::reaches_limit(s@),
    ensures
        parts_view(r) == human_duration(s@),
        has_whole_seconds(r),
        plain_time(s@) is Some ==> nanos_of(parts_view(r)).ok() == plain_time(s@),
{
    humantime::parse_duration(s).map(|d| (d.as_secs(), d.subsec_nanos())).map_err(
        |e| e.to_string(),
    )
}

/// The views of a reading of a duration: nanoseconds, or the reason.
pub open spec fn duration_view(r: Result<Duration, String>) -> Result<nat, Seq<char>> {
    match r {
        Ok(d) => Ok(d@),
        Err(e) => Err(e@),
    }
}

/// The nanoseconds that `s` states, `human` being what `humantime` makes of
/// it. A bare number is seconds. Where the sum reaches 2^64 seconds, which is
/// more than a duration holds, it is refused in the words of `humantime`.
pub open spec fn duration_from(s: Seq<char>, human: Result<(u64, u32), Seq<char>>) -> Result<
    nat,
    Seq<char>,
> {
    match text::unsigned(s, u64::MAX as nat) {
        Some(secs) => Ok(secs * 1_000_000_000),
        None => if human::reaches_limit(s) {
            Err(TOO_LARGE@)
        } else {
            nanos_of(human)
        },
    }
}

/// The nanoseconds that `s` states: a bare number of seconds, or what
/// `humantime` reads.
pub open spec fn duration_of(s: Seq<char>) -> Result<nat, Seq<char>> {
    duration_from(s, human_duration(s))
}

/// The duration that `humantime` read.
pub fn from_human(human: Result<(u64, u32), String>) -> (r: Result<Duration, String>)
    requires
        has_whole_seconds(human),
    ensures
        duration_view(r) == nanos_of(parts_view(human)),
{
    match human {
        Ok((secs, nanos)) => Ok(Duration::new(secs, nanos)),
        Err(e) => Err(e),
    }
}

/// Reads a duration: both "5s" and a bare "5".
pub fn parse_duration(s: &str) -> (r: Result<Duration, String>)
    ensures
        duration_view(r) == duration_of(s@),
        plain_time(s@) matches Some(n) ==> (r matches Ok(d) && d@ == n),
{
    let chars = chars_of(s);
    proof {
        if plain_time(s@) is Some {
            lemma_plain_time(s@);
        }
    }
    match parse_unsigned(chars.as_slice(), u64::MAX) {
        Some(secs) => Ok(Duration::from_secs(secs)),
        None => if at_limit(chars.as_slice()) {
            Err(TOO_LARGE.to_owned())
        } else {
            from_human(parse_human_duration(s))
        },
    }
}

/// A duration as it was read, with one rejected that has no whole millisecond:
/// fio is told milliseconds, and would be given a zero runtime.
pub open spec fn nonzero_duration(parsed: Result<nat, Seq<char>>) -> Result<nat, Seq<char>> {
    match parsed {
        Ok(n) => if n / 1_000_000 == 0 {
            Err("duration must be non-zero"@)
        } else {
            Ok(n)
        },
        Err(e) => Err(e),
    }
}

/// Rejects a duration that would reach fio as no time.
pub fn reject_zero_duration(parsed: Result<Duration, String>) -> (r: Result<Duration, String>)
    ensures
        duration_view(r) == nonzero_duration(duration_view(parsed)),
{
    match parsed {
        Ok(duration) => if duration.as_millis() == 0 {
            Err("duration must be non-zero".to_owned())
        } else {
            Ok(duration)
        },
        Err(e) => Err(e),
    }
}

/// For --duration: fio would silently drop `time_based` on a zero runtime and
/// run a full-size pass instead, so reject it up front.
pub fn parse_positive_duration(s: &str) -> (r: Result<Duration, String>)
    ensures
        duration_view(r) == nonzero_duration(duration_of(s@)),
        plain_time(s@) matches Some(n) ==> if n >= 1_000_000 {
            r matches Ok(d) && d@ == n
        } else {
            r matches Err(e) && e@ == "duration must be non-zero"@
        },
{
    reject_zero_duration(parse_duration(s))
}

// ---------------------------------------------------------------------------
// Settings

/// The value of an option, or its default.
pub open spec fn value_or(given: Option<String>, default: Seq<char>) -> Seq<char> {
    match given {
        Some(s) => s@,
        None => default,
    }
}

/// The value of an option, or its default.
fn or_default<'a>(given: &'a Option<String>, default: &'a str) -> (r: &'a str)
    ensures
        r@ == value_or(*given, default@),
{
    match given {
        Some(s) => s.as_str(),
        None => default,
    }
}

/// The items of several comma-separated lists, in order.
pub open spec fn list_items(lists: Seq<Seq<char>>) -> Seq<Seq<char>>
    decreases lists.len(),
{
    if lists.len() == 0 {
        Seq::empty()
    } else {
        list_items(lists.drop_last()) + text::split(lists.last(), ',')
    }
}

/// The tasks that `items` specify, or the first that specifies none and what
/// is wrong with it.
pub open spec fn tasks_of(items: Seq<Seq<char>>) -> Result<Seq<TaskSpec>, (Seq<char>, Fault)>
    decreases items.len(),
{
    if items.len() == 0 {
        Ok(Seq::empty())
    } else {
        match tasks_of(items.drop_last()) {
            Err(e) => Err(e),
            Ok(tasks) => match task::parse_task(items.last()) {
                Ok(t) => Ok(tasks.push(t)),
                Err(fault) => Err((items.last(), fault)),
            },
        }
    }
}

/// Once an item is wrong, what follows does not matter.
proof fn lemma_tasks_of_prefix(items: Seq<Seq<char>>, i: int)
    requires
        0 <= i <= items.len(),
        tasks_of(items.take(i)) is Err,
    ensures
        tasks_of(items) == tasks_of(items.take(i)),
    decreases items.len() - i,
{
    if i < items.len() {
        assert(items.take(i + 1).drop_last() =~= items.take(i));
        lemma_tasks_of_prefix(items, i + 1);
    } else {
        assert(items.take(i) =~= items);
    }
}

/// Where every item specifies a task, there are as many tasks as items, each
/// what its own item specifies, in the order of the items. Where one does not,
/// the first such item is reported with what is wrong with it.
pub proof fn law_every_item_is_a_task(items: Seq<Seq<char>>)
    ensures
        match tasks_of(items) {
            Ok(tasks) => {
                &&& tasks.len() == items.len()
                &&& forall|i: int|
                    0 <= i < items.len() ==> task::parse_task(#[trigger] items[i]) == Ok::<
                        TaskSpec,
                        Fault,
                    >(tasks[i])
            },
            Err((text, fault)) => exists|k: int|
                {
                    &&& 0 <= k < items.len()
                    &&& #[trigger] items[k] == text
                    &&& task::parse_task(text) == Err::<TaskSpec, Fault>(fault)
                    &&& forall|i: int| 0 <= i < k ==> task::parse_task(#[trigger] items[i]) is Ok
                },
        },
    decreases items.len(),
{
    if items.len() > 0 {
        let rest = items.drop_last();
        law_every_item_is_a_task(rest);
        assert forall|i: int| 0 <= i < rest.len() implies rest[i] == items[i] by {}
        assert(items[items.len() - 1] == items.last());
        match tasks_of(items) {
            Ok(tasks) => {
                let before = tasks_of(rest)->Ok_0;
                assert forall|i: int| 0 <= i < items.len() implies task::parse_task(
                    #[trigger] items[i],
                ) == Ok::<TaskSpec, Fault>(tasks[i]) by {
                    if i < rest.len() {
                        assert(task::parse_task(rest[i]) == Ok::<TaskSpec, Fault>(before[i]));
                    }
                }
            },
            Err((text, fault)) => {
                if tasks_of(rest) is Err {
                    let k = choose|k: int|
                        {
                            &&& 0 <= k < rest.len()
                            &&& #[trigger] rest[k] == text
                            &&& task::parse_task(text) == Err::<TaskSpec, Fault>(fault)
                            &&& forall|i: int|
                                0 <= i < k ==> task::parse_task(#[trigger] rest[i]) is Ok
                        };
                    assert forall|i: int| 0 <= i < k implies task::parse_task(
                        #[trigger] items[i],
                    ) is Ok by {
                        assert(task::parse_task(rest[i]) is Ok);
                    }
                    assert(items[k] == text);
                } else {
                    let k = items.len() - 1;
                    assert forall|i: int| 0 <= i < k implies task::parse_task(
                        #[trigger] items[i],
                    ) is Ok by {
                        assert(task::parse_task(rest[i]) is Ok);
                    }
                    assert(items[k] == text);
                }
            },
        }
    }
}

/// The items of several lists are all items of all lists, list after list.
pub proof fn law_no_item_is_lost(lists: Seq<Seq<char>>, more: Seq<Seq<char>>)
    ensures
        list_items(lists + more) == list_items(lists) + list_items(more),
    decreases more.len(),
{
    if more.len() == 0 {
        assert(lists + more =~= lists);
        assert(list_items(lists) + list_items(more) =~= list_items(lists));
    } else {
        law_no_item_is_lost(lists, more.drop_last());
        assert((lists + more).drop_last() =~= lists + more.drop_last());
        assert((lists + more).last() == more.last());
        assert(list_items(lists + more) =~= list_items(lists) + list_items(more));
    }
}

/// A list of items with commas between them has these items.
pub proof fn law_a_list_has_its_items(items: Seq<Seq<char>>)
    requires
        items.len() > 0,
        forall|i: int| 0 <= i < items.len() ==> !(#[trigger] items[i]).contains(','),
    ensures
        list_items(seq![text::join(items, ',')]) == items,
{
    let list = text::join(items, ',');
    text::law_splitting_undoes_joining(items, ',');
    assert(seq![list].drop_last() =~= Seq::empty());
    assert(list_items(seq![list].drop_last()) =~= Seq::<Seq<char>>::empty());
    assert(list_items(seq![list]) =~= items);
}

/// The tasks that were given are the tasks that run: with any lists of valid
/// specifications, each task of the session is what the item at its place
/// specifies, and there is no other.
pub proof fn law_the_given_tasks_run(cli: Cli, args: Args, lists: Seq<Seq<Seq<char>>>)
    requires
        cli.is_of(args),
        lists.len() == args.tasks@.len(),
        lists.len() > 0,
        forall|i: int, j: int|
            0 <= i < lists.len() && 0 <= j < lists[i].len() ==> !(#[trigger] lists[i][j]).contains(
                ',',
            ),
        forall|i: int|
            0 <= i < lists.len() ==> (#[trigger] lists[i]).len() > 0 && args.tasks@[i]@
                == text::join(lists[i], ','),
    ensures
        cli.tasks@.len() == lists.flatten().len(),
        forall|k: int|
            0 <= k < cli.tasks@.len() ==> task::parse_task(#[trigger] lists.flatten()[k]) == Ok::<
                TaskSpec,
                Fault,
            >(cli.tasks@[k]),
{
    let given = task_lists(args.tasks@);
    assert(given =~= Seq::new(lists.len(), |i: int| text::join(lists[i], ',')));
    lemma_items_flatten(lists, given);
    law_every_item_is_a_task(list_items(given));
}

proof fn lemma_items_flatten(lists: Seq<Seq<Seq<char>>>, texts: Seq<Seq<char>>)
    requires
        texts.len() == lists.len(),
        forall|i: int, j: int|
            0 <= i < lists.len() && 0 <= j < lists[i].len() ==> !(#[trigger] lists[i][j]).contains(
                ',',
            ),
        forall|i: int|
            0 <= i < lists.len() ==> (#[trigger] lists[i]).len() > 0 && texts[i] == text::join(
                lists[i],
                ',',
            ),
    ensures
        list_items(texts) == lists.flatten(),
    decreases lists.len(),
{
    if lists.len() > 0 {
        let first = lists[0];
        let rest = lists.skip(1);
        assert forall|i: int| 0 <= i < first.len() implies !(#[trigger] first[i]).contains(',') by {
            assert(!lists[0][i].contains(','));
        }
        assert forall|i: int, j: int| 0 <= i < rest.len() && 0 <= j < rest[i].len() implies !(
        #[trigger] rest[i][j]).contains(',') by {
            assert(!lists[i + 1][j].contains(','));
        }
        assert forall|i: int| 0 <= i < rest.len() implies (#[trigger] rest[i]).len() > 0
            && texts.skip(1)[i] == text::join(rest[i], ',') by {
            assert(rest[i] == lists[i + 1]);
        }
        lemma_items_flatten(rest, texts.skip(1));
        law_a_list_has_its_items(first);
        law_no_item_is_lost(seq![texts[0]], texts.skip(1));
        assert(seq![texts[0]] + texts.skip(1) =~= texts);
        assert(lists.drop_first() =~= rest);
        assert(lists.flatten() =~= first + rest.flatten());
    } else {
        assert(list_items(texts) =~= lists.flatten());
    }
}

/// The values of `--tasks`, or the default list.
pub open spec fn task_lists(given: Seq<String>) -> Seq<Seq<char>> {
    if given.len() == 0 {
        seq![DEFAULT_TASKS@]
    } else {
        text::texts(given)
    }
}

/// The items of comma-separated lists.
fn split_lists(lists: &Vec<String>) -> (r: Vec<Vec<char>>)
    ensures
        text::pieces(r@) == list_items(text::texts(lists@)),
{
    let mut r: Vec<Vec<char>> = Vec::new();
    let mut i: usize = 0;
    let ghost all = text::texts(lists@);
    assert(text::pieces(r@) =~= list_items(all.take(0)));
    while i < lists.len()
        invariant
            i <= lists.len(),
            all == text::texts(lists@),
            text::pieces(r@) == list_items(all.take(i as int)),
        decreases lists.len() - i,
    {
        let mut parts = split_on(chars_of(lists[i].as_str()).as_slice(), ',');
        let ghost before = r@;
        let ghost added = parts@;
        r.append(&mut parts);
        proof {
            assert(text::pieces(r@) =~= text::pieces(before) + text::pieces(added));
            assert(all.take(i as int + 1).drop_last() =~= all.take(i as int));
            assert(all.take(i as int + 1).last() == lists@[i as int]@);
        }
        i += 1;
    }
    assert(all.take(i as int) =~= all);
    r
}

/// Whether reading tasks came out as it should.
pub open spec fn same_tasks(
    r: Result<Vec<TaskSpec>, SpecError>,
    expected: Result<Seq<TaskSpec>, (Seq<char>, Fault)>,
) -> bool {
    match (r, expected) {
        (Ok(tasks), Ok(e)) => tasks@ == e,
        (Err(error), Err((s, fault))) => error.text() == s && error.fault() == fault,
        _ => false,
    }
}

/// Every task in the list can run.
pub open spec fn all_wf(tasks: Seq<TaskSpec>) -> bool {
    forall|i: int| 0 <= i < tasks.len() ==> (#[trigger] tasks[i]).wf()
}

/// Reads the tasks of comma-separated lists; none at all stands for the
/// default list.
pub fn parse_tasks(lists: &Vec<String>) -> (r: Result<Vec<TaskSpec>, SpecError>)
    ensures
        same_tasks(r, tasks_of(list_items(task_lists(lists@)))),
        r matches Ok(tasks) ==> all_wf(tasks@),
{
    let items = if lists.len() == 0 {
        let items = split_on(chars_of(DEFAULT_TASKS).as_slice(), ',');
        proof {
            let one = seq![DEFAULT_TASKS@];
            assert(one.drop_last() =~= Seq::<Seq<char>>::empty());
            assert(list_items(one.drop_last()) =~= Seq::<Seq<char>>::empty());
            assert(list_items(one) =~= text::split(DEFAULT_TASKS@, ','));
        }
        items
    } else {
        split_lists(lists)
    };
    let ghost all = text::pieces(items@);
    let mut tasks: Vec<TaskSpec> = Vec::new();
    let mut i: usize = 0;
    assert(all.take(0) =~= Seq::<Seq<char>>::empty());
    while i < items.len()
        invariant
            i <= items.len(),
            all == text::pieces(items@),
            all == list_items(task_lists(lists@)),
            tasks_of(all.take(i as int)) == Ok::<Seq<TaskSpec>, (Seq<char>, Fault)>(tasks@),
            all_wf(tasks@),
        decreases items.len() - i,
    {
        let item = string_of(items[i].as_slice());
        proof {
            assert(all.take(i as int + 1).drop_last() =~= all.take(i as int));
            assert(all.take(i as int + 1).last() == item@);
        }
        match TaskSpec::from_str(item.as_str()) {
            Ok(t) => tasks.push(t),
            Err(e) => {
                proof {
                    lemma_tasks_of_prefix(all, i as int + 1);
                }
                return Err(e);
            },
        }
        i += 1;
    }
    assert(all.take(i as int) =~= all);
    Ok(tasks)
}

/// The number of runs that `s` states: 1 to 99.
pub open spec fn runs_of(s: Seq<char>) -> Option<u32> {
    match text::unsigned(s, u32::MAX as nat) {
        Some(n) => if 1 <= n <= 99 {
            Some(n as u32)
        } else {
            None
        },
        None => None,
    }
}

/// Reads the number of runs: 1 to 99.
pub fn parse_runs(s: &str) -> (r: Option<u32>)
    ensures
        r == runs_of(s@),
{
    match parse_unsigned(chars_of(s).as_slice(), u32::MAX as u64) {
        Some(n) => if 1 <= n && n <= 99 {
            Some(n as u32)
        } else {
            None
        },
        None => None,
    }
}

/// Whether `s` is a plain size that a test file can have.
pub open spec fn is_plain_size(s: Seq<char>) -> bool {
    plain_size(s) matches Some(n) && 0 < n <= u64::MAX
}

/// Whether `s` is a plain duration of at least `least` nanoseconds.
pub open spec fn is_plain_time(s: Seq<char>, least: nat) -> bool {
    plain_time(s) matches Some(n) && n >= least
}

impl Args {
    /// No option at all.
    pub fn none() -> (r: Args)
        ensures
            r.target is None,
            r.tasks@.len() == 0,
            r.unit is None,
            r.runs is None,
            r.size is None,
            r.duration is None,
            r.warmup is None,
            r.interval is None,
            !r.json,
    {
        Args {
            target: None,
            tasks: Vec::new(),
            unit: None,
            runs: None,
            size: None,
            duration: None,
            warmup: None,
            interval: None,
            json: false,
        }
    }

    pub open spec fn tasks_value(self) -> Result<Seq<TaskSpec>, (Seq<char>, Fault)> {
        tasks_of(list_items(task_lists(self.tasks@)))
    }

    pub open spec fn unit_value(self) -> Option<Unit> {
        Unit::named(value_or(self.unit, DEFAULT_UNIT@))
    }

    pub open spec fn runs_value(self) -> Option<u32> {
        runs_of(value_or(self.runs, DEFAULT_RUNS@))
    }

    pub open spec fn size_value(self) -> Result<u64, Seq<char>> {
        nonzero_size(stated_size(value_or(self.size, DEFAULT_SIZE@)))
    }

    pub open spec fn duration_value(self) -> Result<nat, Seq<char>> {
        nonzero_duration(duration_of(value_or(self.duration, DEFAULT_TIME@)))
    }

    pub open spec fn warmup_value(self) -> Result<nat, Seq<char>> {
        duration_of(value_or(self.warmup, DEFAULT_TIME@))
    }

    pub open spec fn interval_value(self) -> Result<nat, Seq<char>> {
        duration_of(value_or(self.interval, DEFAULT_TIME@))
    }
}

impl Cli {
    /// What every session's settings satisfy.
    pub open spec fn wf(self) -> bool {
        &&& self.tasks@.len() > 0
        &&& all_wf(self.tasks@)
        &&& 1 <= self.runs <= 99
        &&& self.size > 0
        &&& self.duration@ >= 1_000_000
    }

    /// Whether these are the settings that `args` ask for.
    pub open spec fn is_of(self, args: Args) -> bool {
        &&& self.target@ == value_or(args.target, DEFAULT_TARGET@)
        &&& args.tasks_value() == Ok::<Seq<TaskSpec>, (Seq<char>, Fault)>(self.tasks@)
        &&& args.unit_value() == Some(self.unit)
        &&& args.runs_value() == Some(self.runs)
        &&& args.size_value() == Ok::<u64, Seq<char>>(self.size)
        &&& args.duration_value() == Ok::<nat, Seq<char>>(self.duration@)
        &&& args.warmup_value() == Ok::<nat, Seq<char>>(self.warmup@)
        &&& args.interval_value() == Ok::<nat, Seq<char>>(self.interval@)
        &&& self.json == args.json
    }

    /// Whether the values that `args` give in plain form are taken at their
    /// face value.
    pub open spec fn has_plain_values(self, args: Args) -> bool {
        &&& plain_size(value_or(args.size, DEFAULT_SIZE@)) matches Some(n) ==> self.size == n
        &&& plain_time(value_or(args.duration, DEFAULT_TIME@)) matches Some(n) ==> self.duration@
            == n
        &&& plain_time(value_or(args.warmup, DEFAULT_TIME@)) matches Some(n) ==> self.warmup@ == n
        &&& plain_time(value_or(args.interval, DEFAULT_TIME@)) matches Some(n) ==> self.interval@
            == n
    }

    /// The settings that `args` ask for, each absent option at its default.
    /// The options are looked at in the order of the fields of [`Args`], and
    /// the first that is rejected is reported.
    pub fn from_args(args: &Args) -> (r: Result<Cli, CliError>)
        requires
            args.size matches Some(s) ==> s@.len() <= i32::MAX,
        ensures
            match r {
                Ok(cli) => cli.has_plain_values(*args),
                Err(CliError::Size(e)) => {
                    &&& !is_plain_size(value_or(args.size, DEFAULT_SIZE@))
                    &&& plain_size(value_or(args.size, DEFAULT_SIZE@)) == Some(0nat) ==> e@
                        == "size must be non-zero"@
                },
                Err(CliError::Duration(e)) => {
                    &&& !is_plain_time(value_or(args.duration, DEFAULT_TIME@), 1_000_000)
                    &&& plain_time(value_or(args.duration, DEFAULT_TIME@)) == Some(0nat) ==> e@
                        == "duration must be non-zero"@
                },
                Err(CliError::Warmup(_)) => !is_plain_time(value_or(args.warmup, DEFAULT_TIME@), 0),
                Err(CliError::Interval(_)) => !is_plain_time(
                    value_or(args.interval, DEFAULT_TIME@),
                    0,
                ),
                _ => true,
            },
            match r {
                Ok(cli) => cli.is_of(*args) && cli.wf(),
                Err(CliError::Tasks(e)) => args.tasks_value() == Err::<
                    Seq<TaskSpec>,
                    (Seq<char>, Fault),
                >((e.text(), e.fault())),
                Err(CliError::Unit(s)) => {
                    &&& args.tasks_value() is Ok
                    &&& args.unit_value() is None
                    &&& s@ == value_or(args.unit, DEFAULT_UNIT@)
                },
                Err(CliError::Runs(s)) => {
                    &&& args.tasks_value() is Ok
                    &&& args.unit_value() is Some
                    &&& args.runs_value() is None
                    &&& s@ == value_or(args.runs, DEFAULT_RUNS@)
                },
                Err(CliError::Size(e)) => {
                    &&& args.tasks_value() is Ok
                    &&& args.unit_value() is Some
                    &&& args.runs_value() is Some
                    &&& args.size_value() == Err::<u64, Seq<char>>(e@)
                },
                Err(CliError::Duration(e)) => {
                    &&& args.tasks_value() is Ok
                    &&& args.unit_value() is Some
                    &&& args.runs_value() is Some
                    &&& args.size_value() is Ok
                    &&& args.duration_value() == Err::<nat, Seq<char>>(e@)
                },
                Err(CliError::Warmup(e)) => {
                    &&& args.tasks_value() is Ok
                    &&& args.unit_value() is Some
                    &&& args.runs_value() is Some
                    &&& args.size_value() is Ok
                    &&& args.duration_value() is Ok
                    &&& args.warmup_value() == Err::<nat, Seq<char>>(e@)
                },
                Err(CliError::Interval(e)) => {
                    &&& args.tasks_value() is Ok
                    &&& args.unit_value() is Some
                    &&& args.runs_value() is Some
                    &&& args.size_value() is Ok
                    &&& args.duration_value() is Ok
                    &&& args.warmup_value() is Ok
                    &&& args.interval_value() == Err::<nat, Seq<char>>(e@)
                },
            },
    {
        let tasks = match parse_tasks(&args.tasks) {
            Ok(tasks) => tasks,
            Err(e) => return Err(CliError::Tasks(e)),
        };
        proof {
            lemma_some_task(args.tasks@);
        }
        let unit_name = or_default(&args.unit, DEFAULT_UNIT);
        let unit = match Unit::from_name(unit_name) {
            Some(unit) => unit,
            None => return Err(CliError::Unit(unit_name.to_owned())),
        };
        let runs_text = or_default(&args.runs, DEFAULT_RUNS);
        let runs: u32 = match parse_runs(runs_text) {
            Some(runs) => runs,
            None => return Err(CliError::Runs(runs_text.to_owned())),
        };
        proof {
            reveal_strlit("1GiB");
        }
        let size: u64 = match parse_bytes(or_default(&args.size, DEFAULT_SIZE)) {
            Ok(size) => size,
            Err(e) => return Err(CliError::Size(e)),
        };
        let duration = match parse_positive_duration(or_default(&args.duration, DEFAULT_TIME)) {
            Ok(duration) => duration,
            Err(e) => return Err(CliError::Duration(e)),
        };
        let warmup = match parse_duration(or_default(&args.warmup, DEFAULT_TIME)) {
            Ok(warmup) => warmup,
            Err(e) => return Err(CliError::Warmup(e)),
        };
        let interval = match parse_duration(or_default(&args.interval, DEFAULT_TIME)) {
            Ok(interval) => interval,
            Err(e) => return Err(CliError::Interval(e)),
        };
        Ok(
            Cli {
                target: or_default(&args.target, DEFAULT_TARGET).to_owned(),
                tasks,
                unit,
                runs,
                size,
                duration,
                warmup,
                interval,
                json: args.json,
            },
        )
    }
}

/// Without `--tasks` the tasks are those of CrystalDiskMark's NVMe preset.
#[verifier::rlimit(40)]
pub proof fn law_the_default_tasks_are_the_preset(cli: Cli, args: Args)
    requires
        cli.is_of(args),
        args.tasks@.len() == 0,
    ensures
        cli.tasks@ == seq![
            TaskSpec {
                pattern: Pattern::Sequential,
                block_size: 0x10_0000,
                queue_depth: 8,
                threads: 1,
            },
            TaskSpec {
                pattern: Pattern::Sequential,
                block_size: 0x2_0000,
                queue_depth: 32,
                threads: 1,
            },
            TaskSpec { pattern: Pattern::Random, block_size: 0x1000, queue_depth: 32, threads: 16 },
            TaskSpec { pattern: Pattern::Random, block_size: 0x1000, queue_depth: 1, threads: 1 },
        ],
{
    reveal_strlit("SEQ1MQ8T1,SEQ128KQ32T1,RND4KQ32T16,RND4KQ1T1");
    reveal_with_fuel(text::decimal, 4);
    let (q, r) = (seq!['S', 'E', 'Q'], seq!['R', 'N', 'D']);
    let a = task::written(q, 1, 0x10_0000, 8, 1);
    let b = task::written(q, 128, 0x400, 32, 1);
    let c = task::written(r, 4, 0x400, 32, 16);
    let d = task::written(r, 4, 0x400, 1, 1);
    assert(a =~= seq!['S', 'E', 'Q', '1', 'M', 'Q', '8', 'T', '1']);
    assert(b =~= seq!['S', 'E', 'Q', '1', '2', '8', 'K', 'Q', '3', '2', 'T', '1']);
    assert(c =~= seq!['R', 'N', 'D', '4', 'K', 'Q', '3', '2', 'T', '1', '6']);
    assert(d =~= seq!['R', 'N', 'D', '4', 'K', 'Q', '1', 'T', '1']);
    let items = seq![a, b, c, d];
    let comma = seq![','];
    assert(items.skip(1) =~= seq![b, c, d]);
    assert(seq![b, c, d].skip(1) =~= seq![c, d]);
    assert(seq![c, d].skip(1) =~= seq![d]);
    assert(text::join(seq![d], ',') == d);
    assert(text::join(seq![c, d], ',') == c + comma + d);
    assert(text::join(seq![b, c, d], ',') == b + comma + (c + comma + d));
    assert(text::join(items, ',') == a + comma + (b + comma + (c + comma + d)));
    assert(DEFAULT_TASKS@ =~= a + comma + (b + comma + (c + comma + d)));
    assert forall|i: int| 0 <= i < items.len() implies !(#[trigger] items[i]).contains(',') by {}
    law_a_list_has_its_items(items);
    law_every_item_is_a_task(items);
    task::law_a_task_is_what_it_spells_out(Pattern::Sequential, 1, 0x10_0000, 8, 1);
    task::law_a_task_is_what_it_spells_out(Pattern::Sequential, 128, 0x400, 32, 1);
    task::law_a_task_is_what_it_spells_out(Pattern::Random, 4, 0x400, 32, 16);
    task::law_a_task_is_what_it_spells_out(Pattern::Random, 4, 0x400, 1, 1);
    assert(task_lists(args.tasks@) == seq![DEFAULT_TASKS@]);
    let tasks = cli.tasks@;
    assert(items[0] == a && items[1] == b && items[2] == c && items[3] == d);
    assert(task::parse_task(items[0]) == Ok::<TaskSpec, Fault>(tasks[0]));
    assert(task::parse_task(items[1]) == Ok::<TaskSpec, Fault>(tasks[1]));
    assert(task::parse_task(items[2]) == Ok::<TaskSpec, Fault>(tasks[2]));
    assert(task::parse_task(items[3]) == Ok::<TaskSpec, Fault>(tasks[3]));
}

/// A size carries over only where its digits, up to one that is rounded up,
/// stand for the greatest 64-bit number; every other size, and so every one of
/// at most twenty characters, is what `parse_size` reads.
pub proof fn law_other_sizes_are_read_by_parse_size(s: Seq<char>)
    ensures
        carries_over(s) ==> exists|i: int|
            0 <= i < s.len() && #[trigger] digits_value(s.take(i)) == u64::MAX && '5' <= s[i]
                && s[i] <= '9',
        s.len() <= 20 ==> !carries_over(s),
        !carries_over(s) ==> stated_size(s) == binary_size(s),
        carries_over(s) ==> stated_size(s) is Err,
{
    if carries_over(s) {
        let i = choose|i: int| 0 <= i < s.len() && #[trigger] carries_at(s, i);
        assert(digits_value(s.take(i)) == u64::MAX);
        if s.len() <= 20 {
            lemma_digits_bound(s.take(i));
            assert(vstd::arithmetic::power::pow(10, 19) == 10_000_000_000_000_000_000) by {
                reveal_with_fuel(vstd::arithmetic::power::pow, 20);
            }
            vstd::arithmetic::power::lemma_pow_increases(10, i as nat, 19);
        }
    }
}

/// Digits stand for less than ten to the power of their number.
proof fn lemma_digits_bound(s: Seq<char>)
    ensures
        digits_value(s) < vstd::arithmetic::power::pow(10, s.len()),
    decreases s.len(),
{
    reveal(vstd::arithmetic::power::pow);
    if s.len() > 0 {
        lemma_digits_bound(s.drop_last());
        let p = vstd::arithmetic::power::pow(10, s.drop_last().len());
        assert(vstd::arithmetic::power::pow(10, s.len()) == 10 * p);
    }
}

/// The number of runs is the number that is given, from 1 to 99; any other
/// number is rejected.
pub proof fn law_runs_are_as_given(n: nat)
    ensures
        runs_of(text::decimal(n)) == (if 1 <= n <= 99 {
            Some(n as u32)
        } else {
            None
        }),
{
    text::lemma_decimal(n);
}

/// A bare number is that many seconds, whatever number it is.
pub proof fn law_a_bare_number_is_seconds(n: u64)
    ensures
        duration_of(text::decimal(n as nat)) == Ok::<nat, Seq<char>>(n as nat * 1_000_000_000),
{
    text::lemma_decimal(n as nat);
}

/// Any other text that stays below the limit is the duration that `humantime`
/// reads, to the nanosecond, or is rejected in its words.
pub proof fn law_other_durations_are_read_by_humantime(s: Seq<char>)
    requires
        text::unsigned(s, u64::MAX as nat) is None,
        !human::reaches_limit(s),
    ensures
        match human_duration(s) {
            Ok((secs, nanos)) => duration_of(s) == Ok::<nat, Seq<char>>(
                (secs as nat * 1_000_000_000 + nanos as nat),
            ),
            Err(e) => duration_of(s) == Err::<nat, Seq<char>>(e),
        },
{
}

/// A measured run lasts as long as was asked for, never less than a
/// millisecond: shorter durations are rejected, all others kept as they are.
pub proof fn law_durations_are_kept_or_rejected(n: nat)
    ensures
        n >= 1_000_000 ==> nonzero_duration(Ok(n)) == Ok::<nat, Seq<char>>(n),
        n < 1_000_000 ==> nonzero_duration(Ok(n)) is Err,
{
}

/// A test file is as large as was asked for, and never empty.
pub proof fn law_sizes_are_kept_or_rejected(n: u64)
    ensures
        n > 0 ==> nonzero_size(Ok(n)) == Ok::<u64, Seq<char>>(n),
        n == 0 ==> nonzero_size(Ok(n)) is Err,
{
}

/// Each option that is given decides its own setting, and no other does.
pub proof fn law_given_options_are_taken(cli: Cli, args: Args)
    requires
        cli.is_of(args),
    ensures
        args.target matches Some(s) ==> cli.target@ == s@,
        args.unit matches Some(s) ==> Unit::named(s@) == Some(cli.unit),
        args.runs matches Some(s) ==> runs_of(s@) == Some(cli.runs),
        args.size matches Some(s) ==> nonzero_size(stated_size(s@)) == Ok::<u64, Seq<char>>(
            cli.size,
        ),
        args.duration matches Some(s) ==> duration_of(s@) == Ok::<nat, Seq<char>>(cli.duration@)
            && cli.duration@ >= 1_000_000,
        args.warmup matches Some(s) ==> duration_of(s@) == Ok::<nat, Seq<char>>(cli.warmup@),
        args.interval matches Some(s) ==> duration_of(s@) == Ok::<nat, Seq<char>>(cli.interval@),
        cli.json == args.json,
{
}

/// Absent options have the settings of CrystalDiskMark's NVMe preset, whatever
/// else is given: a file of 1 GiB, three runs of five seconds, a warmup and a
/// pause of five seconds, MB/s, the current directory.
pub proof fn law_absent_options_have_defaults(cli: Cli, args: Args)
    requires
        cli.is_of(args),
        cli.has_plain_values(args),
    ensures
        args.target is None ==> cli.target@ == "."@,
        args.unit is None ==> cli.unit == Unit::MegabytesPerSec,
        args.runs is None ==> cli.runs == 3,
        args.size is None ==> cli.size == 0x4000_0000,
        args.duration is None ==> cli.duration@ == 5_000_000_000,
        args.warmup is None ==> cli.warmup@ == 5_000_000_000,
        args.interval is None ==> cli.interval@ == 5_000_000_000,
{
    reveal_strlit("3");
    reveal_strlit("1GiB");
    reveal_strlit("5s");
    let three = "3"@;
    assert(three =~= seq!['3']);
    assert(three.drop_last() =~= Seq::empty());
    assert(text::number(three.drop_last()) == 0);
    assert(text::number(three) == 3);
    let size = "1GiB"@;
    assert(drop_suffix(drop_suffix(size, 'B'), 'i') =~= seq!['1', 'G']);
    let one = seq!['1', 'G'].drop_last();
    assert(one =~= seq!['1']);
    assert(one.drop_last() =~= Seq::empty());
    assert(text::number(one.drop_last()) == 0);
    assert(text::number(one) == 1);
    let time = "5s"@;
    assert(!text::is_digit(time.skip(1)[0]));
    assert(leading_digits(time.skip(1)) == 0);
    assert(leading_digits(time) == 1);
    let five = time.take(1);
    assert(five =~= seq!['5']);
    assert(five.drop_last() =~= Seq::empty());
    assert(text::number(five.drop_last()) == 0);
    assert(text::number(five) == 5);
    assert(time.skip(1) =~= seq!['s']);
    assert(seq!['s'].len() != seq!['m', 's'].len());
}

/// Only the names of a unit name it.
pub proof fn law_units_have_these_names(s: Seq<char>)
    ensures
        Unit::named(s) == Some(Unit::MegabytesPerSec) <==> s == "MB/s"@ || s == "mbs"@ || s
            == "mb"@,
        Unit::named(s) == Some(Unit::Iops) <==> s == "IOPS"@ || s == "iops"@,
        Unit::MegabytesPerSec.heading_text() == "MB/s"@,
        Unit::Iops.heading_text() == "IOPS"@,
{
    reveal_strlit("MB/s");
    reveal_strlit("IOPS");
    reveal_strlit("mbs");
    reveal_strlit("mb");
    reveal_strlit("iops");
    assert("IOPS"@[0] == 'I' && "iops"@[0] == 'i');
    assert("MB/s"@[0] == 'M' && "mbs"@[0] == 'm' && "mb"@[0] == 'm');
}

/// There is at least one item, and so at least one task.
proof fn lemma_some_task(given: Seq<String>)
    ensures
        list_items(task_lists(given)).len() > 0,
        tasks_of(list_items(task_lists(given))) matches Ok(tasks) ==> tasks.len() > 0,
{
    let lists = task_lists(given);
    text::lemma_split_nonempty(lists.last(), ',', 0);
}

} // verus!
