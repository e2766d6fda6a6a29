//! Task specification grammar: `(SEQ|RND)<block-size>Q<queue-depth>T<threads>`,
//! e.g. `SEQ1MQ8T1` or `RND4KQ32T16` (case-insensitive). Block-size units are
//! binary (K = KiB, M = MiB, G = GiB), matching CrystalDiskMark.

use vstd::prelude::*;
use vstd::slice::slice_subrange;

use crate::text;
use crate::text::{
    chars_of, find_char, parse_unsigned, push_decimal, quote, starts_with, to_upper, trimmed,
};

verus! {

/// Access pattern of a benchmark task.
#[derive(Debug, Clone, Copy, PartialEq, Eq, Structural)]
pub enum Pattern {
    Sequential,
    Random,
}

/// One benchmark workload shape (CDM row), e.g. SEQ1M Q8T1.
#[derive(Debug, Clone, Copy, PartialEq, Eq, Structural)]
pub struct TaskSpec {
    pub pattern: Pattern,
    /// Block size in bytes.
    pub block_size: u64,
    pub queue_depth: u32,
    pub threads: u32,
}

/// Why a text is no task specification.
#[derive(Debug, Clone, Copy, PartialEq, Eq, Structural)]
pub enum Fault {
    /// It starts with neither SEQ nor RND.
    Prefix,
    /// The block size is missing, zero, malformed or too large.
    BlockSize,
    /// The part from the `Q` on is missing or malformed.
    QueueThreads,
    /// The queue depth or the thread count is zero.
    Zero,
}

/// A rejected task specification, with the text as it was given.
#[derive(Debug, PartialEq, Eq)]
pub enum SpecError {
    Prefix(String),
    BlockSize(String),
    QueueThreads(String),
    Zero(String),
}

impl SpecError {
    /// What is wrong.
    pub open spec fn fault(self) -> Fault {
        match self {
            SpecError::Prefix(_) => Fault::Prefix,
            SpecError::BlockSize(_) => Fault::BlockSize,
            SpecError::QueueThreads(_) => Fault::QueueThreads,
            SpecError::Zero(_) => Fault::Zero,
        }
    }

    /// The rejected text.
    pub open spec fn text(self) -> Seq<char> {
        match self {
            SpecError::Prefix(s) => s@,
            SpecError::BlockSize(s) => s@,
            SpecError::QueueThreads(s) => s@,
            SpecError::Zero(s) => s@,
        }
    }

    /// The error for `fault` in `text`.
    pub fn new(fault: Fault, text: &str) -> (r: SpecError)
        ensures
            r.fault() == fault,
            r.text() == text@,
    {
        match fault {
            Fault::Prefix => SpecError::Prefix(text.to_owned()),
            Fault::BlockSize => SpecError::BlockSize(text.to_owned()),
            Fault::QueueThreads => SpecError::QueueThreads(text.to_owned()),
            Fault::Zero => SpecError::Zero(text.to_owned()),
        }
    }

    /// The message for `fault` in a text whose quoted form is `quoted`.
    pub open spec fn message_text(fault: Fault, quoted: Seq<char>) -> Seq<char> {
        match fault {
            Fault::Prefix => "task must start with SEQ or RND: "@ + quoted,
            Fault::BlockSize => "invalid block size in "@ + quoted
                + " (expected e.g. 4K, 128K, 1M)"@,
            Fault::QueueThreads => "invalid queue/thread section in "@ + quoted
                + " (expected Q<n>T<n>)"@,
            Fault::Zero => "queue depth and threads must be at least 1: "@ + quoted,
        }
    }

    /// The message for this error, given its text in quoted form.
    pub fn message(&self, quoted: &str) -> (r: String)
        ensures
            r@ == SpecError::message_text(self.fault(), quoted@),
    {
        let (before, after) = match self {
            SpecError::Prefix(_) => ("task must start with SEQ or RND: ", ""),
            SpecError::BlockSize(_) => ("invalid block size in ", " (expected e.g. 4K, 128K, 1M)"),
            SpecError::QueueThreads(_) => (
                "invalid queue/thread section in ",
                " (expected Q<n>T<n>)",
            ),
            SpecError::Zero(_) => ("queue depth and threads must be at least 1: ", ""),
        };
        let mut out = before.to_owned();
        out.append(quoted);
        out.append(after);
        proof {
            reveal_strlit("");
            assert(out@ =~= SpecError::message_text(self.fault(), quoted@));
        }
        out
    }

    /// The message for this error.
    pub fn to_string(&self) -> (r: String)
        ensures
            r@ == SpecError::message_text(self.fault(), text::quoted(self.text())),
    {
        let quoted = match self {
            SpecError::Prefix(s) => quote(s.as_str()),
            SpecError::BlockSize(s) => quote(s.as_str()),
            SpecError::QueueThreads(s) => quote(s.as_str()),
            SpecError::Zero(s) => quote(s.as_str()),
        };
        self.message(quoted.as_str())
    }
}

/// The letters that a task of this pattern starts with.
pub open spec fn pattern_text(pattern: Pattern) -> Seq<char> {
    match pattern {
        Pattern::Sequential => seq!['S', 'E', 'Q'],
        Pattern::Random => seq!['R', 'N', 'D'],
    }
}

/// The bytes that a unit letter stands for; any other character is no unit.
pub open spec fn unit_factor(c: char) -> nat {
    if c == 'K' {
        0x400
    } else if c == 'M' {
        0x10_0000
    } else if c == 'G' {
        0x4000_0000
    } else {
        1
    }
}

/// The block size that `s` states: a positive number, optionally followed by
/// one unit letter, that fits 64 bits once multiplied out.
pub open spec fn block_size_of(s: Seq<char>) -> Option<u64> {
    if s.len() == 0 {
        None
    } else {
        let factor = unit_factor(s.last());
        let digits = if factor == 1 {
            s
        } else {
            s.drop_last()
        };
        match text::unsigned(digits, u64::MAX as nat) {
            Some(n) => if n > 0 && n * factor <= u64::MAX {
                Some((n * factor) as u64)
            } else {
                None
            },
            None => None,
        }
    }
}

/// The task that `t` specifies, `t` being trimmed and in upper case.
pub open spec fn parse_upper(t: Seq<char>) -> Result<TaskSpec, Fault> {
    if !text::has_prefix(t, pattern_text(Pattern::Sequential)) && !text::has_prefix(
        t,
        pattern_text(Pattern::Random),
    ) {
        Err(Fault::Prefix)
    } else {
        let pattern = if text::has_prefix(t, pattern_text(Pattern::Sequential)) {
            Pattern::Sequential
        } else {
            Pattern::Random
        };
        parse_sections(pattern, t.skip(3))
    }
}

/// The task that the sections after the pattern letters specify.
pub open spec fn parse_sections(pattern: Pattern, rest: Seq<char>) -> Result<TaskSpec, Fault> {
    match text::find(rest, 'Q') {
        None => Err(Fault::QueueThreads),
        Some(q) => match block_size_of(rest.take(q)) {
            None => Err(Fault::BlockSize),
            Some(block_size) => match queue_threads_of(rest.skip(q + 1)) {
                None => Err(Fault::QueueThreads),
                Some((queue_depth, threads)) => if queue_depth == 0 || threads == 0 {
                    Err(Fault::Zero)
                } else {
                    Ok(TaskSpec { pattern, block_size, queue_depth, threads })
                },
            },
        },
    }
}

/// The two numbers around the first `T` of `s`, both of 32 bits.
pub open spec fn queue_threads_of(s: Seq<char>) -> Option<(u32, u32)> {
    match text::find(s, 'T') {
        None => None,
        Some(t) => match (
            text::unsigned(s.take(t), u32::MAX as nat),
            text::unsigned(s.skip(t + 1), u32::MAX as nat),
        ) {
            (Some(q), Some(n)) => Some((q as u32, n as u32)),
            _ => None,
        },
    }
}

/// The task that `s` specifies, or what is wrong with it. White space around
/// the text and the case of its letters do not matter.
pub open spec fn parse_task(s: Seq<char>) -> Result<TaskSpec, Fault> {
    parse_upper(text::upper(text::trim(s)))
}

/// `bytes` in the largest binary unit that divides it, CDM style.
pub open spec fn block_size_text(bytes: nat) -> Seq<char> {
    if bytes >= 0x4000_0000 && bytes % 0x4000_0000 == 0 {
        text::decimal(bytes / 0x4000_0000).push('G')
    } else if bytes >= 0x10_0000 && bytes % 0x10_0000 == 0 {
        text::decimal(bytes / 0x10_0000).push('M')
    } else if bytes >= 0x400 && bytes % 0x400 == 0 {
        text::decimal(bytes / 0x400).push('K')
    } else {
        text::decimal(bytes)
    }
}

impl TaskSpec {
    /// A task that can run: every number in it is positive.
    pub open spec fn wf(self) -> bool {
        self.block_size > 0 && self.queue_depth > 0 && self.threads > 0
    }

    /// First half of the label: pattern and block size.
    pub open spec fn row_text(self) -> Seq<char> {
        pattern_text(self.pattern) + block_size_text(self.block_size as nat)
    }

    /// Second half of the label: queue depth and threads.
    pub open spec fn queue_text(self) -> Seq<char> {
        seq!['Q'] + text::decimal(self.queue_depth as nat) + seq!['T'] + text::decimal(self.threads as nat)
    }

    /// The compact identifier.
    pub open spec fn id_text(self) -> Seq<char> {
        self.row_text() + self.queue_text()
    }

    /// The label on one line.
    pub open spec fn label_text(self) -> Seq<char> {
        self.row_text() + seq![' '] + self.queue_text()
    }

    /// Reads a task specification. A task that is read can run.
    pub fn from_str(s: &str) -> (r: Result<TaskSpec, SpecError>)
        ensures
            match (r, parse_task(s@)) {
                (Ok(task), Ok(expected)) => task == expected && task.wf(),
                (Err(error), Err(fault)) => error.fault() == fault && error.text() == s@,
                _ => false,
            },
    {
        let all = chars_of(s);
        let t = to_upper(trimmed(all.as_slice()));
        match parse_chars(t.as_slice()) {
            Ok(task) => Ok(task),
            Err(fault) => Err(SpecError::new(fault, s)),
        }
    }

    /// Compact identifier, e.g. `SEQ1MQ8T1` (stable, used in JSON output).
    pub fn id(&self) -> (r: String)
        ensures
            r@ == self.id_text(),
    {
        let mut out = String::new();
        self.push_row(&mut out);
        self.push_queue(&mut out);
        assert(out@ =~= self.id_text());
        out
    }

    /// Two-line CDM-style label: `("SEQ1M", "Q8T1")`.
    pub fn label(&self) -> (r: (String, String))
        ensures
            r.0@ == self.row_text(),
            r.1@ == self.queue_text(),
    {
        let mut row = String::new();
        self.push_row(&mut row);
        let mut queue = String::new();
        self.push_queue(&mut queue);
        assert(row@ =~= self.row_text());
        assert(queue@ =~= self.queue_text());
        (row, queue)
    }

    /// The label on one line: `SEQ1M Q8T1`.
    pub fn to_string(&self) -> (r: String)
        ensures
            r@ == self.label_text(),
    {
        let mut out = String::new();
        self.push_row(&mut out);
        out.push(' ');
        self.push_queue(&mut out);
        assert(out@ =~= self.label_text());
        out
    }

    fn push_row(&self, out: &mut String)
        ensures
            final(out)@ == old(out)@ + self.row_text(),
    {
        match self.pattern {
            Pattern::Sequential => {
                out.push('S');
                out.push('E');
                out.push('Q');
            },
            Pattern::Random => {
                out.push('R');
                out.push('N');
                out.push('D');
            },
        }
        assert(out@ =~= old(out)@ + pattern_text(self.pattern));
        push_block_size(out, self.block_size);
        assert(out@ =~= old(out)@ + self.row_text());
    }

    fn push_queue(&self, out: &mut String)
        ensures
            final(out)@ == old(out)@ + self.queue_text(),
    {
        out.push('Q');
        push_decimal(out, self.queue_depth as u128);
        out.push('T');
        push_decimal(out, self.threads as u128);
        assert(out@ =~= old(out)@ + self.queue_text());
    }
}

impl std::str::FromStr for TaskSpec {
    type Err = SpecError;

    fn from_str(s: &str) -> (r: Result<TaskSpec, SpecError>)
        ensures
            match (r, parse_task(s@)) {
                (Ok(task), Ok(expected)) => task == expected && task.wf(),
                (Err(error), Err(fault)) => error.fault() == fault && error.text() == s@,
                _ => false,
            },
    {
        TaskSpec::from_str(s)
    }
}

fn parse_chars(t: &[char]) -> (r: Result<TaskSpec, Fault>)
    ensures
        r == parse_upper(t@),
        r matches Ok(task) ==> task.wf(),
{
    let seq: [char; 3] = ['S', 'E', 'Q'];
    let rnd: [char; 3] = ['R', 'N', 'D'];
    assert(seq@ =~= pattern_text(Pattern::Sequential));
    assert(rnd@ =~= pattern_text(Pattern::Random));
    let pattern = if starts_with(t, seq.as_slice()) {
        Pattern::Sequential
    } else if starts_with(t, rnd.as_slice()) {
        Pattern::Random
    } else {
        return Err(Fault::Prefix);
    };
    let rest = slice_subrange(t, 3, t.len());
    assert(rest@ =~= t@.skip(3));
    // The block size runs until the first 'Q'; 'K'/'M'/'G' are unit
    // suffixes so they cannot terminate the size section.
    let q: usize = match find_char(rest, 'Q', 0) {
        Some(q) => q,
        None => return Err(Fault::QueueThreads),
    };
    let size = slice_subrange(rest, 0, q);
    assert(size@ =~= rest@.take(q as int));
    let block_size: u64 = match parse_block_size(size) {
        Some(n) => n,
        None => return Err(Fault::BlockSize),
    };
    let qt = slice_subrange(rest, q + 1, rest.len());
    assert(qt@ =~= rest@.skip(q + 1));
    let t_pos: usize = match find_char(qt, 'T', 0) {
        Some(p) => p,
        None => return Err(Fault::QueueThreads),
    };
    let depth = slice_subrange(qt, 0, t_pos);
    let threads = slice_subrange(qt, t_pos + 1, qt.len());
    assert(depth@ =~= qt@.take(t_pos as int));
    assert(threads@ =~= qt@.skip(t_pos + 1));
    let queue_depth: u32 = match parse_unsigned(depth, u32::MAX as u64) {
        Some(n) => n as u32,
        None => return Err(Fault::QueueThreads),
    };
    let threads: u32 = match parse_unsigned(threads, u32::MAX as u64) {
        Some(n) => n as u32,
        None => return Err(Fault::QueueThreads),
    };
    if queue_depth == 0 || threads == 0 {
        return Err(Fault::Zero);
    }
    Ok(TaskSpec { pattern, block_size, queue_depth, threads })
}

/// Reads a block size such as `128K`.
pub fn parse_block_size(s: &[char]) -> (r: Option<u64>)
    ensures
        r == block_size_of(s@),
        r matches Some(n) ==> n > 0,
{
    if s.len() == 0 {
        return None;
    }
    let last = s[s.len() - 1];
    let factor: u64 = if last == 'K' {
        0x400
    } else if last == 'M' {
        0x10_0000
    } else if last == 'G' {
        0x4000_0000
    } else {
        1
    };
    let end: usize = if factor == 1 {
        s.len()
    } else {
        s.len() - 1
    };
    let digits = slice_subrange(s, 0, end);
    proof {
        if factor == 1 {
            assert(digits@ =~= s@);
        } else {
            assert(digits@ =~= s@.drop_last());
        }
    }
    match parse_unsigned(digits, u64::MAX) {
        Some(n) => {
            if n == 0 {
                return None;
            }
            assert(n * factor > 0) by (nonlinear_arith)
                requires
                    n > 0,
                    factor > 0,
            ;
            n.checked_mul(factor)
        },
        None => None,
    }
}

fn push_block_size(out: &mut String, bytes: u64)
    ensures
        final(out)@ == old(out)@ + block_size_text(bytes as nat),
{
    if bytes >= 0x4000_0000 && bytes % 0x4000_0000 == 0 {
        push_decimal(out, (bytes / 0x4000_0000) as u128);
        out.push('G');
    } else if bytes >= 0x10_0000 && bytes % 0x10_0000 == 0 {
        push_decimal(out, (bytes / 0x10_0000) as u128);
        out.push('M');
    } else if bytes >= 0x400 && bytes % 0x400 == 0 {
        push_decimal(out, (bytes / 0x400) as u128);
        out.push('K');
    } else {
        push_decimal(out, bytes as u128);
    }
    assert(out@ =~= old(out)@ + block_size_text(bytes as nat));
}

/// Formats a byte count using the largest exact binary unit, CDM style
/// (1048576 → "1M", 131072 → "128K").
pub fn format_block_size(bytes: u64) -> (r: String)
    ensures
        r@ == block_size_text(bytes as nat),
{
    let mut out = String::new();
    push_block_size(&mut out, bytes);
    assert(out@ =~= block_size_text(bytes as nat));
    out
}

// ---------------------------------------------------------------------------
// Laws of the grammar

/// White space around a task specification does not matter.
pub proof fn law_ignores_surrounding_white_space(s: Seq<char>)
    ensures
        parse_task(text::trim(s)) == parse_task(s),
{
    text::lemma_trim_idempotent(s);
}

/// The case of the letters does not matter.
pub proof fn law_ignores_case(s: Seq<char>)
    ensures
        parse_task(text::upper(s)) == parse_task(s),
{
    text::lemma_trim_upper(s);
    assert(text::upper(text::upper(text::trim(s))) =~= text::upper(text::trim(s)));
}

/// Every block size is read back from its text.
pub proof fn law_block_size_round_trip(bytes: u64)
    requires
        bytes > 0,
    ensures
        block_size_of(block_size_text(bytes as nat)) == Some(bytes),
{
    let n = bytes as nat;
    let s = block_size_text(n);
    let factor: nat = if n >= 0x4000_0000 && n % 0x4000_0000 == 0 {
        0x4000_0000
    } else if n >= 0x10_0000 && n % 0x10_0000 == 0 {
        0x10_0000
    } else if n >= 0x400 && n % 0x400 == 0 {
        0x400
    } else {
        1
    };
    text::lemma_decimal(n / factor);
    if factor == 1 {
        assert(text::is_digit(s.last()));
    } else {
        assert(s.drop_last() =~= text::decimal(n / factor));
    }
    assert((n / factor) * factor == n);
}

/// The characters of a task identifier: digits and capitals, of which `Q` and
/// `T` occur in the block size not at all.
proof fn lemma_block_size_chars(n: nat)
    ensures
        block_size_text(n).len() > 0,
        forall|i: int|
            0 <= i < block_size_text(n).len() ==> {
                let c = #[trigger] block_size_text(n)[i];
                text::is_digit(c) || c == 'K' || c == 'M' || c == 'G'
            },
{
    text::lemma_decimal(n / 0x4000_0000);
    text::lemma_decimal(n / 0x10_0000);
    text::lemma_decimal(n / 0x400);
    text::lemma_decimal(n);
}

/// Trimming and upper case leave an identifier as it is.
proof fn lemma_id_is_canonical(task: TaskSpec)
    ensures
        text::upper(text::trim(task.id_text())) == task.id_text(),
{
    let p = pattern_text(task.pattern);
    let b = block_size_text(task.block_size as nat);
    let d = text::decimal(task.queue_depth as nat);
    let n = text::decimal(task.threads as nat);
    let id = task.id_text();
    lemma_block_size_chars(task.block_size as nat);
    text::lemma_decimal(task.queue_depth as nat);
    text::lemma_decimal(task.threads as nat);
    assert(id[0] == p[0]);
    assert(text::is_digit(n.last()));
    assert(id.last() == n.last());
    assert(text::trim(id) == id);
    assert forall|i: int| 0 <= i < id.len() implies text::upper_char(#[trigger] id[i]) == id[i] by {
        if i < 3 {
            assert(id[i] == p[i]);
        } else if i < 3 + b.len() {
            assert(id[i] == b[i - 3]);
        } else if i == 3 + b.len() {
            assert(id[i] == 'Q');
        } else if i < 4 + b.len() + d.len() {
            assert(id[i] == d[i - 4 - b.len()]);
            assert(text::is_digit(id[i]));
        } else if i == 4 + b.len() + d.len() {
            assert(id[i] == 'T');
        } else {
            assert(id[i] == n[i - 5 - b.len() - d.len()]);
            assert(text::is_digit(id[i]));
        }
    }
    assert(text::upper(id) =~= id);
}

/// The queue section reads back as the two numbers in it.
proof fn lemma_queue_round_trip(task: TaskSpec)
    ensures
        queue_threads_of(task.queue_text().skip(1)) == Some((task.queue_depth, task.threads)),
{
    let d = text::decimal(task.queue_depth as nat);
    let n = text::decimal(task.threads as nat);
    text::lemma_decimal(task.queue_depth as nat);
    text::lemma_decimal(task.threads as nat);
    let qt = d + seq!['T'] + n;
    assert(task.queue_text().skip(1) =~= qt);
    let t = d.len() as int;
    assert forall|j: int| 0 <= j < t implies qt[j] != 'T' by {
        assert(qt[j] == d[j]);
        assert(text::is_digit(d[j]));
    }
    text::lemma_find_is(qt, 'T', 0, t);
    assert(qt.take(t) =~= d);
    assert(qt.skip(t + 1) =~= n);
}

/// The identifier of a task that can run reads back as that task.
pub proof fn law_id_round_trip(task: TaskSpec)
    requires
        task.wf(),
    ensures
        parse_task(task.id_text()) == Ok::<TaskSpec, Fault>(task),
{
    let p = pattern_text(task.pattern);
    let b = block_size_text(task.block_size as nat);
    let id = task.id_text();
    let rest = b + task.queue_text();
    lemma_id_is_canonical(task);
    assert(id.take(3) =~= p);
    assert(id.skip(3) =~= rest);
    if task.pattern is Random {
        assert(id.take(3)[0] == 'R');
        assert(pattern_text(Pattern::Sequential)[0] == 'S');
    }
    assert(parse_task(id) == parse_sections(task.pattern, rest));
    let q = b.len() as int;
    lemma_block_size_chars(task.block_size as nat);
    assert forall|j: int| 0 <= j < q implies rest[j] != 'Q' by {
        assert(rest[j] == b[j]);
    }
    text::lemma_find_is(rest, 'Q', 0, q);
    assert(rest.take(q) =~= b);
    assert(rest.skip(q + 1) =~= task.queue_text().skip(1));
    law_block_size_round_trip(task.block_size);
    lemma_queue_round_trip(task);
}

/// The unit letter for a number of bytes, as text: none for single bytes.
pub open spec fn unit_letter(factor: nat) -> Seq<char> {
    if factor == 0x400 {
        seq!['K']
    } else if factor == 0x10_0000 {
        seq!['M']
    } else if factor == 0x4000_0000 {
        seq!['G']
    } else {
        Seq::empty()
    }
}

/// A task written by the grammar: the letters of its pattern, a number with a
/// unit, `Q` and a number, `T` and a number.
pub open spec fn written(letters: Seq<char>, n: nat, factor: nat, depth: nat, threads: nat) -> Seq<
    char,
> {
    letters + text::decimal(n) + unit_letter(factor) + seq!['Q'] + text::decimal(depth) + seq!['T']
        + text::decimal(threads)
}

/// The parts of a written task are found in it.
#[verifier::spinoff_prover]
proof fn lemma_written(letters: Seq<char>, n: nat, factor: nat, depth: nat, threads: nat)
    requires
        letters == seq!['S', 'E', 'Q'] || letters == seq!['R', 'N', 'D'],
    ensures
        ({
            let s = written(letters, n, factor, depth, threads);
            let b = text::decimal(n) + unit_letter(factor);
            let rest = s.skip(3);
            let q = b.len() as int;
            let d = text::decimal(depth);
            let after = rest.skip(q + 1);
            &&& text::upper(text::trim(s)) == s
            &&& s.take(3) == letters
            &&& text::find(rest, 'Q') == Some(q)
            &&& rest.take(q) == b
            &&& text::find(after, 'T') == Some(d.len() as int)
            &&& after.take(d.len() as int) == d
            &&& after.skip(d.len() as int + 1) == text::decimal(threads)
        }),
{
    let s = written(letters, n, factor, depth, threads);
    let num = text::decimal(n);
    let u = unit_letter(factor);
    let b = num + u;
    let d = text::decimal(depth);
    let t = text::decimal(threads);
    text::lemma_decimal(n);
    text::lemma_decimal(depth);
    text::lemma_decimal(threads);
    assert forall|i: int| 0 <= i < b.len() implies is_size_char(#[trigger] b[i]) by {
        if i < num.len() {
            assert(b[i] == num[i]);
            assert(text::is_digit(num[i]));
        } else {
            assert(b[i] == u[i - num.len()]);
        }
    }
    assert(s =~= letters + (b + (seq!['Q'] + (d + (seq!['T'] + t)))));
    lemma_is_canonical(letters, b, d, t);
    lemma_has_parts(letters, b, d, t);
}

/// The characters of a block size.
spec fn is_size_char(c: char) -> bool {
    text::is_digit(c) || c == 'K' || c == 'M' || c == 'G'
}

/// Trimming and upper case leave a written task as it is.
#[verifier::spinoff_prover]
proof fn lemma_is_canonical(letters: Seq<char>, b: Seq<char>, d: Seq<char>, t: Seq<char>)
    requires
        letters == seq!['S', 'E', 'Q'] || letters == seq!['R', 'N', 'D'],
        forall|i: int| 0 <= i < b.len() ==> is_size_char(#[trigger] b[i]),
        text::all_digits(d),
        text::all_digits(t),
    ensures
        ({
            let s = letters + (b + (seq!['Q'] + (d + (seq!['T'] + t))));
            text::upper(text::trim(s)) == s
        }),
{
    let s = letters + (b + (seq!['Q'] + (d + (seq!['T'] + t))));
    assert(letters[0] == 'S' || letters[0] == 'R');
    assert(s[0] == letters[0]);
    assert(s.last() == t[t.len() - 1]);
    assert(text::is_digit(t[t.len() - 1]));
    assert(text::trim_start(s) == s);
    assert(text::trim_end(s) == s);
    assert forall|i: int| 0 <= i < s.len() implies text::upper_char(#[trigger] s[i]) == s[i] by {
        if i < 3 {
            assert(s[i] == letters[i]);
        } else if i < 3 + b.len() {
            assert(s[i] == b[i - 3]);
            assert(is_size_char(b[i - 3]));
        } else if i == 3 + b.len() {
            assert(s[i] == 'Q');
        } else if i < 4 + b.len() + d.len() {
            assert(s[i] == d[i - 4 - b.len()]);
            assert(text::is_digit(d[i - 4 - b.len()]));
        } else if i == 4 + b.len() + d.len() {
            assert(s[i] == 'T');
        } else {
            assert(s[i] == t[i - 5 - b.len() - d.len()]);
            assert(text::is_digit(t[i - 5 - b.len() - d.len()]));
        }
    }
    assert(text::upper(s) =~= s);
}

/// The parts of a written task stand around its first `Q` and the first `T`
/// behind that.
#[verifier::spinoff_prover]
proof fn lemma_has_parts(letters: Seq<char>, b: Seq<char>, d: Seq<char>, t: Seq<char>)
    requires
        letters.len() == 3,
        forall|i: int| 0 <= i < b.len() ==> is_size_char(#[trigger] b[i]),
        text::all_digits(d),
    ensures
        ({
            let s = letters + (b + (seq!['Q'] + (d + (seq!['T'] + t))));
            let rest = s.skip(3);
            let q = b.len() as int;
            let after = rest.skip(q + 1);
            &&& s.take(3) == letters
            &&& text::find(rest, 'Q') == Some(q)
            &&& rest.take(q) == b
            &&& text::find(after, 'T') == Some(d.len() as int)
            &&& after.take(d.len() as int) == d
            &&& after.skip(d.len() as int + 1) == t
        }),
{
    let s = letters + (b + (seq!['Q'] + (d + (seq!['T'] + t))));
    let rest = s.skip(3);
    let q = b.len() as int;
    assert(rest =~= b + (seq!['Q'] + (d + (seq!['T'] + t))));
    assert forall|j: int| 0 <= j < q implies rest[j] != 'Q' by {
        assert(rest[j] == b[j]);
        assert(is_size_char(b[j]));
    }
    text::lemma_find_is(rest, 'Q', 0, q);
    assert(rest.take(q) =~= b);
    let after = rest.skip(q + 1);
    assert(after =~= d + (seq!['T'] + t));
    let k = d.len() as int;
    assert forall|j: int| 0 <= j < k implies after[j] != 'T' by {
        assert(after[j] == d[j]);
        assert(text::is_digit(d[j]));
    }
    text::lemma_find_is(after, 'T', 0, k);
    assert(after.take(k) =~= d);
    assert(after.skip(k + 1) =~= t);
    assert(s.take(3) =~= letters);
}

/// A text by the grammar specifies the task that it spells out: `SEQ` or `RND`
/// is the pattern, the number ahead of the `Q` times its unit the block size,
/// the one behind it the queue depth, the one behind the `T` the threads. It
/// is rejected exactly where one of the numbers is zero or beyond its type.
pub proof fn law_a_task_is_what_it_spells_out(
    pattern: Pattern,
    n: nat,
    factor: nat,
    depth: nat,
    threads: nat,
)
    requires
        factor == 1 || factor == 0x400 || factor == 0x10_0000 || factor == 0x4000_0000,
    ensures
        ({
            let letters = if pattern is Sequential {
                seq!['S', 'E', 'Q']
            } else {
                seq!['R', 'N', 'D']
            };
            let r = parse_task(written(letters, n, factor, depth, threads));
            if n == 0 || n * factor > u64::MAX {
                r == Err::<TaskSpec, Fault>(Fault::BlockSize)
            } else if depth > u32::MAX || threads > u32::MAX {
                r == Err::<TaskSpec, Fault>(Fault::QueueThreads)
            } else if depth == 0 || threads == 0 {
                r == Err::<TaskSpec, Fault>(Fault::Zero)
            } else {
                r matches Ok(task) && task.pattern == pattern && task.block_size == n * factor
                    && task.queue_depth == depth && task.threads == threads
            }
        }),
{
    let letters = if pattern is Sequential {
        seq!['S', 'E', 'Q']
    } else {
        seq!['R', 'N', 'D']
    };
    let s = written(letters, n, factor, depth, threads);
    let b = text::decimal(n) + unit_letter(factor);
    let rest = s.skip(3);
    lemma_written(letters, n, factor, depth, threads);
    assert(parse_task(s) == parse_sections(pattern, rest)) by {
        if pattern is Random {
            assert(s.take(3)[0] == 'R');
            assert(pattern_text(Pattern::Sequential)[0] == 'S');
        }
        assert(s.len() >= 3);
    }
    lemma_written_block_size(n, factor);
    lemma_written_queue(rest.skip(b.len() as int + 1), depth, threads);
}

/// The queue section of a written task is its two numbers, where they fit.
proof fn lemma_written_queue(s: Seq<char>, depth: nat, threads: nat)
    requires
        ({
            let k = text::decimal(depth).len() as int;
            &&& text::find(s, 'T') == Some(k)
            &&& s.take(k) == text::decimal(depth)
            &&& s.skip(k + 1) == text::decimal(threads)
        }),
    ensures
        queue_threads_of(s) == (if depth <= u32::MAX && threads <= u32::MAX {
            Some((depth as u32, threads as u32))
        } else {
            None
        }),
{
    lemma_decimal_is_unsigned(depth, u32::MAX as nat);
    lemma_decimal_is_unsigned(threads, u32::MAX as nat);
}

/// A number in decimal reads back as that number, where it fits.
proof fn lemma_decimal_is_unsigned(n: nat, max: nat)
    ensures
        text::unsigned(text::decimal(n), max) == (if n <= max {
            Some(n)
        } else {
            None
        }),
{
    text::lemma_decimal(n);
    assert(text::is_digit(text::decimal(n)[0]));
}

/// A number with a unit is that many times the unit, where it fits.
proof fn lemma_written_block_size(n: nat, factor: nat)
    requires
        factor == 1 || factor == 0x400 || factor == 0x10_0000 || factor == 0x4000_0000,
    ensures
        block_size_of(text::decimal(n) + unit_letter(factor)) == (if n == 0 || n * factor
            > u64::MAX {
            None
        } else {
            Some((n * factor) as u64)
        }),
{
    let b = text::decimal(n) + unit_letter(factor);
    text::lemma_decimal(n);
    lemma_decimal_is_unsigned(n, u64::MAX as nat);
    if factor == 1 {
        assert(b =~= text::decimal(n));
        assert(text::is_digit(b.last()));
    } else {
        assert(b.drop_last() =~= text::decimal(n));
        assert(b.last() == unit_letter(factor)[0]);
    }
    assert(n > u64::MAX ==> n * factor > u64::MAX) by (nonlinear_arith)
        requires
            factor >= 1,
    ;
}

/// A text is rejected for its beginning exactly where that is, in capitals and
/// without the white space around it, neither `SEQ` nor `RND`.
pub proof fn law_every_task_has_a_pattern(s: Seq<char>)
    ensures
        ({
            let t = text::upper(text::trim(s));
            let named = t.len() >= 3 && (t.take(3) == seq!['S', 'E', 'Q'] || t.take(3) == seq![
                'R',
                'N',
                'D',
            ]);
            &&& parse_task(s) == Err::<TaskSpec, Fault>(Fault::Prefix) <==> !named
            &&& parse_task(s) matches Ok(task) ==> {
                &&& task.pattern is Sequential <==> t.take(3) == seq!['S', 'E', 'Q']
                &&& task.wf()
            }
        }),
{
    assert(seq!['S', 'E', 'Q'][0] != seq!['R', 'N', 'D'][0]);
    let t = text::upper(text::trim(s));
    if t.len() >= 3 {
        if let Some(q) = text::find(t.skip(3), 'Q') {
            let b = t.skip(3).take(q);
            let factor = unit_factor(b.last());
            if let Some(n) = text::unsigned(
                if factor == 1 {
                    b
                } else {
                    b.drop_last()
                },
                u64::MAX as nat,
            ) {
                assert(n > 0 ==> n * factor > 0) by (nonlinear_arith)
                    requires
                        factor >= 1,
                ;
            }
        }
    }
}

/// A block size is written in the largest unit of which it is a whole number:
/// as 1M, not as 1024K.
pub proof fn law_block_sizes_use_the_largest_unit(n: nat)
    requires
        n > 0,
    ensures
        block_size_text(n * 0x4000_0000) == text::decimal(n) + seq!['G'],
        n % 1024 != 0 ==> {
            &&& block_size_text(n * 0x10_0000) == text::decimal(n) + seq!['M']
            &&& block_size_text(n * 0x400) == text::decimal(n) + seq!['K']
            &&& block_size_text(n) == text::decimal(n)
        },
{
    assert(text::decimal(n).push('G') =~= text::decimal(n) + seq!['G']);
    assert(text::decimal(n).push('M') =~= text::decimal(n) + seq!['M']);
    assert(text::decimal(n).push('K') =~= text::decimal(n) + seq!['K']);
}

/// The label is the identifier in two halves, with a space between them: the
/// pattern and the block size, then the queue depth and the threads.
pub proof fn law_a_label_shows_the_task(task: TaskSpec)
    ensures
        ({
            let letters = if task.pattern is Sequential {
                seq!['S', 'E', 'Q']
            } else {
                seq!['R', 'N', 'D']
            };
            let row = letters + block_size_text(task.block_size as nat);
            let queue = seq!['Q'] + text::decimal(task.queue_depth as nat) + seq!['T']
                + text::decimal(task.threads as nat);
            &&& task.row_text() == row
            &&& task.queue_text() == queue
            &&& task.label_text() == row + seq![' '] + queue
            &&& task.id_text() == row + queue
        }),
{
}

/// Tasks that can run have the same identifier only if they are the same.
pub proof fn law_id_identifies(a: TaskSpec, b: TaskSpec)
    requires
        a.wf(),
        b.wf(),
        a.id_text() == b.id_text(),
    ensures
        a == b,
{
    law_id_round_trip(a);
    law_id_round_trip(b);
}

/// A rejection quotes the text and says which part of it is wrong.
pub proof fn law_a_rejection_says_what_is_wrong(quoted: Seq<char>)
    ensures
        SpecError::message_text(Fault::Prefix, quoted) == "task must start with SEQ or RND: "@
            + quoted,
        SpecError::message_text(Fault::BlockSize, quoted) == "invalid block size in "@ + quoted
            + " (expected e.g. 4K, 128K, 1M)"@,
        SpecError::message_text(Fault::QueueThreads, quoted)
            == "invalid queue/thread section in "@ + quoted + " (expected Q<n>T<n>)"@,
        SpecError::message_text(Fault::Zero, quoted)
            == "queue depth and threads must be at least 1: "@ + quoted,
{
}

} // verus!
