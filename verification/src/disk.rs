//! Disk information for the header line and the free-space safety check.
//!
//! Identifies the volume hosting the target directory the way `df` would:
//! mount source (device node or network share), volume name where the
//! platform has one, filesystem type, and capacity. What the operating system
//! answered comes in as it is: `statvfs` and `/proc/self/mountinfo` on Linux,
//! `statfs` on macOS, the volume APIs on Windows.

use vstd::prelude::*;
use vstd::slice::slice_subrange;

use crate::mounts;
use crate::mounts::deepest_mount;
use crate::text;
use crate::text::{chars_of, decode_lossy, push_decimal, starts_with, string_of};

verus! {

/// The disk (volume) hosting the benchmark target directory.
#[derive(Debug)]
pub struct DiskInfo {
    /// Mount source: a device node (`/dev/disk3s5`), a network share
    /// (`//user@host/share`, `host:/export`, `\\server\share`), or a
    /// Windows drive root (`C:`).
    pub source: String,
    /// Volume name or label, on platforms that have one.
    pub volume: Option<String>,
    /// Where the volume is mounted.
    pub mount: String,
    pub file_system: String,
    pub total: u64,
    pub available: u64,
}

impl DiskInfo {
    /// Identity string for the UIs: `volume (source, fstype)`, or
    /// `source (fstype)` when the volume has no name.
    pub open spec fn label_text(self) -> Seq<char> {
        match self.volume {
            Some(volume) => volume@ + " ("@ + self.source@ + ", "@ + self.file_system@ + ")"@,
            None => self.source@ + " ("@ + self.file_system@ + ")"@,
        }
    }

    /// Identity string for the UIs: `volume (source, fstype)`, or
    /// `source (fstype)` when the volume has no name.
    pub fn label(&self) -> (r: String)
        ensures
            r@ == self.label_text(),
    {
        let mut out = String::new();
        match &self.volume {
            Some(volume) => {
                out.append(volume.as_str());
                out.append(" (");
                out.append(self.source.as_str());
                out.append(", ");
            },
            None => {
                out.append(self.source.as_str());
                out.append(" (");
            },
        }
        out.append(self.file_system.as_str());
        out.append(")");
        assert(out@ =~= self.label_text());
        out
    }
}

// ---------------------------------------------------------------------------
// Sizes in words

/// `n / d` to the nearest integer, a tie to the even one.
pub open spec fn round_even(n: nat, d: nat) -> nat {
    let q = n / d;
    let r = n % d;
    if 2 * r > d || (2 * r == d && q % 2 == 1) {
        q + 1
    } else {
        q
    }
}

/// The distance between neighbouring floating-point numbers of 53 significant
/// bits around `n`.
pub open spec fn ulp(n: nat) -> nat
    decreases n,
{
    if n < 0x20_0000_0000_0000 {
        1
    } else {
        2 * ulp(n / 2)
    }
}

/// `n` with 53 significant bits.
pub open spec fn rounded(n: nat) -> nat {
    round_even(n, ulp(n)) * ulp(n)
}

/// The bytes of the largest unit, up to PiB, of which `v` bytes hold one.
pub open spec fn unit_bytes(v: nat) -> nat {
    if v >= 0x4_0000_0000_0000 {
        0x4_0000_0000_0000
    } else if v >= 0x100_0000_0000 {
        0x100_0000_0000
    } else if v >= 0x4000_0000 {
        0x4000_0000
    } else if v >= 0x10_0000 {
        0x10_0000
    } else if v >= 0x400 {
        0x400
    } else {
        1
    }
}

/// The name of a unit.
pub open spec fn unit_name(unit: nat) -> Seq<char> {
    if unit == 0x4_0000_0000_0000 {
        " PiB"@
    } else if unit == 0x100_0000_0000 {
        " TiB"@
    } else if unit == 0x4000_0000 {
        " GiB"@
    } else if unit == 0x10_0000 {
        " MiB"@
    } else if unit == 0x400 {
        " KiB"@
    } else {
        " B"@
    }
}

/// "1.0 GiB"-style humanization (binary units, one decimal). Above 2^53 bytes
/// the count is taken with 53 significant bits.
pub open spec fn human_text(bytes: nat) -> Seq<char> {
    let v = rounded(bytes);
    let unit = unit_bytes(v);
    if unit == 1 {
        text::decimal(bytes) + unit_name(1)
    } else {
        let tenths = round_even(10 * v, unit);
        text::decimal(tenths / 10) + "."@ + text::decimal(tenths % 10) + unit_name(unit)
    }
}

fn nearest(n: u128, d: u128) -> (r: u128)
    requires
        0 < d <= 0x1_0000_0000_0000_0000,
        n <= 0xf_ffff_ffff_ffff_ffff_ffff,
    ensures
        r == round_even(n as nat, d as nat),
        r <= n + 1,
{
    let q: u128 = n / d;
    let rest: u128 = n % d;
    proof {
        assert(n / d <= n) by (nonlinear_arith)
            requires
                d > 0,
                n >= 0,
        ;
    }
    if 2 * rest > d || (2 * rest == d && q % 2 == 1) {
        q + 1
    } else {
        q
    }
}

fn spacing(n: u128) -> (r: u128)
    requires
        n < 0x2_0000_0000_0000_0000,
    ensures
        r == ulp(n as nat),
        1 <= r <= 0x1000,
{
    if n < 0x20_0000_0000_0000 {
        1
    } else {
        proof {
            reveal_with_fuel(ulp, 14);
        }
        if n < 0x40_0000_0000_0000 {
            2
        } else if n < 0x80_0000_0000_0000 {
            4
        } else if n < 0x100_0000_0000_0000 {
            8
        } else if n < 0x200_0000_0000_0000 {
            0x10
        } else if n < 0x400_0000_0000_0000 {
            0x20
        } else if n < 0x800_0000_0000_0000 {
            0x40
        } else if n < 0x1000_0000_0000_0000 {
            0x80
        } else if n < 0x2000_0000_0000_0000 {
            0x100
        } else if n < 0x4000_0000_0000_0000 {
            0x200
        } else if n < 0x8000_0000_0000_0000 {
            0x400
        } else if n < 0x1_0000_0000_0000_0000 {
            0x800
        } else {
            0x1000
        }
    }
}

/// "1.0 GiB"-style humanization (binary units, one decimal).
pub fn human_bytes(bytes: u64) -> (r: String)
    ensures
        r@ == human_text(bytes as nat),
{
    human_sum(bytes as u128)
}

/// The same for a sum of two counts.
pub(crate) fn human_sum(bytes: u128) -> (r: String)
    requires
        bytes < 0x2_0000_0000_0000_0000,
    ensures
        r@ == human_text(bytes as nat),
{
    let step: u128 = spacing(bytes);
    let n: u128 = nearest(bytes, step);
    proof {
        assert(n * step <= 0x2_0000_0000_0000_0000 * 0x1000) by (nonlinear_arith)
            requires
                n <= 0x2_0000_0000_0000_0000,
                step <= 0x1000,
        ;
        assert(10 * (n * step) <= 0xf_ffff_ffff_ffff_ffff_ffff);
    }
    let v: u128 = n * step;
    let (unit, name): (u128, &str) = if v >= 0x4_0000_0000_0000 {
        (0x4_0000_0000_0000, " PiB")
    } else if v >= 0x100_0000_0000 {
        (0x100_0000_0000, " TiB")
    } else if v >= 0x4000_0000 {
        (0x4000_0000, " GiB")
    } else if v >= 0x10_0000 {
        (0x10_0000, " MiB")
    } else if v >= 0x400 {
        (0x400, " KiB")
    } else {
        (1, " B")
    };
    let mut out = String::new();
    if unit == 1 {
        push_decimal(&mut out, bytes);
    } else {
        let tenths: u128 = nearest(10 * v, unit);
        push_decimal(&mut out, tenths / 10);
        out.append(".");
        push_decimal(&mut out, tenths % 10);
    }
    out.append(name);
    assert(out@ =~= human_text(bytes as nat));
    out
}

/// Counts below 2^53 are shown exactly as they are, to the nearest tenth.
pub proof fn law_counts_below_two_to_the_53_are_exact(bytes: nat)
    requires
        bytes < 0x20_0000_0000_0000,
    ensures
        rounded(bytes) == bytes,
{
    assert(bytes / 1 == bytes && bytes % 1 == 0) by (nonlinear_arith);
    assert(ulp(bytes) == 1);
    assert(round_even(bytes, 1) == bytes);
    assert(bytes * 1 == bytes);
}

/// The nearest integer is less than half a step away, or just half.
proof fn lemma_round_even(n: nat, d: nat)
    requires
        d > 0,
    ensures
        2 * (round_even(n, d) * d - n) <= d,
        2 * (n - round_even(n, d) * d) <= d,
{
    let q = n / d;
    let r = n % d;
    vstd::arithmetic::div_mod::lemma_fundamental_div_mod(n as int, d as int);
    assert(n == d * q + r);
    assert(d * q == q * d) by (nonlinear_arith);
    assert((q + 1) * d == q * d + d) by (nonlinear_arith);
}

/// Whether `s` is `tenths` tenths in words, with one decimal and `name`.
pub open spec fn is_in_tenths(s: Seq<char>, tenths: nat, name: Seq<char>) -> bool {
    s == text::decimal(tenths / 10) + "."@ + text::decimal(tenths % 10) + name
}

/// Whether `tenths` tenths of `unit` are as near to `bytes` as any.
pub open spec fn is_nearest_tenth(bytes: nat, unit: nat, tenths: nat) -> bool {
    2 * (tenths * unit - 10 * bytes) <= unit && 2 * (10 * bytes - tenths * unit) <= unit
}

/// The unit for so many bytes: the largest, up to PiB, of which there is one.
pub open spec fn is_unit_for(bytes: nat, unit: nat, name: Seq<char>) -> bool {
    ||| 0x400 <= bytes < 0x10_0000 && unit == 0x400 && name == " KiB"@
    ||| 0x10_0000 <= bytes < 0x4000_0000 && unit == 0x10_0000 && name == " MiB"@
    ||| 0x4000_0000 <= bytes < 0x100_0000_0000 && unit == 0x4000_0000 && name == " GiB"@
    ||| 0x100_0000_0000 <= bytes < 0x4_0000_0000_0000 && unit == 0x100_0000_0000 && name
        == " TiB"@
    ||| 0x4_0000_0000_0000 <= bytes && unit == 0x4_0000_0000_0000 && name == " PiB"@
}

/// Less than a kibibyte is shown in bytes; any count below 2^53 bytes to the
/// nearest tenth of the largest unit of which there is one.
pub proof fn law_sizes_are_shown_to_a_tenth(bytes: nat, unit: nat, name: Seq<char>)
    requires
        bytes < 0x20_0000_0000_0000,
    ensures
        bytes < 0x400 ==> human_text(bytes) == text::decimal(bytes) + " B"@,
        is_unit_for(bytes, unit, name) ==> exists|tenths: nat|
            #[trigger] is_in_tenths(human_text(bytes), tenths, name) && is_nearest_tenth(
                bytes,
                unit,
                tenths,
            ),
{
    law_counts_below_two_to_the_53_are_exact(bytes);
    if is_unit_for(bytes, unit, name) {
        let tenths = round_even(10 * bytes, unit);
        lemma_round_even(10 * bytes, unit);
        assert(is_in_tenths(human_text(bytes), tenths, name));
    }
}

/// Greater counts are first taken with 53 significant bits: to the nearest
/// multiple of a power of two that is at most the 2^52nd part of them.
pub proof fn law_greater_counts_keep_53_bits(bytes: nat)
    requires
        bytes >= 0x20_0000_0000_0000,
    ensures
        2 * (rounded(bytes) - bytes) <= ulp(bytes),
        2 * (bytes - rounded(bytes)) <= ulp(bytes),
        ulp(bytes) * 0x10_0000_0000_0000 <= bytes,
        rounded(bytes) >= 0x4_0000_0000_0000,
        exists|tenths: nat|
            #[trigger] is_in_tenths(human_text(bytes), tenths, " PiB"@) && is_nearest_tenth(
                rounded(bytes),
                0x4_0000_0000_0000,
                tenths,
            ),
{
    lemma_ulp(bytes);
    lemma_round_even(bytes, ulp(bytes));
    let tenths = round_even(10 * rounded(bytes), 0x4_0000_0000_0000);
    lemma_round_even(10 * rounded(bytes), 0x4_0000_0000_0000);
    assert(is_in_tenths(human_text(bytes), tenths, " PiB"@));
}

proof fn lemma_ulp(n: nat)
    ensures
        ulp(n) > 0,
        n >= 0x20_0000_0000_0000 ==> ulp(n) * 0x10_0000_0000_0000 <= n,
    decreases n,
{
    if n >= 0x20_0000_0000_0000 {
        lemma_ulp(n / 2);
        if n / 2 < 0x20_0000_0000_0000 {
            assert(ulp(n / 2) == 1);
        }
    }
}

/// A volume goes by its name, where it has one, and by its source and file
/// system.
pub proof fn law_a_label_names_the_volume(d: DiskInfo)
    ensures
        d.volume matches Some(v) ==> d.label_text() == v@ + " ("@ + d.source@ + ", "@
            + d.file_system@ + ")"@,
        d.volume is None ==> d.label_text() == d.source@ + " ("@ + d.file_system@ + ")"@,
{
}

// ---------------------------------------------------------------------------
// What the operating system says

/// What the system knows of the volume that hosts a path.
#[derive(Debug)]
pub enum Facts {
    Linux { mountinfo: String, stat: VfsStat },
    MacOs { fs: FsStat, name: Option<NameReply> },
    Windows(WindowsVolume),
    /// The system did not answer, or is none of these.
    Unknown,
}

/// The answer of `statvfs`.
#[derive(Debug)]
pub struct VfsStat {
    pub fragment_size: u64,
    pub block_size: u64,
    pub blocks: u64,
    pub available: u64,
}

/// The answer of `statfs`; the texts as C strings.
#[derive(Debug)]
pub struct FsStat {
    pub source: Vec<u8>,
    pub mount: Vec<u8>,
    pub file_system: Vec<u8>,
    pub block_size: u32,
    pub blocks: u64,
    pub available: u64,
}

/// The answer of `getattrlist` for a volume name.
#[derive(Debug)]
pub struct NameReply {
    /// Where the name begins, relative to the reference to it.
    pub offset: i32,
    /// Length of the name, its terminating zero included.
    pub length: u32,
    /// Where in the reply the reference lies.
    pub reference_at: usize,
    /// Where in the reply the data lies.
    pub data_at: usize,
    pub data: Vec<u8>,
}

/// The answers of the Windows volume APIs; the texts in UTF-16, ended by a
/// zero.
#[derive(Debug)]
pub struct WindowsVolume {
    pub root: Vec<u16>,
    pub total: u64,
    pub available: u64,
    /// Label and file system, where the volume tells.
    pub info: Option<(Vec<u16>, Vec<u16>)>,
    /// Whether this is a network drive.
    pub remote: bool,
    /// The share behind the drive letter, where it is mapped to one.
    pub share: Option<Vec<u16>>,
}

/// A disk, with its texts as sequences.
#[verifier::ext_equal]
pub struct DiskView {
    pub source: Seq<char>,
    pub volume: Option<Seq<char>>,
    pub mount: Seq<char>,
    pub file_system: Seq<char>,
    pub total: u64,
    pub available: u64,
}

impl View for DiskInfo {
    type V = DiskView;

    open spec fn view(&self) -> DiskView {
        DiskView {
            source: self.source@,
            volume: text::optional(self.volume),
            mount: self.mount@,
            file_system: self.file_system@,
            total: self.total,
            available: self.available,
        }
    }
}

/// A product of 64 bits, or the greatest such number where it is beyond.
pub open spec fn saturated(n: int) -> u64 {
    if n <= u64::MAX {
        n as u64
    } else {
        u64::MAX
    }
}

fn saturating_product(a: u64, b: u64) -> (r: u64)
    ensures
        r == saturated(a * b),
{
    proof {
        assert(0 <= a * b <= 0xffff_ffff_ffff_ffff * 0xffff_ffff_ffff_ffff) by (nonlinear_arith)
            requires
                0 <= a <= 0xffff_ffff_ffff_ffff,
                0 <= b <= 0xffff_ffff_ffff_ffff,
        ;
    }
    let n: u128 = a as u128 * b as u128;
    if n <= 0xffff_ffff_ffff_ffff {
        n as u64
    } else {
        u64::MAX
    }
}

/// The bytes ahead of the first zero.
pub open spec fn c_bytes(s: Seq<u8>) -> Seq<u8>
    decreases s.len(),
{
    if s.len() == 0 || s[0] == 0 {
        Seq::empty()
    } else {
        seq![s[0]] + c_bytes(s.skip(1))
    }
}

/// The text of a C string.
fn c_text(s: &[u8]) -> (r: String)
    ensures
        r@ == text::utf8_lossy(c_bytes(s@)),
{
    let mut n: usize = 0;
    assert(s@.skip(0) =~= s@);
    assert(s@.take(0) + c_bytes(s@) =~= c_bytes(s@));
    while n < s.len() && s[n] != 0
        invariant
            n <= s.len(),
            s@.take(n as int) + c_bytes(s@.skip(n as int)) == c_bytes(s@),
        decreases s.len() - n,
    {
        proof {
            let rest = s@.skip(n as int);
            assert(rest.skip(1) =~= s@.skip(n + 1));
            assert(s@.take(n as int) + (seq![rest[0]] + c_bytes(rest.skip(1))) =~= s@.take(n + 1)
                + c_bytes(rest.skip(1)));
        }
        n += 1;
    }
    let bytes = slice_subrange(s, 0, n);
    proof {
        assert(c_bytes(s@.skip(n as int)) =~= Seq::empty());
        assert(bytes@ =~= c_bytes(s@));
    }
    decode_lossy(bytes)
}

/// The units ahead of the first zero.
pub open spec fn wide_units(s: Seq<u16>) -> Seq<u16>
    decreases s.len(),
{
    if s.len() == 0 || s[0] == 0 {
        Seq::empty()
    } else {
        seq![s[0]] + wide_units(s.skip(1))
    }
}

/// How many units stand ahead of the first zero.
fn wide_len(s: &[u16]) -> (n: usize)
    ensures
        n <= s.len(),
        s@.take(n as int) == wide_units(s@),
        n < s.len() ==> s@[n as int] == 0,
        n == s.len() ==> forall|i: int| 0 <= i < s@.len() ==> s@[i] != 0,
{
    let mut n: usize = 0;
    assert(s@.skip(0) =~= s@);
    assert(s@.take(0) + wide_units(s@) =~= wide_units(s@));
    while n < s.len() && s[n] != 0
        invariant
            n <= s.len(),
            s@.take(n as int) + wide_units(s@.skip(n as int)) == wide_units(s@),
            forall|i: int| 0 <= i < n ==> s@[i] != 0,
        decreases s.len() - n,
    {
        proof {
            let rest = s@.skip(n as int);
            assert(rest.skip(1) =~= s@.skip(n + 1));
            assert(s@.take(n as int) + (seq![rest[0]] + wide_units(rest.skip(1))) =~= s@.take(
                n + 1,
            ) + wide_units(rest.skip(1)));
        }
        n += 1;
    }
    proof {
        assert(wide_units(s@.skip(n as int)) =~= Seq::empty());
        assert(s@.take(n as int) =~= wide_units(s@));
    }
    n
}

/// `String::from_utf16_lossy`: the text of `units`, with the replacement
/// character where they are no UTF-16.
pub uninterp spec fn utf16_lossy(units: Seq<u16>) -> Seq<char>;

/// Whether `s` has one character for each of `units`, of the same number.
pub open spec fn is_same_units(s: Seq<char>, units: Seq<u16>) -> bool {
    s.len() == units.len() && forall|i: int| 0 <= i < s.len() ==> #[trigger] s[i] as u32 == units[i]
}

/// Whether none of `units` is a surrogate.
pub open spec fn has_no_surrogates(units: Seq<u16>) -> bool {
    forall|i: int| 0 <= i < units.len() ==> !(0xd800 <= #[trigger] units[i] <= 0xdfff)
}

/// `String::from_utf16_lossy`. The result depends on the units alone, and has
/// a character for each of them where none is a surrogate.
#[verifier::external_body]
fn decode_wide(units: &[u16]) -> (r: String)
    ensures
        r@ == utf16_lossy(units@),
        has_no_surrogates(units@) ==> is_same_units(r@, units@),
{
    String::from_utf16_lossy(units)
}

/// The text of a wide C string.
fn wide_str(s: &[u16]) -> (r: String)
    ensures
        r@ == utf16_lossy(wide_units(s@)),
{
    let n: usize = wide_len(s);
    let units = slice_subrange(s, 0, n);
    assert(units@ =~= wide_units(s@));
    decode_wide(units)
}

/// `s`, where it is not empty.
pub open spec fn nonempty(s: Seq<char>) -> Option<Seq<char>> {
    if s.len() > 0 {
        Some(s)
    } else {
        None
    }
}

fn some_text(s: String) -> (r: Option<String>)
    ensures
        text::optional(r) == nonempty(s@),
{
    if chars_of(s.as_str()).len() > 0 {
        Some(s)
    } else {
        None
    }
}

// ---------------------------------------------------------------------------
// macOS

/// The name in a reply, without its terminating zero and no further than the
/// reply goes; `None` where it is empty or begins outside the data.
pub open spec fn name_in(reply: NameReply) -> Option<Seq<char>> {
    let at = reply.offset + reply.reference_at;
    let start = at - reply.data_at;
    if reply.offset < 0 || at > usize::MAX || start < 0 || start > reply.data@.len() {
        None
    } else {
        let rest = reply.data@.skip(start);
        let len = if reply.length == 0 {
            0
        } else {
            reply.length - 1
        };
        nonempty(
            text::utf8_lossy(
                rest.take(
                    if len < rest.len() {
                        len as int
                    } else {
                        rest.len() as int
                    },
                ),
            ),
        )
    }
}

/// The user-visible volume name ("Macintosh HD - Data", an SMB share name, …).
/// Network filesystems that cannot answer simply yield None.
pub fn volume_name(reply: &NameReply) -> (r: Option<String>)
    ensures
        text::optional(r) == name_in(*reply),
{
    if reply.offset < 0 {
        return None;
    }
    // The offset is relative to the reference itself.
    let at: u128 = reply.offset as u128 + reply.reference_at as u128;
    if at > usize::MAX as u128 || at < reply.data_at as u128 {
        return None;
    }
    let start: usize = at as usize - reply.data_at;
    if start > reply.data.len() {
        return None;
    }
    let len: u64 = if reply.length == 0 {
        0
    } else {
        reply.length as u64 - 1
    };
    let left: usize = reply.data.len() - start;
    let end: usize = if len < left as u64 {
        start + len as usize
    } else {
        reply.data.len()
    };
    let name = slice_subrange(reply.data.as_slice(), start, end);
    assert(name@ =~= reply.data@.skip(start as int).take(end - start));
    some_text(decode_lossy(name))
}

// ---------------------------------------------------------------------------
// Windows

/// `s` without the backslashes at its end.
pub open spec fn without_backslashes(s: Seq<char>) -> Seq<char>
    decreases s.len(),
{
    if s.len() > 0 && s.last() == '\\' {
        without_backslashes(s.drop_last())
    } else {
        s
    }
}

/// Whether `s` is the root of a network share.
pub open spec fn is_unc(s: Seq<char>) -> bool {
    text::has_prefix(s, seq!['\\', '\\'])
}

fn drive_of(mount: &[char]) -> (r: Vec<char>)
    ensures
        r@ == without_backslashes(mount@),
{
    let mut n: usize = mount.len();
    assert(mount@.take(n as int) =~= mount@);
    while n > 0 && mount[n - 1] == '\\'
        invariant
            n <= mount.len(),
            without_backslashes(mount@.take(n as int)) == without_backslashes(mount@),
        decreases n,
    {
        assert(mount@.take(n as int).drop_last() =~= mount@.take(n - 1));
        n -= 1;
    }
    let drive = slice_subrange(mount, 0, n);
    assert(drive@ =~= mount@.take(n as int));
    vstd::slice::slice_to_vec(drive)
}

fn unc(s: &[char]) -> (r: bool)
    ensures
        r == is_unc(s@),
{
    let prefix: [char; 2] = ['\\', '\\'];
    assert(prefix@ =~= seq!['\\', '\\']);
    starts_with(s, prefix.as_slice())
}

/// The drive letter behind which a share may lie: that of a network drive
/// which does not go by the share's own name.
pub open spec fn mapped_drive_text(root: Seq<u16>, remote: bool) -> Option<Seq<char>> {
    let drive = without_backslashes(utf16_lossy(wide_units(root)));
    if remote && !is_unc(drive) {
        Some(drive)
    } else {
        None
    }
}

/// The drive letter of which to ask for the share behind it, like `Z:`.
pub fn mapped_drive(root: &[u16], remote: bool) -> (r: Option<String>)
    ensures
        text::optional(r) == mapped_drive_text(root@, remote),
{
    let drive = drive_of(chars_of(wide_str(root).as_str()).as_slice());
    if remote && !unc(drive.as_slice()) {
        Some(string_of(drive.as_slice()))
    } else {
        None
    }
}

/// The source of a volume: `C:\` → `C:`; a UNC root keeps its
/// `\\server\share` form; mapped drive letters resolve to the share behind them.
pub open spec fn windows_source(v: WindowsVolume) -> Seq<char> {
    let drive = without_backslashes(utf16_lossy(wide_units(v.root@)));
    match (mapped_drive_text(v.root@, v.remote), v.share) {
        (Some(_), Some(share)) => match nonempty(utf16_lossy(wide_units(share@))) {
            Some(s) => s,
            None => drive,
        },
        _ => drive,
    }
}

/// The disk that a Windows volume is; `None` where its root is not ended.
pub open spec fn windows_disk(v: WindowsVolume) -> Option<DiskView> {
    if !v.root@.contains(0) {
        None
    } else {
        Some(
            DiskView {
                source: windows_source(v),
                volume: match v.info {
                    Some((label, _)) => nonempty(utf16_lossy(wide_units(label@))),
                    None => None,
                },
                mount: utf16_lossy(wide_units(v.root@)),
                file_system: match v.info {
                    Some((_, file_system)) => utf16_lossy(wide_units(file_system@)),
                    None => "unknown"@,
                },
                total: v.total,
                available: v.available,
            },
        )
    }
}

fn windows_lookup(v: &WindowsVolume) -> (r: Option<DiskInfo>)
    ensures
        disk_view(r) == windows_disk(*v),
{
    let n: usize = wide_len(v.root.as_slice());
    if n == v.root.len() {
        return None;
    }
    assert(v.root@[n as int] == 0);
    let mount = wide_str(v.root.as_slice());
    let drive = string_of(drive_of(chars_of(mount.as_str()).as_slice()).as_slice());
    let source = match (mapped_drive(v.root.as_slice(), v.remote), &v.share) {
        (Some(_), Some(share)) => match some_text(wide_str(share.as_slice())) {
            Some(s) => s,
            None => drive,
        },
        _ => drive,
    };
    let (volume, file_system) = match &v.info {
        Some((label, file_system)) => (
            some_text(wide_str(label.as_slice())),
            wide_str(file_system.as_slice()),
        ),
        None => (None, "unknown".to_owned()),
    };
    Some(
        DiskInfo {
            source,
            volume,
            mount,
            file_system,
            total: v.total,
            available: v.available,
        },
    )
}

// ---------------------------------------------------------------------------
// Lookup

/// The view of an optional disk.
pub open spec fn disk_view(r: Option<DiskInfo>) -> Option<DiskView> {
    match r {
        Some(d) => Some(d@),
        None => None,
    }
}

/// The volume hosting `path`, as the system knows it.
pub open spec fn disk_of(path: Seq<char>, facts: Facts) -> Option<DiskView> {
    match facts {
        Facts::Linux { mountinfo, stat } => match mounts::deepest(
            text::lines(mountinfo@),
            path,
        ) {
            Some(e) => {
                let fragment = if stat.fragment_size > 0 {
                    stat.fragment_size
                } else {
                    stat.block_size
                };
                Some(
                    DiskView {
                        source: e.source,
                        volume: None,
                        mount: e.mount,
                        file_system: e.fstype,
                        total: saturated(stat.blocks * fragment),
                        available: saturated(stat.available * fragment),
                    },
                )
            },
            None => None,
        },
        Facts::MacOs { fs, name } => Some(
            DiskView {
                source: text::utf8_lossy(c_bytes(fs.source@)),
                volume: match name {
                    Some(reply) => name_in(reply),
                    None => None,
                },
                mount: text::utf8_lossy(c_bytes(fs.mount@)),
                file_system: text::utf8_lossy(c_bytes(fs.file_system@)),
                total: saturated(fs.blocks * fs.block_size),
                available: saturated(fs.available * fs.block_size),
            },
        ),
        Facts::Windows(v) => windows_disk(v),
        Facts::Unknown => None,
    }
}

/// A C string is what stands ahead of its terminating zero.
pub proof fn law_c_strings_end_at_zero(s: Seq<u8>, rest: Seq<u8>)
    requires
        forall|i: int| 0 <= i < s.len() ==> #[trigger] s[i] != 0,
    ensures
        c_bytes(s + seq![0u8] + rest) == s,
        c_bytes(s) == s,
    decreases s.len(),
{
    let all = s + seq![0u8] + rest;
    if s.len() > 0 {
        let t = s.skip(1);
        assert forall|i: int| 0 <= i < t.len() implies #[trigger] t[i] != 0 by {
            assert(t[i] == s[i + 1]);
        }
        law_c_strings_end_at_zero(t, rest);
        assert(all.skip(1) =~= t + seq![0u8] + rest);
        assert(all[0] == s[0]);
        assert(seq![s[0]] + t =~= s);
    } else {
        assert(all[0] == 0);
    }
}

/// A wide C string is what stands ahead of its terminating zero.
pub proof fn law_wide_strings_end_at_zero(s: Seq<u16>, rest: Seq<u16>)
    requires
        forall|i: int| 0 <= i < s.len() ==> #[trigger] s[i] != 0,
    ensures
        wide_units(s + seq![0u16] + rest) == s,
        wide_units(s) == s,
    decreases s.len(),
{
    let all = s + seq![0u16] + rest;
    if s.len() > 0 {
        let t = s.skip(1);
        assert forall|i: int| 0 <= i < t.len() implies #[trigger] t[i] != 0 by {
            assert(t[i] == s[i + 1]);
        }
        law_wide_strings_end_at_zero(t, rest);
        assert(all.skip(1) =~= t + seq![0u16] + rest);
        assert(all[0] == s[0]);
        assert(seq![s[0]] + t =~= s);
    } else {
        assert(all[0] == 0);
    }
}

/// On Linux the volume is the deepest mount that hosts the path, with the
/// capacity that `statvfs` tells in fragments, or in blocks where it tells no
/// fragment size. Without such a mount there is none.
pub proof fn law_a_linux_volume_is_its_mount(path: Seq<char>, mountinfo: String, stat: VfsStat)
    ensures
        ({
            let r = disk_of(path, Facts::Linux { mountinfo, stat });
            let size = if stat.fragment_size > 0 {
                stat.fragment_size as nat
            } else {
                stat.block_size as nat
            };
            match mounts::deepest(text::lines(mountinfo@), path) {
                None => r is None,
                Some(e) => {
                    &&& r matches Some(d)
                    &&& d.source == e.source
                    &&& d.mount == e.mount
                    &&& d.file_system == e.fstype
                    &&& d.volume is None
                    &&& stat.blocks * size <= u64::MAX ==> d.total == stat.blocks * size
                    &&& stat.blocks * size > u64::MAX ==> d.total == u64::MAX
                    &&& stat.available * size <= u64::MAX ==> d.available == stat.available * size
                    &&& stat.available * size > u64::MAX ==> d.available == u64::MAX
                },
            }
        }),
{
    let size = if stat.fragment_size > 0 {
        stat.fragment_size as nat
    } else {
        stat.block_size as nat
    };
    assert(stat.blocks * size >= 0) by (nonlinear_arith)
        requires
            size >= 0,
    ;
    assert(stat.available * size >= 0) by (nonlinear_arith)
        requires
            size >= 0,
    ;
}

/// On macOS the volume is what `statfs` tells: the texts up to their zeros, the
/// capacity in its blocks, and the name that was found, if any.
pub proof fn law_a_macos_volume_is_what_statfs_tells(
    path: Seq<char>,
    fs: FsStat,
    name: Option<NameReply>,
    source: Seq<u8>,
    mount: Seq<u8>,
    file_system: Seq<u8>,
)
    requires
        c_bytes(fs.source@) == source,
        c_bytes(fs.mount@) == mount,
        c_bytes(fs.file_system@) == file_system,
    ensures
        ({
            let r = disk_of(path, Facts::MacOs { fs, name });
            &&& r matches Some(d)
            &&& d.source == text::utf8_lossy(source)
            &&& d.mount == text::utf8_lossy(mount)
            &&& d.file_system == text::utf8_lossy(file_system)
            &&& name is None ==> d.volume is None
            &&& name matches Some(reply) ==> d.volume == name_in(reply)
            &&& fs.blocks * fs.block_size <= u64::MAX ==> d.total == fs.blocks * fs.block_size
            &&& fs.blocks * fs.block_size > u64::MAX ==> d.total == u64::MAX
            &&& fs.available * fs.block_size <= u64::MAX ==> d.available == fs.available
                * fs.block_size
            &&& fs.available * fs.block_size > u64::MAX ==> d.available == u64::MAX
        }),
{
    assert(fs.blocks * fs.block_size >= 0) by (nonlinear_arith);
    assert(fs.available * fs.block_size >= 0) by (nonlinear_arith);
}

/// The name of a volume is read where the reply says that it lies, without its
/// terminating zero, whatever stands around it.
pub proof fn law_a_volume_name_is_read_where_it_lies(
    reply: NameReply,
    before: Seq<u8>,
    name: Seq<u8>,
    after: Seq<u8>,
)
    requires
        reply.data@ == before + name + after,
        reply.offset >= 0,
        reply.offset + reply.reference_at == reply.data_at + before.len(),
        reply.offset + reply.reference_at <= usize::MAX,
        reply.length == name.len() + 1,
    ensures
        name_in(reply) == (if text::utf8_lossy(name).len() > 0 {
            Some(text::utf8_lossy(name))
        } else {
            None
        }),
{
    let start = before.len() as int;
    let rest = reply.data@.skip(start);
    assert(rest =~= name + after);
    assert(rest.take(name.len() as int) =~= name);
}

/// A reply whose name begins ahead of the data or behind it has none.
pub proof fn law_a_name_outside_the_reply_is_none(reply: NameReply)
    requires
        reply.offset < 0 || reply.offset + reply.reference_at < reply.data_at || reply.offset
            + reply.reference_at > reply.data_at + reply.data@.len(),
    ensures
        name_in(reply) is None,
{
}

/// A drive root goes by its drive, without the backslashes behind it.
pub proof fn law_only_the_last_backslashes_go(s: Seq<char>, slashes: Seq<char>)
    requires
        s.len() > 0 ==> s.last() != '\\',
        forall|i: int| 0 <= i < slashes.len() ==> #[trigger] slashes[i] == '\\',
    ensures
        without_backslashes(s + slashes) == s,
    decreases slashes.len(),
{
    if slashes.len() == 0 {
        assert(s + slashes =~= s);
    } else {
        let rest = slashes.drop_last();
        assert forall|i: int| 0 <= i < rest.len() implies #[trigger] rest[i] == '\\' by {
            assert(rest[i] == slashes[i]);
        }
        law_only_the_last_backslashes_go(s, rest);
        assert((s + slashes).last() == slashes[slashes.len() - 1]);
        assert((s + slashes).drop_last() =~= s + rest);
    }
}

/// On Windows the volume is mounted at its root and has the capacity that the
/// system tells. Its source is the share behind a mapped network drive where
/// that is known, else the root without its last backslashes; its label, where
/// it is not empty, is its name.
pub proof fn law_a_windows_volume_is_its_root(path: Seq<char>, v: WindowsVolume)
    ensures
        ({
            let r = disk_of(path, Facts::Windows(v));
            let mount = utf16_lossy(wide_units(v.root@));
            let drive = without_backslashes(mount);
            let is_share = drive.len() >= 2 && drive[0] == '\\' && drive[1] == '\\';
            &&& r is Some <==> v.root@.contains(0)
            &&& r matches Some(d) ==> {
                &&& d.mount == mount
                &&& d.total == v.total
                &&& d.available == v.available
                &&& !v.remote || is_share || v.share is None ==> d.source == drive
                &&& v.share matches Some(share) ==> v.remote && !is_share ==> d.source == {
                    let behind = utf16_lossy(wide_units(share@));
                    if behind.len() > 0 {
                        behind
                    } else {
                        drive
                    }
                }
                &&& v.info is None ==> d.volume is None && d.file_system == "unknown"@
                &&& v.info matches Some((label, file_system)) ==> {
                    let name = utf16_lossy(wide_units(label@));
                    &&& d.file_system == utf16_lossy(wide_units(file_system@))
                    &&& name.len() > 0 ==> d.volume == Some(name)
                    &&& name.len() == 0 ==> d.volume is None
                }
            }
        }),
{
    let drive = without_backslashes(utf16_lossy(wide_units(v.root@)));
    if drive.len() >= 2 && drive[0] == '\\' && drive[1] == '\\' {
        assert(drive.take(2) =~= seq!['\\', '\\']);
    } else if is_unc(drive) {
        assert(drive.take(2)[0] == '\\' && drive.take(2)[1] == '\\');
    }
}

/// Where the system tells nothing, no volume is known.
pub proof fn law_an_unknown_volume_is_none(path: Seq<char>)
    ensures
        disk_of(path, Facts::Unknown) is None,
{
}

/// Describes the volume hosting `path` (which must be canonicalized), of which
/// the system says `facts`.
pub fn lookup(path: &str, facts: &Facts) -> (r: Option<DiskInfo>)
    ensures
        disk_view(r) == disk_of(path@, *facts),
{
    match facts {
        Facts::Linux { mountinfo, stat } => {
            match deepest_mount(mountinfo.as_str(), path) {
                Some((source, mount, file_system)) => {
                    let fragment: u64 = if stat.fragment_size > 0 {
                        stat.fragment_size
                    } else {
                        stat.block_size
                    };
                    Some(
                        DiskInfo {
                            source,
                            volume: None,
                            mount,
                            file_system,
                            total: saturating_product(stat.blocks, fragment),
                            available: saturating_product(stat.available, fragment),
                        },
                    )
                },
                None => None,
            }
        },
        Facts::MacOs { fs, name } => {
            let volume = match name {
                Some(reply) => volume_name(reply),
                None => None,
            };
            Some(
                DiskInfo {
                    source: c_text(fs.source.as_slice()),
                    volume,
                    mount: c_text(fs.mount.as_slice()),
                    file_system: c_text(fs.file_system.as_slice()),
                    total: saturating_product(fs.blocks, fs.block_size as u64),
                    available: saturating_product(fs.available, fs.block_size as u64),
                },
            )
        },
        Facts::Windows(v) => windows_lookup(v),
        Facts::Unknown => None,
    }
}

/// A share is looked for behind a network drive that goes by a letter, and by
/// that letter.
pub proof fn law_shares_hide_behind_drive_letters(root: Seq<u16>, remote: bool)
    ensures
        ({
            let drive = without_backslashes(utf16_lossy(wide_units(root)));
            let is_share = drive.len() >= 2 && drive[0] == '\\' && drive[1] == '\\';
            &&& remote && !is_share ==> mapped_drive_text(root, remote) == Some(drive)
            &&& !remote || is_share ==> mapped_drive_text(root, remote) is None
        }),
{
    let drive = without_backslashes(utf16_lossy(wide_units(root)));
    if drive.len() >= 2 && drive[0] == '\\' && drive[1] == '\\' {
        assert(drive.take(2) =~= seq!['\\', '\\']);
    } else if is_unc(drive) {
        assert(drive.take(2)[0] == '\\' && drive.take(2)[1] == '\\');
    }
}

} // verus!
