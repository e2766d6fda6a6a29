//! Character-level text functions: searching, splitting, trimming, case
//! folding and decimal numbers. Their contracts speak of a text as the
//! sequence of its characters.

use vstd::prelude::*;
use vstd::slice::slice_subrange;

verus! {

/// `String::push` appends one character to the end of the string and changes
/// nothing else.
pub assume_specification[ String::push ](s: &mut String, c: char)
    ensures
        final(s)@ == old(s)@.push(c),
;

/// `s` as the `Debug` form of a string shows it: in double quotes, with escapes.
pub uninterp spec fn quoted(s: Seq<char>) -> Seq<char>;

/// `format!("{:?}", s)`: the `Debug` form of a string, which depends on its
/// characters alone.
#[verifier::external_body]
pub(crate) fn quote(s: &str) -> (r: String)
    ensures
        r@ == quoted(s@),
{
    format!("{:?}", s)
}

/// `String::from_utf8_lossy`: the text of `bytes`, with the replacement
/// character where they are no UTF-8.
pub uninterp spec fn utf8_lossy(bytes: Seq<u8>) -> Seq<char>;

/// `String::from_utf8_lossy`. The result depends on the bytes alone, and is
/// the text that they encode where they are valid UTF-8.
#[verifier::external_body]
pub(crate) fn decode_lossy(bytes: &[u8]) -> (r: String)
    ensures
        r@ == utf8_lossy(bytes@),
        vstd::utf8::valid_utf8(bytes@) ==> vstd::utf8::encode_utf8(r@) == bytes@,
{
    String::from_utf8_lossy(bytes).into_owned()
}

// ---------------------------------------------------------------------------
// Conversions

/// The characters of `s`, in order.
pub fn chars_of(s: &str) -> (v: Vec<char>)
    ensures
        v@ == s@,
{
    let mut v: Vec<char> = Vec::new();
    for c in it: s.chars()
        invariant
            v@ == s@.take(it.index()),
            it.seq() == s@,
    {
        v.push(c);
        assert(s@.take(it.index() + 1) =~= s@.take(it.index()).push(c));
    }
    assert(s@.take(s@.len() as int) =~= s@);
    v
}

/// The text whose characters are those of `v`.
pub fn string_of(v: &[char]) -> (s: String)
    ensures
        s@ == v@,
{
    let mut s = String::new();
    let mut i: usize = 0;
    while i < v.len()
        invariant
            i <= v.len(),
            s@ == v@.take(i as int),
        decreases v.len() - i,
    {
        s.push(v[i]);
        assert(v@.take(i as int).push(v@[i as int]) =~= v@.take(i as int + 1));
        i += 1;
    }
    assert(v@.take(v@.len() as int) =~= v@);
    s
}

/// Whether two texts have the same characters.
pub fn same_text(a: &[char], b: &[char]) -> (r: bool)
    ensures
        r == (a@ == b@),
{
    if a.len() != b.len() {
        return false;
    }
    let mut i: usize = 0;
    while i < a.len()
        invariant
            i <= a.len() == b.len(),
            forall|j: int| 0 <= j < i ==> a@[j] == b@[j],
        decreases a.len() - i,
    {
        if a[i] != b[i] {
            return false;
        }
        i += 1;
    }
    assert(a@ =~= b@);
    true
}

/// Whether two texts have the same characters.
pub fn text_is(a: &str, b: &str) -> (r: bool)
    ensures
        r == (a@ == b@),
{
    same_text(chars_of(a).as_slice(), chars_of(b).as_slice())
}

/// The view of an optional text.
pub open spec fn optional(s: Option<String>) -> Option<Seq<char>> {
    match s {
        Some(s) => Some(s@),
        None => None,
    }
}

/// The views of a list of texts.
pub open spec fn texts(v: Seq<String>) -> Seq<Seq<char>> {
    Seq::new(v.len(), |i: int| v[i]@)
}

// ---------------------------------------------------------------------------
// Searching

/// Index of the first `c` in `s` at or after `i`, if there is one.
pub open spec fn find_from(s: Seq<char>, c: char, i: int) -> Option<int>
    decreases s.len() - i,
{
    if i < 0 || i >= s.len() {
        None
    } else if s[i] == c {
        Some(i)
    } else {
        find_from(s, c, i + 1)
    }
}

/// Index of the first `c` in `s`, if there is one.
pub open spec fn find(s: Seq<char>, c: char) -> Option<int> {
    find_from(s, c, 0)
}

/// What [`find_from`] finds is the first occurrence.
pub proof fn lemma_find_from(s: Seq<char>, c: char, i: int)
    requires
        0 <= i <= s.len(),
    ensures
        match find_from(s, c, i) {
            Some(k) => i <= k < s.len() && s[k] == c && (forall|j: int|
                i <= j < k ==> s[j] != c),
            None => forall|j: int| i <= j < s.len() ==> s[j] != c,
        },
    decreases s.len() - i,
{
    if i < s.len() && s[i] != c {
        lemma_find_from(s, c, i + 1);
    }
}

/// An index with `c` and none before it is what [`find_from`] finds.
pub proof fn lemma_find_is(s: Seq<char>, c: char, i: int, k: int)
    requires
        0 <= i <= k < s.len(),
        s[k] == c,
        forall|j: int| i <= j < k ==> s[j] != c,
    ensures
        find_from(s, c, i) == Some(k),
    decreases k - i,
{
    if i < k {
        lemma_find_is(s, c, i + 1, k);
    }
}

/// First index of `c` at or after `from`.
pub fn find_char(s: &[char], c: char, from: usize) -> (r: Option<usize>)
    requires
        from <= s.len(),
    ensures
        match r {
            Some(k) => find_from(s@, c, from as int) == Some(k as int),
            None => find_from(s@, c, from as int) is None,
        },
        r matches Some(k) ==> from <= k < s.len() && s@[k as int] == c,
{
    let mut i: usize = from;
    while i < s.len()
        invariant
            from <= i <= s.len(),
            find_from(s@, c, from as int) == find_from(s@, c, i as int),
        decreases s.len() - i,
    {
        if s[i] == c {
            return Some(i);
        }
        i += 1;
    }
    None
}

/// Whether `s` begins with `prefix`.
pub open spec fn has_prefix(s: Seq<char>, prefix: Seq<char>) -> bool {
    prefix.len() <= s.len() && s.take(prefix.len() as int) == prefix
}

/// Whether `s` begins with `prefix`.
pub fn starts_with(s: &[char], prefix: &[char]) -> (r: bool)
    ensures
        r == has_prefix(s@, prefix@),
{
    if prefix.len() > s.len() {
        return false;
    }
    let r = same_text(slice_subrange(s, 0, prefix.len()), prefix);
    assert(s@.subrange(0, prefix@.len() as int) =~= s@.take(prefix@.len() as int));
    r
}

// ---------------------------------------------------------------------------
// White space and case

/// The characters with the Unicode property `White_Space`.
pub open spec fn is_white_space(c: char) -> bool {
    let n = c as u32;
    ||| 0x9 <= n <= 0xd
    ||| n == 0x20
    ||| n == 0x85
    ||| n == 0xa0
    ||| n == 0x1680
    ||| 0x2000 <= n <= 0x200a
    ||| n == 0x2028
    ||| n == 0x2029
    ||| n == 0x202f
    ||| n == 0x205f
    ||| n == 0x3000
}

/// Whether `c` has the Unicode property `White_Space`.
pub fn white_space(c: char) -> (r: bool)
    ensures
        r == is_white_space(c),
{
    let n: u32 = c as u32;
    (0x9 <= n && n <= 0xd) || n == 0x20 || n == 0x85 || n == 0xa0 || n == 0x1680 || (0x2000 <= n
        && n <= 0x200a) || n == 0x2028 || n == 0x2029 || n == 0x202f || n == 0x205f || n == 0x3000
}

/// `s` without the white space at its beginning.
pub open spec fn trim_start(s: Seq<char>) -> Seq<char>
    decreases s.len(),
{
    if s.len() > 0 && is_white_space(s[0]) {
        trim_start(s.skip(1))
    } else {
        s
    }
}

/// `s` without the white space at its end.
pub open spec fn trim_end(s: Seq<char>) -> Seq<char>
    decreases s.len(),
{
    if s.len() > 0 && is_white_space(s.last()) {
        trim_end(s.drop_last())
    } else {
        s
    }
}

/// `s` without the white space at either end.
pub open spec fn trim(s: Seq<char>) -> Seq<char> {
    trim_end(trim_start(s))
}

/// `s` without the white space at either end.
pub fn trimmed(s: &[char]) -> (r: &[char])
    ensures
        r@ == trim(s@),
{
    let mut i: usize = 0;
    assert(s@.skip(0) =~= s@);
    while i < s.len() && white_space(s[i])
        invariant
            i <= s.len(),
            trim_start(s@) == trim_start(s@.skip(i as int)),
        decreases s.len() - i,
    {
        assert(s@.skip(i as int).skip(1) =~= s@.skip(i as int + 1));
        i += 1;
    }
    assert(trim_start(s@) == s@.skip(i as int));
    let mut j: usize = s.len();
    assert(s@.skip(i as int) =~= s@.subrange(i as int, j as int));
    while i < j && white_space(s[j - 1])
        invariant
            i <= j <= s.len(),
            trim_start(s@) == s@.skip(i as int),
            trim(s@) == trim_end(s@.subrange(i as int, j as int)),
        decreases j,
    {
        assert(s@.subrange(i as int, j as int).drop_last() =~= s@.subrange(i as int, j as int - 1));
        j -= 1;
    }
    slice_subrange(s, i, j)
}

proof fn lemma_trim_start_is_suffix(s: Seq<char>) -> (i: int)
    ensures
        0 <= i <= s.len(),
        trim_start(s) == s.skip(i),
        i < s.len() ==> !is_white_space(s[i]),
        forall|j: int| 0 <= j < i ==> is_white_space(s[j]),
    decreases s.len(),
{
    if s.len() > 0 && is_white_space(s[0]) {
        let k = lemma_trim_start_is_suffix(s.skip(1));
        assert(s.skip(1).skip(k) =~= s.skip(k + 1));
        assert forall|j: int| 0 <= j < k + 1 implies is_white_space(s[j]) by {
            if j > 0 {
                assert(s[j] == s.skip(1)[j - 1]);
            }
        }
        k + 1
    } else {
        assert(s.skip(0) =~= s);
        0
    }
}

proof fn lemma_trim_end_is_prefix(s: Seq<char>) -> (i: int)
    ensures
        0 <= i <= s.len(),
        trim_end(s) == s.take(i),
        i > 0 ==> !is_white_space(s[i - 1]),
        forall|j: int| i <= j < s.len() ==> is_white_space(s[j]),
    decreases s.len(),
{
    if s.len() > 0 && is_white_space(s.last()) {
        let k = lemma_trim_end_is_prefix(s.drop_last());
        assert(s.drop_last().take(k) =~= s.take(k));
        assert forall|j: int| k <= j < s.len() implies is_white_space(s[j]) by {
            if j < s.len() - 1 {
                assert(s[j] == s.drop_last()[j]);
            }
        }
        k
    } else {
        assert(s.take(s.len() as int) =~= s);
        s.len() as int
    }
}

/// Trimming a trimmed text changes nothing.
pub proof fn lemma_trim_idempotent(s: Seq<char>)
    ensures
        trim(trim(s)) == trim(s),
{
    let i = lemma_trim_start_is_suffix(s);
    let a = trim_start(s);
    let k = lemma_trim_end_is_prefix(a);
    let t = trim(s);
    if t.len() > 0 {
        assert(t[0] == s[i]);
        assert(t.last() == a[k - 1]);
    }
}

/// Trimming and folding to upper case can be done in either order.
pub proof fn lemma_trim_upper(s: Seq<char>)
    ensures
        trim(upper(s)) == upper(trim(s)),
{
    lemma_trim_start_upper(s);
    lemma_trim_end_upper(trim_start(s));
}

proof fn lemma_trim_start_upper(s: Seq<char>)
    ensures
        trim_start(upper(s)) == upper(trim_start(s)),
    decreases s.len(),
{
    if s.len() > 0 {
        assert(upper(s)[0] == upper_char(s[0]));
        assert(is_white_space(upper_char(s[0])) == is_white_space(s[0]));
        if is_white_space(s[0]) {
            lemma_trim_start_upper(s.skip(1));
            assert(upper(s).skip(1) =~= upper(s.skip(1)));
        }
    }
}

proof fn lemma_trim_end_upper(s: Seq<char>)
    ensures
        trim_end(upper(s)) == upper(trim_end(s)),
    decreases s.len(),
{
    if s.len() > 0 {
        assert(upper(s).last() == upper_char(s.last()));
        assert(is_white_space(upper_char(s.last())) == is_white_space(s.last()));
        if is_white_space(s.last()) {
            lemma_trim_end_upper(s.drop_last());
            assert(upper(s).drop_last() =~= upper(s.drop_last()));
        }
    }
}

/// The ASCII capital of `c`; any other character is its own.
pub open spec fn upper_char(c: char) -> char {
    if 'a' <= c && c <= 'z' {
        ((c as u8) - 32) as char
    } else {
        c
    }
}

/// `s` with each ASCII letter in upper case.
pub open spec fn upper(s: Seq<char>) -> Seq<char> {
    Seq::new(s.len(), |i: int| upper_char(s[i]))
}

/// `s` with each ASCII letter in upper case.
pub fn to_upper(s: &[char]) -> (r: Vec<char>)
    ensures
        r@ == upper(s@),
{
    let mut r: Vec<char> = Vec::new();
    let mut i: usize = 0;
    while i < s.len()
        invariant
            i <= s.len(),
            r@ == upper(s@).take(i as int),
        decreases s.len() - i,
    {
        let c = s[i];
        let u = if 'a' <= c && c <= 'z' {
            ((c as u8) - 32) as char
        } else {
            c
        };
        r.push(u);
        assert(upper(s@).take(i as int + 1) =~= upper(s@).take(i as int).push(upper_char(c)));
        i += 1;
    }
    assert(upper(s@).take(i as int) =~= upper(s@));
    r
}

/// Number of UTF-16 code units that `s` takes.
pub open spec fn utf16_len(s: Seq<char>) -> nat
    decreases s.len(),
{
    if s.len() == 0 {
        0
    } else {
        utf16_len(s.drop_last()) + if s.last() as u32 >= 0x10000 {
            2nat
        } else {
            1nat
        }
    }
}

/// Whether `s` takes fewer than `limit` UTF-16 code units.
pub fn utf16_shorter(s: &[char], limit: usize) -> (r: bool)
    requires
        limit < usize::MAX - 2,
    ensures
        r == (utf16_len(s@) < limit),
{
    let mut n: usize = 0;
    let mut i: usize = 0;
    assert(s@.take(0) =~= Seq::<char>::empty());
    while i < s.len()
        invariant
            limit < usize::MAX - 2,
            i <= s.len(),
            n == utf16_len(s@.take(i as int)),
            n <= limit + 1,
        decreases s.len() - i,
    {
        proof {
            lemma_utf16_len_prefix(s@, i as int);
            assert(s@.take(i as int + 1).drop_last() =~= s@.take(i as int));
        }
        if n >= limit {
            return false;
        }
        if s[i] as u32 >= 0x10000 {
            n += 2;
        } else {
            n += 1;
        }
        i += 1;
    }
    assert(s@.take(i as int) =~= s@);
    n < limit
}

proof fn lemma_utf16_len_prefix(s: Seq<char>, i: int)
    requires
        0 <= i <= s.len(),
    ensures
        utf16_len(s.take(i)) <= utf16_len(s),
    decreases s.len() - i,
{
    if i < s.len() {
        lemma_utf16_len_prefix(s, i + 1);
        assert(s.take(i + 1).drop_last() =~= s.take(i));
    } else {
        assert(s.take(i) =~= s);
    }
}

// ---------------------------------------------------------------------------
// Decimal numbers

/// The ASCII decimal digits.
pub open spec fn is_digit(c: char) -> bool {
    '0' <= c && c <= '9'
}

/// What a digit stands for.
pub open spec fn digit_value(c: char) -> nat {
    (c as u32 - '0' as u32) as nat
}

/// The digit that stands for `d`.
pub open spec fn digit_char(d: nat) -> char {
    (48 + d) as char
}

/// `n` in decimal, without leading zeros.
pub open spec fn decimal(n: nat) -> Seq<char>
    decreases n,
{
    if n < 10 {
        seq![digit_char(n)]
    } else {
        decimal(n / 10).push(digit_char(n % 10))
    }
}

/// Appends `n` in decimal to `out`.
pub fn push_decimal(out: &mut String, n: u128)
    ensures
        final(out)@ == old(out)@ + decimal(n as nat),
    decreases n,
{
    if n >= 10 {
        push_decimal(out, n / 10);
    }
    let d: u8 = (n % 10) as u8;
    out.push((48 + d) as char);
    assert(out@ =~= old(out)@ + decimal(n as nat));
}

/// `n` in decimal.
pub fn decimal_string(n: u128) -> (r: String)
    ensures
        r@ == decimal(n as nat),
{
    let mut out = String::new();
    push_decimal(&mut out, n);
    assert(Seq::<char>::empty() + decimal(n as nat) =~= decimal(n as nat));
    out
}

/// Whether `s` is one or more digits.
pub open spec fn all_digits(s: Seq<char>) -> bool {
    s.len() > 0 && forall|i: int| 0 <= i < s.len() ==> is_digit(#[trigger] s[i])
}

/// The number that a sequence of digits stands for.
pub open spec fn number(s: Seq<char>) -> nat
    decreases s.len(),
{
    if s.len() == 0 {
        0
    } else {
        number(s.drop_last()) * 10 + digit_value(s.last())
    }
}

/// `s` without one leading plus sign.
pub open spec fn unsigned_digits(s: Seq<char>) -> Seq<char> {
    if s.len() > 0 && s[0] == '+' {
        s.skip(1)
    } else {
        s
    }
}

/// How an unsigned integer type with the greatest value `max` reads `s`: an
/// optional plus sign and one or more decimal digits, nothing else, for a
/// number that the type can hold.
pub open spec fn unsigned(s: Seq<char>, max: nat) -> Option<nat> {
    let d = unsigned_digits(s);
    if all_digits(d) && number(d) <= max {
        Some(number(d))
    } else {
        None
    }
}

/// A longer run of digits stands for a number at least as great.
pub proof fn lemma_number_prefix(s: Seq<char>, i: int)
    requires
        0 <= i <= s.len(),
        forall|j: int| 0 <= j < s.len() ==> is_digit(#[trigger] s[j]),
    ensures
        number(s.take(i)) <= number(s),
    decreases s.len() - i,
{
    if i < s.len() {
        lemma_number_prefix(s, i + 1);
        assert(s.take(i + 1).drop_last() =~= s.take(i));
    } else {
        assert(s.take(i) =~= s);
    }
}

/// Reads an unsigned integer no greater than `max`.
pub fn parse_unsigned(s: &[char], max: u64) -> (r: Option<u64>)
    ensures
        match r {
            Some(n) => unsigned(s@, max as nat) == Some(n as nat),
            None => unsigned(s@, max as nat) is None,
        },
{
    let from: usize = if s.len() > 0 && s[0] == '+' {
        1
    } else {
        0
    };
    let d = slice_subrange(s, from, s.len());
    proof {
        assert(d@ =~= unsigned_digits(s@));
    }
    if d.len() == 0 {
        return None;
    }
    let mut n: u64 = 0;
    let mut i: usize = 0;
    assert(d@.take(0) =~= Seq::<char>::empty());
    while i < d.len()
        invariant
            i <= d.len(),
            d@ == unsigned_digits(s@),
            n == number(d@.take(i as int)),
            n <= max,
            forall|j: int| 0 <= j < i ==> is_digit(#[trigger] d@[j]),
        decreases d.len() - i,
    {
        let c = d[i];
        if !('0' <= c && c <= '9') {
            assert(!is_digit(d@[i as int]));
            return None;
        }
        let v: u64 = (c as u32 - '0' as u32) as u64;
        assert(d@.take(i as int + 1).drop_last() =~= d@.take(i as int));
        assert(number(d@.take(i as int + 1)) == n * 10 + v);
        let wide: u128 = n as u128 * 10 + v as u128;
        if wide > max as u128 {
            proof {
                if all_digits(d@) {
                    lemma_number_prefix(d@, i as int + 1);
                }
            }
            return None;
        }
        n = wide as u64;
        i += 1;
    }
    assert(d@.take(i as int) =~= d@);
    Some(n)
}

/// The decimal form of a number reads back as that number.
pub proof fn lemma_decimal(n: nat)
    ensures
        all_digits(decimal(n)),
        number(decimal(n)) == n,
        unsigned_digits(decimal(n)) == decimal(n),
    decreases n,
{
    if n < 10 {
        let s = decimal(n);
        assert(s.drop_last() =~= Seq::<char>::empty());
        assert(number(s.drop_last()) == 0);
    } else {
        lemma_decimal(n / 10);
        let s = decimal(n);
        assert(s.drop_last() =~= decimal(n / 10));
        assert(is_digit(s.last()));
        assert forall|i: int| 0 <= i < s.len() implies is_digit(#[trigger] s[i]) by {
            if i < s.len() - 1 {
                assert(s[i] == decimal(n / 10)[i]);
            }
        }
        assert(s[0] == decimal(n / 10)[0]);
    }
    assert(is_digit(decimal(n)[0]));
}

/// A character beyond the basic plane takes two units of UTF-16, any other one.
pub proof fn law_wide_characters_take_two_units(s: Seq<char>, c: char)
    ensures
        utf16_len(Seq::empty()) == 0,
        utf16_len(s.push(c)) == utf16_len(s) + if c as u32 > 0xffff {
            2nat
        } else {
            1nat
        },
{
    assert(s.push(c).drop_last() =~= s);
}

/// A number is written in digits that stand for it, without leading zeros.
pub proof fn law_decimals_stand_for_their_number(n: nat)
    ensures
        all_digits(decimal(n)),
        number(decimal(n)) == n,
        n > 0 ==> decimal(n)[0] != '0',
        n < 10 ==> decimal(n).len() == 1,
    decreases n,
{
    lemma_decimal(n);
    if n >= 10 {
        law_decimals_stand_for_their_number(n / 10);
        lemma_decimal(n / 10);
        assert(decimal(n)[0] == decimal(n / 10)[0]);
    }
}

/// Digits stand for a number by place: one more digit makes it ten times as
/// much, plus the digit.
pub proof fn law_digits_count_by_place(s: Seq<char>, c: char)
    ensures
        number(s.push(c)) == number(s) * 10 + (c as u32 - '0' as u32) as nat,
        number(Seq::<char>::empty()) == 0,
{
    assert(s.push(c).drop_last() =~= s);
}

/// Capitals stand for their letters, and every other character for itself.
pub proof fn law_only_letters_change_case(c: char)
    ensures
        'a' <= c && c <= 'z' ==> upper_char(c) as u32 == c as u32 - 32,
        !('a' <= c && c <= 'z') ==> upper_char(c) == c,
{
}

/// What is trimmed begins and ends with no white space, and is what stands
/// between white space in the text that it is of.
pub proof fn law_trimming_takes_white_space_only(before: Seq<char>, s: Seq<char>, after: Seq<char>)
    requires
        forall|i: int| 0 <= i < before.len() ==> is_white_space(#[trigger] before[i]),
        forall|i: int| 0 <= i < after.len() ==> is_white_space(#[trigger] after[i]),
        s.len() > 0 ==> !is_white_space(s[0]) && !is_white_space(s.last()),
    ensures
        trim(before + s + after) == s,
{
    lemma_trim_start_skips(before, s + after);
    assert(before + s + after =~= before + (s + after));
    if s.len() > 0 {
        assert((s + after)[0] == s[0]);
        lemma_trim_end_drops(s, after);
    } else {
        lemma_trim_start_skips(after, Seq::empty());
        assert(after + Seq::<char>::empty() =~= after);
        assert(s + after =~= after);
        assert(trim_end(Seq::<char>::empty()) =~= s);
    }
}

proof fn lemma_trim_start_skips(before: Seq<char>, s: Seq<char>)
    requires
        forall|i: int| 0 <= i < before.len() ==> is_white_space(#[trigger] before[i]),
    ensures
        trim_start(before + s) == trim_start(s),
    decreases before.len(),
{
    if before.len() == 0 {
        assert(before + s =~= s);
    } else {
        assert((before + s)[0] == before[0]);
        let rest = before.skip(1);
        assert((before + s).skip(1) =~= rest + s);
        assert forall|i: int| 0 <= i < rest.len() implies is_white_space(#[trigger] rest[i]) by {
            assert(rest[i] == before[i + 1]);
        }
        lemma_trim_start_skips(rest, s);
    }
}

proof fn lemma_trim_end_drops(s: Seq<char>, after: Seq<char>)
    requires
        forall|i: int| 0 <= i < after.len() ==> is_white_space(#[trigger] after[i]),
        s.len() > 0,
        !is_white_space(s.last()),
    ensures
        trim_end(s + after) == s,
    decreases after.len(),
{
    if after.len() == 0 {
        assert(s + after =~= s);
    } else {
        assert((s + after).last() == after[after.len() - 1]);
        let rest = after.drop_last();
        assert((s + after).drop_last() =~= s + rest);
        assert forall|i: int| 0 <= i < rest.len() implies is_white_space(#[trigger] rest[i]) by {
            assert(rest[i] == after[i]);
        }
        lemma_trim_end_drops(s, rest);
    }
}

// ---------------------------------------------------------------------------
// Splitting

/// The views of a list of character lists.
pub open spec fn pieces(v: Seq<Vec<char>>) -> Seq<Seq<char>> {
    Seq::new(v.len(), |i: int| v[i]@)
}

/// The parts of `s` from `i` on, as `sep` separates them.
pub open spec fn split_from(s: Seq<char>, sep: char, i: int) -> Seq<Seq<char>>
    decreases s.len() - i,
    when 0 <= i <= s.len()
{
    proof {
        lemma_find_from(s, sep, i);
    }
    match find_from(s, sep, i) {
        Some(k) => seq![s.subrange(i, k)] + split_from(s, sep, k + 1),
        None => seq![s.skip(i)],
    }
}

/// The parts of `s`, as `sep` separates them: one more than `s` has `sep`.
pub open spec fn split(s: Seq<char>, sep: char) -> Seq<Seq<char>> {
    split_from(s, sep, 0)
}

/// There is always a part.
pub proof fn lemma_split_nonempty(s: Seq<char>, sep: char, i: int)
    requires
        0 <= i <= s.len(),
    ensures
        split_from(s, sep, i).len() > 0,
{
    lemma_find_from(s, sep, i);
}

/// `items` one after the other, with `sep` between them.
pub open spec fn join(items: Seq<Seq<char>>, sep: char) -> Seq<char>
    decreases items.len(),
{
    if items.len() == 0 {
        Seq::empty()
    } else if items.len() == 1 {
        items[0]
    } else {
        items[0] + seq![sep] + join(items.skip(1), sep)
    }
}

/// Splitting gives back what was joined, whatever the items are, as long as
/// none of them holds the separator.
pub proof fn law_splitting_undoes_joining(items: Seq<Seq<char>>, sep: char)
    requires
        items.len() > 0,
        forall|i: int| 0 <= i < items.len() ==> !(#[trigger] items[i]).contains(sep),
    ensures
        split(join(items, sep), sep) == items,
{
    lemma_split_behind(Seq::empty(), items, sep);
    assert(Seq::<char>::empty() + join(items, sep) =~= join(items, sep));
}

/// The same, behind any other text.
proof fn lemma_split_behind(before: Seq<char>, items: Seq<Seq<char>>, sep: char)
    requires
        items.len() > 0,
        forall|i: int| 0 <= i < items.len() ==> !(#[trigger] items[i]).contains(sep),
    ensures
        split_from(before + join(items, sep), sep, before.len() as int) == items,
    decreases items.len(),
{
    let s = before + join(items, sep);
    let n = before.len() as int;
    let k = n + items[0].len();
    assert forall|j: int| n <= j < k implies s[j] != sep by {
        assert(s[j] == items[0][j - n]);
        assert(!items[0].contains(sep));
    }
    if items.len() == 1 {
        lemma_find_from(s, sep, n);
        assert(s.skip(n) =~= items[0]);
        assert(split_from(s, sep, n) =~= items);
    } else {
        let rest = items.skip(1);
        let next = before + items[0] + seq![sep];
        assert(s =~= next + join(rest, sep));
        assert(s[k] == sep);
        lemma_find_is(s, sep, n, k);
        assert forall|i: int| 0 <= i < rest.len() implies !(#[trigger] rest[i]).contains(sep) by {
            assert(rest[i] == items[i + 1]);
        }
        lemma_split_behind(next, rest, sep);
        assert(s.subrange(n, k) =~= items[0]);
        assert(split_from(s, sep, n) =~= seq![items[0]] + rest);
        assert(seq![items[0]] + rest =~= items);
    }
}

/// Splits `s` at each `sep`.
pub fn split_on(s: &[char], sep: char) -> (r: Vec<Vec<char>>)
    ensures
        pieces(r@) == split(s@, sep),
        r.len() > 0,
{
    let mut r: Vec<Vec<char>> = Vec::new();
    let mut i: usize = 0;
    assert(pieces(r@) + split_from(s@, sep, 0) =~= split(s@, sep));
    loop
        invariant
            i <= s.len(),
            pieces(r@) + split_from(s@, sep, i as int) == split(s@, sep),
        decreases s.len() - i,
    {
        let ghost before = pieces(r@);
        match find_char(s, sep, i) {
            Some(k) => {
                let part = vstd::slice::slice_to_vec(slice_subrange(s, i, k));
                r.push(part);
                proof {
                    assert(pieces(r@) =~= before.push(s@.subrange(i as int, k as int)));
                    assert(pieces(r@) + split_from(s@, sep, k + 1) =~= before + (seq![
                        s@.subrange(i as int, k as int),
                    ] + split_from(s@, sep, k + 1)));
                }
                i = k + 1;
            },
            None => {
                let part = vstd::slice::slice_to_vec(slice_subrange(s, i, s.len()));
                r.push(part);
                proof {
                    assert(part@ =~= s@.skip(i as int));
                    assert(pieces(r@) =~= before + seq![s@.skip(i as int)]);
                }
                return r;
            },
        }
    }
}

/// `s` without one carriage return at its end.
pub open spec fn strip_return(s: Seq<char>) -> Seq<char> {
    if s.len() > 0 && s.last() == '\r' {
        s.drop_last()
    } else {
        s
    }
}

/// The lines of `s`: its parts as line feeds separate them, each without the
/// carriage return before its line feed. Nothing after the last line feed is
/// no line.
pub open spec fn lines(s: Seq<char>) -> Seq<Seq<char>> {
    let parts = split(s, '\n');
    let ended = Seq::new((parts.len() - 1) as nat, |i: int| strip_return(parts[i]));
    if parts.last().len() == 0 {
        ended
    } else {
        ended.push(parts.last())
    }
}

/// The lines of `s`.
pub fn lines_of(s: &[char]) -> (r: Vec<Vec<char>>)
    ensures
        pieces(r@) == lines(s@),
{
    let mut parts = split_on(s, '\n');
    let ghost all = pieces(parts@);
    let n: usize = parts.len();
    let mut r: Vec<Vec<char>> = Vec::new();
    let mut i: usize = 0;
    let ghost ended = Seq::new((all.len() - 1) as nat, |i: int| strip_return(all[i]));
    while i + 1 < n
        invariant
            n == parts.len() == all.len(),
            n > 0,
            i <= n - 1,
            all == pieces(parts@),
            ended == Seq::new((all.len() - 1) as nat, |i: int| strip_return(all[i])),
            pieces(r@) == ended.take(i as int),
        decreases n - i,
    {
        let part: &Vec<char> = &parts[i];
        assert(part@ == all[i as int]);
        let ghost before = r@;
        let end: usize = if part.len() > 0 && part[part.len() - 1] == '\r' {
            part.len() - 1
        } else {
            part.len()
        };
        let line = vstd::slice::slice_to_vec(slice_subrange(part.as_slice(), 0, end));
        r.push(line);
        proof {
            assert(line@ =~= strip_return(all[i as int]));
            assert(pieces(r@) =~= pieces(before).push(line@));
            assert(ended.take(i as int + 1) =~= ended.take(i as int).push(ended[i as int]));
        }
        i += 1;
    }
    assert(ended.take(i as int) =~= ended);
    let ghost before = r@;
    match parts.pop() {
        Some(last) => {
            assert(last@ == all.last());
            if last.len() > 0 {
                r.push(last);
                assert(pieces(r@) =~= pieces(before).push(last@));
            }
        },
        None => {},
    }
    r
}

/// One more item stands behind one more separator.
proof fn lemma_join_push(items: Seq<Seq<char>>, last: Seq<char>, sep: char)
    requires
        items.len() > 0,
    ensures
        join(items.push(last), sep) == join(items, sep) + seq![sep] + last,
    decreases items.len(),
{
    let all = items.push(last);
    if items.len() == 1 {
        assert(all.skip(1) =~= seq![last]);
        assert(join(all.skip(1), sep) == last);
    } else {
        lemma_join_push(items.skip(1), last, sep);
        assert(all.skip(1) =~= items.skip(1).push(last));
        assert(join(all, sep) =~= join(items, sep) + seq![sep] + last);
    }
}

/// Lines that are ended by line feeds, with or without a carriage return before
/// them, are read back, each as it is. The last needs no end unless it is
/// empty.
pub proof fn law_lines_are_read_back(items: Seq<Seq<char>>, ends: Seq<bool>, last: Seq<char>)
    requires
        items.len() > 0,
        ends.len() == items.len(),
        forall|i: int|
            0 <= i < items.len() ==> !(#[trigger] items[i]).contains('\n') && !(items[i].len() > 0
                && items[i].last() == '\r'),
        !last.contains('\n'),
    ensures
        ({
            let ended = Seq::new(
                items.len(),
                |i: int|
                    if ends[i] {
                        items[i].push('\r')
                    } else {
                        items[i]
                    },
            );
            let s = join(ended, '\n') + seq!['\n'] + last;
            lines(s) == if last.len() == 0 {
                items
            } else {
                items.push(last)
            }
        }),
{
    let ended = Seq::new(
        items.len(),
        |i: int|
            if ends[i] {
                items[i].push('\r')
            } else {
                items[i]
            },
    );
    let all = ended.push(last);
    lemma_join_push(ended, last, '\n');
    assert forall|i: int| 0 <= i < all.len() implies !(#[trigger] all[i]).contains('\n') by {
        if i < items.len() {
            assert(!items[i].contains('\n'));
            assert forall|k: int| 0 <= k < all[i].len() implies all[i][k] != '\n' by {
                if k < items[i].len() {
                    assert(all[i][k] == items[i][k]);
                }
            }
        }
    }
    law_splitting_undoes_joining(all, '\n');
    let parts = Seq::new((all.len() - 1) as nat, |i: int| strip_return(all[i]));
    assert forall|i: int| 0 <= i < items.len() implies parts[i] == items[i] by {
        assert(all[i] == ended[i]);
        if ends[i] {
            assert(items[i].push('\r').drop_last() =~= items[i]);
        }
    }
    assert(parts =~= items);
}

/// A text begins with a prefix exactly where it is that prefix and a rest.
pub proof fn law_a_prefix_and_a_rest(prefix: Seq<char>, rest: Seq<char>, s: Seq<char>)
    ensures
        has_prefix(prefix + rest, prefix),
        has_prefix(s, prefix) ==> prefix + s.skip(prefix.len() as int) == s,
{
    assert((prefix + rest).take(prefix.len() as int) =~= prefix);
    if has_prefix(s, prefix) {
        assert(prefix + s.skip(prefix.len() as int) =~= s) by {
            assert(s.take(prefix.len() as int) + s.skip(prefix.len() as int) =~= s);
        }
    }
}

} // verus!
