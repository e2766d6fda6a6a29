//! Finding the mount that hosts a path in `/proc/self/mountinfo` content.

use vstd::prelude::*;

use crate::text;
use crate::text::{chars_of, lines_of, same_text, split_on, string_of};

verus! {

// ---------------------------------------------------------------------------
// Octal escapes

/// The octal digits.
pub open spec fn is_octal(c: char) -> bool {
    '0' <= c && c <= '7'
}

/// What an octal digit stands for.
pub open spec fn octal_value(c: char) -> nat {
    (c as u32 - '0' as u32) as nat
}

/// The byte that three octal digits stand for; `None` where `d` is anything
/// else, or stands for more than a byte holds.
pub open spec fn escape_value(d: Seq<char>) -> Option<nat> {
    if d.len() == 3 && is_octal(d[0]) && is_octal(d[1]) && is_octal(d[2]) {
        let n = octal_value(d[0]) * 64 + octal_value(d[1]) * 8 + octal_value(d[2]);
        if n <= 0o377 {
            Some(n)
        } else {
            None
        }
    } else {
        None
    }
}

/// The first three characters after the first of `s`, or fewer at its end.
pub open spec fn after_backslash(s: Seq<char>) -> Seq<char> {
    s.subrange(1, if s.len() < 4 {
        s.len() as int
    } else {
        4
    })
}

/// `s` with each escape replaced by the character that it stands for; a
/// backslash that begins none stands for itself.
pub open spec fn unescaped(s: Seq<char>) -> Seq<char>
    decreases s.len(),
{
    if s.len() == 0 {
        Seq::empty()
    } else if s[0] != '\\' {
        seq![s[0]] + unescaped(s.skip(1))
    } else {
        match escape_value(after_backslash(s)) {
            Some(n) => seq![n as char] + unescaped(s.skip(4)),
            None => seq!['\\'] + unescaped(s.skip(1)),
        }
    }
}

fn escape_at(s: &[char], i: usize) -> (r: Option<u8>)
    requires
        i < s.len(),
    ensures
        match r {
            Some(n) => escape_value(after_backslash(s@.skip(i as int))) == Some(n as nat) && i + 4
                <= s.len(),
            None => escape_value(after_backslash(s@.skip(i as int))) is None,
        },
{
    let ghost d = after_backslash(s@.skip(i as int));
    if s.len() - i < 4 {
        assert(d.len() < 3);
        return None;
    }
    let a = s[i + 1];
    let b = s[i + 2];
    let c = s[i + 3];
    assert(d =~= seq![a, b, c]);
    if !('0' <= a && a <= '7' && '0' <= b && b <= '7' && '0' <= c && c <= '7') {
        return None;
    }
    let n: u32 = (a as u32 - '0' as u32) * 64 + (b as u32 - '0' as u32) * 8 + (c as u32
        - '0' as u32);
    if n <= 0o377 {
        Some(n as u8)
    } else {
        None
    }
}

/// Reverses mountinfo's octal escapes (`\040` space, `\011` tab, …).
pub fn unescape(field: &[char]) -> (r: Vec<char>)
    ensures
        r@ == unescaped(field@),
{
    let mut out: Vec<char> = Vec::new();
    let mut i: usize = 0;
    assert(field@.skip(0) =~= field@);
    assert(out@ + unescaped(field@) =~= unescaped(field@));
    while i < field.len()
        invariant
            i <= field.len(),
            out@ + unescaped(field@.skip(i as int)) == unescaped(field@),
        decreases field.len() - i,
    {
        let ghost rest = field@.skip(i as int);
        let ghost before = out@;
        let c = field[i];
        assert(rest[0] == c);
        let (pushed, width): (char, usize) = if c != '\\' {
            (c, 1)
        } else {
            match escape_at(field, i) {
                Some(n) => (n as char, 4),
                None => ('\\', 1),
            }
        };
        out.push(pushed);
        proof {
            assert(rest.skip(width as int) =~= field@.skip(i + width));
            assert(unescaped(rest) == seq![pushed] + unescaped(rest.skip(width as int)));
            assert(before + (seq![pushed] + unescaped(rest.skip(width as int))) =~= out@
                + unescaped(rest.skip(width as int)));
        }
        i += width;
    }
    assert(field@.skip(i as int) =~= Seq::empty());
    assert(out@ + Seq::<char>::empty() =~= out@);
    out
}

/// `c` as mountinfo writes it inside a field: a space, tab, line feed or
/// backslash in octal, any other character as it is.
pub open spec fn escaped_char(c: char) -> Seq<char> {
    if c == ' ' {
        seq!['\\', '0', '4', '0']
    } else if c == '\t' {
        seq!['\\', '0', '1', '1']
    } else if c == '\n' {
        seq!['\\', '0', '1', '2']
    } else if c == '\\' {
        seq!['\\', '1', '3', '4']
    } else {
        seq![c]
    }
}

/// `s` as mountinfo writes it inside a field.
pub open spec fn escaped(s: Seq<char>) -> Seq<char>
    decreases s.len(),
{
    if s.len() == 0 {
        Seq::empty()
    } else {
        escaped_char(s[0]) + escaped(s.skip(1))
    }
}

/// What mountinfo escapes is read back as it was.
pub proof fn law_unescaping_undoes_escaping(s: Seq<char>)
    ensures
        unescaped(escaped(s)) == s,
    decreases s.len(),
{
    if s.len() > 0 {
        let rest = escaped(s.skip(1));
        let e = escaped(s);
        law_unescaping_undoes_escaping(s.skip(1));
        assert(seq![s[0]] + s.skip(1) =~= s);
        let width = escaped_char(s[0]).len() as int;
        assert(e.skip(width) =~= rest);
        if width == 4 {
            assert(after_backslash(e) =~= escaped_char(s[0]).skip(1));
        }
    }
}

/// A backslash with three octal digits behind it stands for the byte that they
/// are, every such byte; any other backslash, and every other character, for
/// itself. What an escape stands for is not looked at again.
pub proof fn law_octal_escapes_stand_for_bytes(c: char, digits: Seq<char>, rest: Seq<char>)
    ensures
        c != '\\' ==> unescaped(seq![c] + rest) == seq![c] + unescaped(rest),
        digits.len() == 3 && is_octal(digits[0]) && is_octal(digits[1]) && is_octal(digits[2]) ==> {
            let n = octal_value(digits[0]) * 64 + octal_value(digits[1]) * 8 + octal_value(
                digits[2],
            );
            &&& n <= 255 ==> unescaped(seq!['\\'] + digits + rest) == seq![n as char] + unescaped(
                rest,
            )
            &&& n > 255 ==> unescaped(seq!['\\'] + digits + rest) == seq!['\\'] + unescaped(
                digits + rest,
            )
        },
        rest.len() < 3 || !is_octal(rest[0]) || !is_octal(rest[1]) || !is_octal(rest[2])
            ==> unescaped(seq!['\\'] + rest) == seq!['\\'] + unescaped(rest),
        is_octal(c) <==> '0' <= c && c <= '7',
{
    let plain = seq![c] + rest;
    assert(plain.skip(1) =~= rest);
    let s = seq!['\\'] + digits + rest;
    if digits.len() == 3 {
        assert(s.skip(4) =~= rest);
        assert(s.skip(1) =~= digits + rest);
        assert(after_backslash(s) =~= digits);
    }
    let t = seq!['\\'] + rest;
    assert(t.skip(1) =~= rest);
    if rest.len() >= 3 {
        assert(after_backslash(t) =~= rest.take(3));
    } else {
        assert(after_backslash(t) =~= rest);
    }
}

// ---------------------------------------------------------------------------
// Path components

/// Whether a part of a path between slashes counts as a component: not an
/// empty one, nor a dot, unless the path begins with it.
pub open spec fn counts(part: Seq<char>, first: bool) -> bool {
    part.len() > 0 && (part != seq!['.'] || first)
}

/// Those of `parts` that count as components, `parts` being the parts of a
/// path between slashes.
pub open spec fn counted(parts: Seq<Seq<char>>) -> Seq<Seq<char>>
    decreases parts.len(),
{
    if parts.len() == 0 {
        Seq::empty()
    } else {
        let before = counted(parts.drop_last());
        if counts(parts.last(), parts.len() == 1) {
            before.push(parts.last())
        } else {
            before
        }
    }
}

/// The components of a Unix path: the root, as `/`, where it has one, and its
/// names. Repeated slashes and dots between them do not count.
pub open spec fn components(path: Seq<char>) -> Seq<Seq<char>> {
    let names = counted(text::split(path, '/'));
    if path.len() > 0 && path[0] == '/' {
        seq![seq!['/']] + names
    } else {
        names
    }
}

/// The components of a Unix path.
pub fn components_of(path: &[char]) -> (r: Vec<Vec<char>>)
    ensures
        text::pieces(r@) == components(path@),
{
    let parts = split_on(path, '/');
    let ghost all = text::pieces(parts@);
    let mut r: Vec<Vec<char>> = Vec::new();
    let ghost root: Seq<Seq<char>> = if path@.len() > 0 && path@[0] == '/' {
        seq![seq!['/']]
    } else {
        Seq::empty()
    };
    if path.len() > 0 && path[0] == '/' {
        let mut slash: Vec<char> = Vec::new();
        slash.push('/');
        assert(slash@ =~= seq!['/']);
        r.push(slash);
    }
    let dot: [char; 1] = ['.'];
    assert(dot@ =~= seq!['.']);
    let mut i: usize = 0;
    proof {
        assert(text::pieces(r@) =~= root);
        assert(root + counted(all.take(0)) =~= root);
    }
    while i < parts.len()
        invariant
            i <= parts.len(),
            all == text::pieces(parts@),
            dot@ == seq!['.'],
            text::pieces(r@) == root + counted(all.take(i as int)),
        decreases parts.len() - i,
    {
        let part: &Vec<char> = &parts[i];
        let ghost before = r@;
        proof {
            assert(all.take(i as int + 1).drop_last() =~= all.take(i as int));
            assert(all.take(i as int + 1).last() == part@);
        }
        if part.len() > 0 && (i == 0 || !same_text(part.as_slice(), dot.as_slice())) {
            let name = vstd::slice::slice_to_vec(part.as_slice());
            r.push(name);
            proof {
                assert(text::pieces(r@) =~= text::pieces(before).push(part@));
                assert(text::pieces(r@) =~= root + counted(all.take(i as int + 1)));
            }
        }
        i += 1;
    }
    assert(all.take(i as int) =~= all);
    assert(Seq::<Seq<char>>::empty() + counted(all) =~= counted(all));
    r
}

/// Whether the components of a path begin with those of another.
fn begins_with(path: &Vec<Vec<char>>, mount: &Vec<Vec<char>>) -> (r: bool)
    ensures
        r == text::pieces(mount@).is_prefix_of(text::pieces(path@)),
{
    let ghost p = text::pieces(path@);
    let ghost m = text::pieces(mount@);
    if mount.len() > path.len() {
        return false;
    }
    let mut i: usize = 0;
    while i < mount.len()
        invariant
            i <= mount.len() <= path.len(),
            p == text::pieces(path@),
            m == text::pieces(mount@),
            forall|j: int| 0 <= j < i ==> m[j] == p[j],
        decreases mount.len() - i,
    {
        if !same_text(mount[i].as_slice(), path[i].as_slice()) {
            assert(m[i as int] != p[i as int]);
            proof {
                if m.is_prefix_of(p) {
                    assert(m[i as int] == p.take(m.len() as int)[i as int]);
                }
            }
            return false;
        }
        assert(m[i as int] == p[i as int]);
        i += 1;
    }
    assert(m =~= p.take(m.len() as int));
    true
}

// ---------------------------------------------------------------------------
// Mount entries

/// One mount.
#[verifier::ext_equal]
pub struct Entry {
    pub source: Seq<char>,
    pub mount: Seq<char>,
    pub fstype: Seq<char>,
}

/// The place of the first `field` in `fields`, from `i` on.
pub open spec fn place_of(fields: Seq<Seq<char>>, field: Seq<char>, i: int) -> Option<int>
    decreases fields.len() - i,
{
    if i < 0 || i >= fields.len() {
        None
    } else if fields[i] == field {
        Some(i)
    } else {
        place_of(fields, field, i + 1)
    }
}

/// The mount that a line describes: `id parent major:minor root mount-point
/// options [optional…] - fstype source super-options`. Spaces inside fields
/// are octal-escaped and a lone `-` terminates the optional list.
pub open spec fn entry_of(line: Seq<char>) -> Option<Entry> {
    let fields = text::split(line, ' ');
    match place_of(fields, seq!['-'], 0) {
        Some(dash) => if fields.len() > 4 && fields.len() > dash + 2 {
            Some(
                Entry {
                    source: unescaped(fields[dash + 2]),
                    mount: unescaped(fields[4]),
                    fstype: fields[dash + 1],
                },
            )
        } else {
            None
        },
        None => None,
    }
}

/// A first place is what [`place_of`] finds.
proof fn lemma_place_is(fields: Seq<Seq<char>>, field: Seq<char>, i: int, k: int)
    requires
        0 <= i <= k < fields.len(),
        fields[k] == field,
        forall|j: int| i <= j < k ==> fields[j] != field,
    ensures
        place_of(fields, field, i) == Some(k),
    decreases k - i,
{
    if i < k {
        lemma_place_is(fields, field, i + 1, k);
    }
}

proof fn lemma_no_place(fields: Seq<Seq<char>>, field: Seq<char>, i: int)
    requires
        0 <= i <= fields.len(),
        forall|j: int| i <= j < fields.len() ==> fields[j] != field,
    ensures
        place_of(fields, field, i) is None,
    decreases fields.len() - i,
{
    if i < fields.len() {
        lemma_no_place(fields, field, i + 1);
    }
}

/// Whether `fields` can stand in a line: none of them holds a space.
pub open spec fn are_fields(fields: Seq<Seq<char>>) -> bool {
    forall|i: int| 0 <= i < fields.len() ==> !(#[trigger] fields[i]).contains(' ')
}

/// Whether none of `fields` is a lone dash.
pub open spec fn has_no_dash(fields: Seq<Seq<char>>) -> bool {
    forall|i: int| 0 <= i < fields.len() ==> #[trigger] fields[i] != seq!['-']
}

/// A line of five or more fields, a lone dash and two or more fields describes
/// a mount: the fifth field is where, the two behind the dash are the file
/// system and the source. No other field matters.
pub proof fn law_a_line_describes_its_mount(lead: Seq<Seq<char>>, tail: Seq<Seq<char>>)
    requires
        lead.len() >= 5,
        tail.len() >= 2,
        are_fields(lead),
        are_fields(tail),
        has_no_dash(lead),
    ensures
        entry_of(text::join(lead + seq![seq!['-']] + tail, ' ')) == Some(
            Entry { source: unescaped(tail[1]), mount: unescaped(lead[4]), fstype: tail[0] },
        ),
{
    let fields = lead + seq![seq!['-']] + tail;
    let dash = lead.len() as int;
    assert forall|i: int| 0 <= i < fields.len() implies !(#[trigger] fields[i]).contains(' ') by {
        if i < dash {
            assert(fields[i] == lead[i]);
        } else if i > dash {
            assert(fields[i] == tail[i - dash - 1]);
        }
    }
    text::law_splitting_undoes_joining(fields, ' ');
    assert forall|i: int| 0 <= i < dash implies fields[i] != seq!['-'] by {
        assert(fields[i] == lead[i]);
    }
    lemma_place_is(fields, seq!['-'], 0, dash);
    assert(fields[4] == lead[4]);
    assert(fields[dash + 1] == tail[0]);
    assert(fields[dash + 2] == tail[1]);
}

/// A line without a lone dash describes no mount, nor does one with fewer than
/// two fields behind its first lone dash, or with fewer than five in all.
pub proof fn law_other_lines_describe_none(lead: Seq<Seq<char>>, tail: Seq<Seq<char>>)
    requires
        are_fields(lead),
        are_fields(tail),
        has_no_dash(lead),
    ensures
        lead.len() > 0 ==> entry_of(text::join(lead, ' ')) is None,
        tail.len() < 2 || lead.len() + tail.len() < 4 ==> entry_of(
            text::join(lead + seq![seq!['-']] + tail, ' '),
        ) is None,
{
    if lead.len() > 0 {
        text::law_splitting_undoes_joining(lead, ' ');
        lemma_no_place(lead, seq!['-'], 0);
    }
    let fields = lead + seq![seq!['-']] + tail;
    let dash = lead.len() as int;
    assert forall|i: int| 0 <= i < fields.len() implies !(#[trigger] fields[i]).contains(' ') by {
        if i < dash {
            assert(fields[i] == lead[i]);
        } else if i > dash {
            assert(fields[i] == tail[i - dash - 1]);
        }
    }
    text::law_splitting_undoes_joining(fields, ' ');
    assert forall|i: int| 0 <= i < dash implies fields[i] != seq!['-'] by {
        assert(fields[i] == lead[i]);
    }
    lemma_place_is(fields, seq!['-'], 0, dash);
}

/// What is escaped holds no space.
proof fn lemma_escaped_has_no_space(s: Seq<char>)
    ensures
        !escaped(s).contains(' '),
    decreases s.len(),
{
    if s.len() > 0 {
        lemma_escaped_has_no_space(s.skip(1));
        let e = escaped(s);
        let own = escaped_char(s[0]);
        assert forall|i: int| 0 <= i < e.len() implies e[i] != ' ' by {
            if i < own.len() {
                assert(e[i] == own[i]);
            } else {
                assert(e[i] == escaped(s.skip(1))[i - own.len()]);
                assert(escaped(s.skip(1)).contains(e[i]));
            }
        }
    }
}

/// A mount is read back from its line as it is, whatever characters the names
/// of its mount point and its source hold.
pub proof fn law_mounts_are_read_as_written(
    e: Entry,
    lead: Seq<Seq<char>>,
    options: Seq<Seq<char>>,
    tail: Seq<Seq<char>>,
)
    requires
        lead.len() == 4,
        are_fields(lead + options + tail),
        has_no_dash(lead + options),
        e.mount != seq!['-'],
        !e.fstype.contains(' '),
    ensures
        entry_of(
            text::join(
                (lead.push(escaped(e.mount)) + options) + seq![seq!['-']] + (seq![
                    e.fstype,
                    escaped(e.source),
                ] + tail),
                ' ',
            ),
        ) == Some(e),
{
    let front = lead.push(escaped(e.mount)) + options;
    let back = seq![e.fstype, escaped(e.source)] + tail;
    let rest = lead + options + tail;
    let known = lead + options;
    lemma_escaped_has_no_space(e.mount);
    lemma_escaped_has_no_space(e.source);
    law_unescaping_undoes_escaping(e.mount);
    law_unescaping_undoes_escaping(e.source);
    assert(escaped(e.mount) != seq!['-']) by {
        if escaped(e.mount) == seq!['-'] {
            assert(unescaped(seq!['-'].skip(1)) =~= Seq::empty());
            assert(unescaped(seq!['-']) =~= seq!['-']);
        }
    }
    assert forall|i: int| 0 <= i < front.len() implies !(#[trigger] front[i]).contains(' ')
        && front[i] != seq!['-'] by {
        if i < 4 {
            assert(front[i] == rest[i] && front[i] == known[i]);
        } else if i > 4 {
            assert(front[i] == rest[i - 1] && front[i] == known[i - 1]);
        }
    }
    assert forall|i: int| 0 <= i < back.len() implies !(#[trigger] back[i]).contains(' ') by {
        if i >= 2 {
            assert(back[i] == rest[i - 2 + known.len()]);
        }
    }
    law_a_line_describes_its_mount(front, back);
    assert(front[4] == escaped(e.mount));
}

/// Whether `path` lies at or below the mount point.
pub open spec fn hosts(e: Entry, path: Seq<char>) -> bool {
    components(e.mount).is_prefix_of(components(path))
}

/// The absolute path with these names.
pub open spec fn path_of(names: Seq<Seq<char>>) -> Seq<char> {
    seq!['/'] + text::join(names, '/')
}

/// Whether `names` can be the names of an absolute path.
pub open spec fn are_names(names: Seq<Seq<char>>) -> bool {
    forall|i: int|
        0 <= i < names.len() ==> {
            &&& (#[trigger] names[i]).len() > 0
            &&& !names[i].contains('/')
            &&& names[i] != seq!['.']
        }
}

/// All names count.
proof fn lemma_names_count(names: Seq<Seq<char>>)
    requires
        are_names(names),
    ensures
        counted(seq![Seq::empty()] + names) == names,
    decreases names.len(),
{
    let all = seq![Seq::<char>::empty()] + names;
    if names.len() == 0 {
        assert(all.drop_last() =~= Seq::empty());
        assert(counted(all.drop_last()) =~= Seq::empty());
        assert(counted(all) =~= names);
    } else {
        let rest = names.drop_last();
        assert forall|i: int| 0 <= i < rest.len() implies (#[trigger] rest[i]).len() > 0
            && !rest[i].contains('/') && rest[i] != seq!['.'] by {
            assert(rest[i] == names[i]);
        }
        lemma_names_count(rest);
        assert(all.drop_last() =~= seq![Seq::<char>::empty()] + rest);
        assert(all.last() == names[names.len() - 1]);
        assert(counted(all) =~= rest.push(names.last()));
    }
}

/// The components of an absolute path are its root and its names.
pub proof fn law_components_are_the_names(names: Seq<Seq<char>>)
    requires
        are_names(names),
    ensures
        components(path_of(names)) == seq![seq!['/']] + names,
{
    let path = path_of(names);
    let items = if names.len() == 0 {
        seq![Seq::<char>::empty(), Seq::<char>::empty()]
    } else {
        seq![Seq::<char>::empty()] + names
    };
    assert forall|i: int| 0 <= i < items.len() implies !(#[trigger] items[i]).contains('/') by {
        if i > 0 && names.len() > 0 {
            assert(items[i] == names[i - 1]);
        }
    }
    text::law_splitting_undoes_joining(items, '/');
    if names.len() == 0 {
        assert(text::join(items.skip(1), '/') =~= Seq::empty());
        assert(text::join(items, '/') =~= path);
        assert(items.drop_last() =~= seq![Seq::<char>::empty()] + names);
        lemma_names_count(names);
        assert(counted(items) =~= names);
    } else {
        assert(items.skip(1) =~= names);
        assert(text::join(items, '/') =~= path);
        lemma_names_count(names);
    }
    assert(path[0] == '/');
}

/// Whether a part of an absolute path is a name: neither empty nor a dot.
pub open spec fn is_name(part: Seq<char>) -> bool {
    part.len() > 0 && part != seq!['.']
}

/// Repeated slashes, a slash at the end and dots do not matter: the components
/// of an absolute path are its root and those of its parts that are names.
pub proof fn law_only_names_are_components(parts: Seq<Seq<char>>)
    requires
        parts.len() > 0,
        forall|i: int| 0 <= i < parts.len() ==> !(#[trigger] parts[i]).contains('/'),
    ensures
        components(seq!['/'] + text::join(parts, '/')) == seq![seq!['/']] + parts.filter(
            |p: Seq<char>| is_name(p),
        ),
{
    let items = seq![Seq::<char>::empty()] + parts;
    let path = seq!['/'] + text::join(parts, '/');
    assert forall|i: int| 0 <= i < items.len() implies !(#[trigger] items[i]).contains('/') by {
        if i > 0 {
            assert(items[i] == parts[i - 1]);
        }
    }
    text::law_splitting_undoes_joining(items, '/');
    assert(items.skip(1) =~= parts);
    assert(text::join(items, '/') =~= path);
    lemma_counted_filter(parts);
    assert(path[0] == '/');
}

proof fn lemma_counted_filter(parts: Seq<Seq<char>>)
    ensures
        counted(seq![Seq::empty()] + parts) == parts.filter(|p: Seq<char>| is_name(p)),
    decreases parts.len(),
{
    reveal(Seq::filter);
    let all = seq![Seq::<char>::empty()] + parts;
    if parts.len() == 0 {
        assert(all.drop_last() =~= Seq::empty());
        assert(counted(all.drop_last()) =~= Seq::empty());
        assert(counted(all) =~= parts.filter(|p: Seq<char>| is_name(p)));
    } else {
        lemma_counted_filter(parts.drop_last());
        assert(all.drop_last() =~= seq![Seq::<char>::empty()] + parts.drop_last());
        assert(all.last() == parts.last());
    }
}

/// A mount hosts exactly the paths whose names begin with its own, name by
/// name: `/mnt/a` lies on `/mnt` and on `/`, but not on `/mn`.
pub proof fn law_a_mount_hosts_what_lies_below(
    e: Entry,
    own: Seq<Seq<char>>,
    names: Seq<Seq<char>>,
)
    requires
        are_names(own),
        are_names(names),
        e.mount == path_of(own),
    ensures
        hosts(e, path_of(names)) <==> own.is_prefix_of(names),
        depth(Some(e)) == own.len() + 1,
{
    law_components_are_the_names(own);
    law_components_are_the_names(names);
    let a = seq![seq!['/']] + own;
    let b = seq![seq!['/']] + names;
    if own.is_prefix_of(names) {
        assert(a =~= b.take(a.len() as int));
    }
    if a.is_prefix_of(b) {
        assert(own =~= names.take(own.len() as int)) by {
            assert forall|i: int| 0 <= i < own.len() implies own[i] == names[i] by {
                assert(a[i + 1] == b.take(a.len() as int)[i + 1]);
            }
        }
    }
}

/// How deep a mount point lies; 0 for none.
pub open spec fn depth(e: Option<Entry>) -> nat {
    match e {
        Some(e) => components(e.mount).len(),
        None => 0,
    }
}

/// Whether `e` is a mount that hosts `path`.
pub open spec fn is_host(e: Option<Entry>, path: Seq<char>) -> bool {
    match e {
        Some(e) => hosts(e, path),
        None => false,
    }
}

/// The deepest mount among `lines` that hosts `path`, the last of those where
/// there are several.
pub open spec fn deepest(lines: Seq<Seq<char>>, path: Seq<char>) -> Option<Entry>
    decreases lines.len(),
{
    if lines.len() == 0 {
        None
    } else {
        let best = deepest(lines.drop_last(), path);
        let e = entry_of(lines.last());
        if is_host(e, path) && depth(e) >= depth(best) {
            e
        } else {
            best
        }
    }
}

/// The deepest mount that hosts `path` is the one among the hosts that none
/// exceeds in depth, and that none after it equals: a later mount on the same
/// path shadows the earlier one.
pub proof fn law_deepest_mount_wins_then_the_last(lines: Seq<Seq<char>>, path: Seq<char>)
    ensures
        match deepest(lines, path) {
            Some(e) => exists|k: int|
                0 <= k < lines.len() && #[trigger] entry_of(lines[k]) == Some(e) && hosts(e, path)
                    && is_best_at(lines, path, k),
            None => forall|i: int|
                0 <= i < lines.len() ==> !is_host(#[trigger] entry_of(lines[i]), path),
        },
    decreases lines.len(),
{
    if lines.len() > 0 {
        let before = lines.drop_last();
        let n = lines.len() - 1;
        law_deepest_mount_wins_then_the_last(before, path);
        let best = deepest(before, path);
        let e = entry_of(lines.last());
        assert forall|i: int| 0 <= i < n implies before[i] == lines[i] by {}
        if is_host(e, path) && depth(e) >= depth(best) {
            assert(entry_of(lines[n]) == e);
            assert(is_best_at(lines, path, n)) by {
                assert forall|i: int|
                    0 <= i < lines.len() && is_host(
                        #[trigger] entry_of(lines[i]),
                        path,
                    ) implies depth(entry_of(lines[i])) <= depth(e) by {
                    if i < n {
                        assert(entry_of(before[i]) == entry_of(lines[i]));
                    }
                }
            }
        } else if best is Some {
            let k = choose|k: int|
                0 <= k < before.len() && #[trigger] entry_of(before[k]) == best && hosts(
                    best->0,
                    path,
                ) && is_best_at(before, path, k);
            assert(entry_of(lines[k]) == best);
            assert(is_best_at(lines, path, k)) by {
                assert forall|i: int|
                    0 <= i < lines.len() && is_host(#[trigger] entry_of(lines[i]), path) implies (
                depth(entry_of(lines[i])) <= depth(best) && (i > k ==> depth(entry_of(lines[i]))
                    < depth(best))) by {
                    if i < n {
                        assert(entry_of(before[i]) == entry_of(lines[i]));
                    }
                }
            }
        } else {
            assert forall|i: int| 0 <= i < lines.len() implies !is_host(
                #[trigger] entry_of(lines[i]),
                path,
            ) by {
                if i < n {
                    assert(entry_of(before[i]) == entry_of(lines[i]));
                }
            }
        }
    }
}

/// Whether no host of `path` lies deeper than the mount on line `k`, and none
/// on a later line as deep.
pub open spec fn is_best_at(lines: Seq<Seq<char>>, path: Seq<char>, k: int) -> bool {
    forall|i: int|
        0 <= i < lines.len() && is_host(#[trigger] entry_of(lines[i]), path) ==> {
            &&& depth(entry_of(lines[i])) <= depth(entry_of(lines[k]))
            &&& i > k ==> depth(entry_of(lines[i])) < depth(entry_of(lines[k]))
        }
}

/// The view of a mount.
pub open spec fn entry_view(r: Option<(String, String, String)>) -> Option<Entry> {
    match r {
        Some((source, mount, fstype)) => Some(
            Entry { source: source@, mount: mount@, fstype: fstype@ },
        ),
        None => None,
    }
}

fn find_field(fields: &Vec<Vec<char>>, field: &[char]) -> (r: Option<usize>)
    ensures
        match r {
            Some(k) => place_of(text::pieces(fields@), field@, 0) == Some(k as int) && k
                < fields.len(),
            None => place_of(text::pieces(fields@), field@, 0) is None,
        },
{
    let mut i: usize = 0;
    while i < fields.len()
        invariant
            i <= fields.len(),
            place_of(text::pieces(fields@), field@, 0) == place_of(
                text::pieces(fields@),
                field@,
                i as int,
            ),
        decreases fields.len() - i,
    {
        if same_text(fields[i].as_slice(), field) {
            return Some(i);
        }
        i += 1;
    }
    None
}

/// The mount that a line describes.
struct Mount {
    source: Vec<char>,
    mount: Vec<char>,
    fstype: Vec<char>,
}

impl Mount {
    spec fn entry(self) -> Entry {
        Entry { source: self.source@, mount: self.mount@, fstype: self.fstype@ }
    }
}

fn parse_line(line: &[char]) -> (r: Option<Mount>)
    ensures
        match r {
            Some(m) => entry_of(line@) == Some(m.entry()),
            None => entry_of(line@) is None,
        },
{
    let fields = split_on(line, ' ');
    let ghost all = text::pieces(fields@);
    let lone: [char; 1] = ['-'];
    assert(lone@ =~= seq!['-']);
    let dash: usize = match find_field(&fields, lone.as_slice()) {
        Some(k) => k,
        None => return None,
    };
    if fields.len() <= 4 || fields.len() - dash <= 2 {
        return None;
    }
    assert(all[4] == fields@[4]@);
    Some(
        Mount {
            source: unescape(fields[dash + 2].as_slice()),
            mount: unescape(fields[4].as_slice()),
            fstype: vstd::slice::slice_to_vec(fields[dash + 1].as_slice()),
        },
    )
}

/// Picks the mount hosting `path` from `/proc/self/mountinfo` content: the
/// entry whose mount point is the deepest path-prefix of `path`. Returns
/// (source, mount point, fstype). Later entries win ties, since a later
/// mount on the same path shadows the earlier one.
pub fn deepest_mount(mountinfo: &str, path: &str) -> (r: Option<(String, String, String)>)
    ensures
        entry_view(r) == deepest(text::lines(mountinfo@), path@),
{
    let lines = lines_of(chars_of(mountinfo).as_slice());
    let ghost all = text::pieces(lines@);
    let path_components = components_of(chars_of(path).as_slice());
    let mut best: Option<Mount> = None;
    let mut best_depth: usize = 0;
    let mut i: usize = 0;
    assert(all.take(0) =~= Seq::empty());
    while i < lines.len()
        invariant
            i <= lines.len(),
            all == text::pieces(lines@),
            text::pieces(path_components@) == components(path@),
            deepest(all.take(i as int), path@) == (match best {
                Some(m) => Some(m.entry()),
                None => None,
            }),
            best_depth == depth(deepest(all.take(i as int), path@)),
        decreases lines.len() - i,
    {
        proof {
            assert(all.take(i as int + 1).drop_last() =~= all.take(i as int));
            assert(all.take(i as int + 1).last() == lines@[i as int]@);
        }
        match parse_line(lines[i].as_slice()) {
            Some(m) => {
                let mount_components = components_of(m.mount.as_slice());
                let d: usize = mount_components.len();
                assert(d == text::pieces(mount_components@).len());
                if begins_with(&path_components, &mount_components) && d >= best_depth {
                    best_depth = d;
                    best = Some(m);
                }
            },
            None => {},
        }
        i += 1;
    }
    assert(all.take(i as int) =~= all);
    match best {
        Some(m) => Some(
            (
                string_of(m.source.as_slice()),
                string_of(m.mount.as_slice()),
                string_of(m.fstype.as_slice()),
            ),
        ),
        None => None,
    }
}

} // verus!
