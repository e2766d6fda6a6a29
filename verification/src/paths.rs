//! Turning canonicalized paths back into something worth showing a user.
//!
//! Canonical paths on Windows come in the verbatim form — `\\?\D:\dir` rather
//! than `D:\dir`. That prefix is an instruction to the loader to skip path
//! parsing, not part of the name: nothing else in the system speaks it, fio
//! included.

use std::borrow::Cow;

use vstd::prelude::*;
use vstd::slice::slice_subrange;

use crate::platform::Platform;
use crate::text;
use crate::text::{chars_of, starts_with, string_of, utf16_shorter};

verus! {

/// The longest path Windows accepts without the verbatim prefix.
pub const MAX_PATH: usize = 260;

/// What a verbatim path begins with.
pub open spec fn verbatim() -> Seq<char> {
    seq!['\\', '\\', '?', '\\']
}

/// What the verbatim path of a network share begins with.
pub open spec fn verbatim_unc() -> Seq<char> {
    seq!['\\', '\\', '?', '\\', 'U', 'N', 'C', '\\']
}

/// Whether `s` begins with a drive letter and a colon.
pub open spec fn has_drive(s: Seq<char>) -> bool {
    s.len() >= 2 && s[1] == ':' && (('a' <= s[0] && s[0] <= 'z') || ('A' <= s[0] && s[0] <= 'Z'))
}

/// The path without its verbatim prefix; `None` where it has none, or where
/// only the prefix gives it its meaning.
pub open spec fn plain_form(path: Seq<char>) -> Option<Seq<char>> {
    if text::has_prefix(path, verbatim_unc()) {
        Some(seq!['\\', '\\'] + path.skip(8))
    } else if text::has_prefix(path, verbatim()) && has_drive(path.skip(4)) {
        Some(path.skip(4))
    } else {
        None
    }
}

/// The plain form of `path`, where it has one.
fn plain(path: &[char]) -> (r: Option<Vec<char>>)
    ensures
        match r {
            Some(p) => plain_form(path@) == Some(p@),
            None => plain_form(path@) is None,
        },
{
    let unc: [char; 8] = ['\\', '\\', '?', '\\', 'U', 'N', 'C', '\\'];
    assert(unc@ =~= verbatim_unc());
    if starts_with(path, unc.as_slice()) {
        let mut r: Vec<char> = Vec::new();
        r.push('\\');
        r.push('\\');
        let mut rest = vstd::slice::slice_to_vec(slice_subrange(path, 8, path.len()));
        r.append(&mut rest);
        assert(r@ =~= seq!['\\', '\\'] + path@.skip(8));
        return Some(r);
    }
    let prefix: [char; 4] = ['\\', '\\', '?', '\\'];
    assert(prefix@ =~= verbatim());
    if !starts_with(path, prefix.as_slice()) {
        return None;
    }
    let rest = slice_subrange(path, 4, path.len());
    assert(rest@ =~= path@.skip(4));
    // Only a drive-letter path means the same thing without the prefix.
    if rest.len() >= 2 && rest[1] == ':' && (('a' <= rest[0] && rest[0] <= 'z') || ('A' <= rest[0]
        && rest[0] <= 'Z')) {
        Some(vstd::slice::slice_to_vec(rest))
    } else {
        None
    }
}

/// The path with a verbatim prefix dropped, where that can be done.
pub open spec fn stripped(path: Seq<char>) -> Seq<char> {
    match plain_form(path) {
        Some(p) => p,
        None => path,
    }
}

/// Drops a Windows verbatim prefix, borrowing when there is nothing to drop.
///
/// Unlike [`simplify`], this makes no judgement about whether the result is
/// still usable — fio cannot parse the verbatim form under any circumstances,
/// so it takes the plain one regardless of length.
pub fn strip_verbatim(path: &str) -> (r: Cow<'_, str>)
    ensures
        r@ == stripped(path@),
        r is Borrowed <==> plain_form(path@) is None,
{
    match plain(chars_of(path).as_slice()) {
        Some(p) => Cow::Owned(string_of(p.as_slice())),
        None => Cow::Borrowed(path),
    }
}

/// The path as a user should see it.
pub open spec fn simplified(path: Seq<char>, platform: Platform) -> Seq<char> {
    match plain_form(path) {
        Some(p) => if platform is Windows && text::utf16_len(p) < MAX_PATH {
            p
        } else {
            path
        },
        None => path,
    }
}

/// The ordinary form of a canonicalized path, where one exists.
///
/// Keeps the verbatim prefix when dropping it would change the meaning: a path
/// at or past `MAX_PATH` is only reachable through it, and a volume GUID path
/// (`\\?\Volume{…}\`) has no plain spelling at all.
pub fn simplify(path: &str, platform: Platform) -> (r: String)
    ensures
        r@ == simplified(path@, platform),
{
    match platform {
        Platform::Windows => match strip_verbatim(path) {
            Cow::Owned(p) => {
                if utf16_shorter(chars_of(p.as_str()).as_slice(), MAX_PATH) {
                    return p;
                }
            },
            Cow::Borrowed(_) => {},
        },
        // A Unix directory may legitimately be named `\\?\x`; leave it alone.
        _ => {},
    }
    path.to_owned()
}

/// Away from Windows no path changes.
pub proof fn law_other_systems_keep_paths(path: Seq<char>, platform: Platform)
    requires
        platform !is Windows,
    ensures
        simplified(path, platform) == path,
{
}

/// A simplified path is short enough to do without the prefix, or is the path
/// that was given.
pub proof fn law_long_paths_keep_the_prefix(path: Seq<char>, platform: Platform)
    ensures
        simplified(path, platform) == path || text::utf16_len(simplified(path, platform))
            < MAX_PATH,
{
}

/// A verbatim path with a drive letter is plain without the prefix, whatever
/// follows; that of a network share begins with two backslashes instead.
pub proof fn law_verbatim_prefixes_are_dropped(rest: Seq<char>)
    ensures
        has_drive(rest) ==> stripped(seq!['\\', '\\', '?', '\\'] + rest) == rest,
        stripped(seq!['\\', '\\', '?', '\\', 'U', 'N', 'C', '\\'] + rest) == seq!['\\', '\\']
            + rest,
{
    let p = seq!['\\', '\\', '?', '\\'] + rest;
    if has_drive(rest) {
        assert(p.take(4) =~= verbatim());
        assert(p.skip(4) =~= rest);
        if text::has_prefix(p, verbatim_unc()) {
            assert(p.take(8)[5] == 'N');
            assert(p[5] == rest[1]);
        }
    }
    let u = seq!['\\', '\\', '?', '\\', 'U', 'N', 'C', '\\'] + rest;
    assert(u.take(8) =~= verbatim_unc());
    assert(u.skip(8) =~= rest);
}

/// Every other path is left alone: one without the prefix, and one that has no
/// drive letter behind it.
pub proof fn law_other_paths_stay(path: Seq<char>)
    ensures
        !text::has_prefix(path, seq!['\\', '\\', '?', '\\']) ==> stripped(path) == path,
        !text::has_prefix(path, seq!['\\', '\\', '?', '\\', 'U', 'N', 'C', '\\']) && !has_drive(
            path.skip(4),
        ) ==> stripped(path) == path,
        has_drive(path) <==> path.len() >= 2 && path[1] == ':' && ('a' <= path[0] && path[0] <= 'z'
            || 'A' <= path[0] && path[0] <= 'Z'),
{
    if text::has_prefix(path, verbatim_unc()) {
        assert(path.take(4) =~= verbatim()) by {
            assert forall|i: int| 0 <= i < 4 implies path.take(4)[i] == verbatim()[i] by {
                assert(path.take(8)[i] == verbatim_unc()[i]);
            }
        }
    }
}

/// On Windows a path is shown without the prefix exactly where that is short
/// enough to be used so.
pub proof fn law_short_paths_lose_the_prefix(path: Seq<char>)
    ensures
        text::utf16_len(stripped(path)) < 260 ==> simplified(path, Platform::Windows) == stripped(
            path,
        ),
        text::utf16_len(stripped(path)) >= 260 ==> simplified(path, Platform::Windows) == path,
{
}

/// Stripping a stripped path changes nothing, unless a network share was named
/// like the prefix itself.
pub proof fn law_stripping_twice_is_stripping_once(path: Seq<char>)
    requires
        text::has_prefix(path, verbatim_unc()) ==> !text::has_prefix(path.skip(8), seq!['?', '\\']),
    ensures
        stripped(stripped(path)) == stripped(path),
{
    let s = stripped(path);
    if text::has_prefix(path, verbatim_unc()) {
        let rest = path.skip(8);
        assert(s == seq!['\\', '\\'] + rest);
        if text::has_prefix(s, verbatim()) {
            assert(s.take(4)[2] == '?' && s.take(4)[3] == '\\');
            assert(rest[0] == s[2] && rest[1] == s[3]);
            assert(rest.take(2) =~= seq!['?', '\\']);
        }
        if text::has_prefix(s, verbatim_unc()) {
            assert(s.take(8)[2] == '?' && s.take(8)[3] == '\\');
            assert(rest[0] == s[2] && rest[1] == s[3]);
            assert(rest.take(2) =~= seq!['?', '\\']);
        }
    } else if plain_form(path) is Some {
        assert(s[1] == ':');
        if text::has_prefix(s, verbatim()) {
            assert(s.take(4)[1] == '\\');
        }
        if text::has_prefix(s, verbatim_unc()) {
            assert(s.take(8)[1] == '\\');
        }
    }
}

} // verus!
