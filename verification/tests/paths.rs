use std::borrow::Cow;

use iomark::paths::{simplify, strip_verbatim, MAX_PATH};
use iomark::platform::Platform;

#[test]
fn strips_the_verbatim_prefix_from_drive_and_unc_paths() {
    assert_eq!(strip_verbatim(r"\\?\D:\iomark"), r"D:\iomark");
    assert_eq!(
        strip_verbatim(r"\\?\UNC\server\share\dir"),
        r"\\server\share\dir"
    );
}

#[test]
fn leaves_paths_without_a_plain_form_alone() {
    // A volume GUID path is only addressable through the prefix.
    let guid = r"\\?\Volume{9f4a1b2c-0000-0000-0000-000000000000}\dir";
    assert_eq!(strip_verbatim(guid), guid);
    assert_eq!(strip_verbatim(r"C:\dir"), r"C:\dir");
    assert_eq!(strip_verbatim("/tmp/dir"), "/tmp/dir");
}

#[test]
fn borrows_when_there_is_nothing_to_drop() {
    for path in [r"\\?\Volume{0}\dir", r"C:\dir", "/tmp/dir", r"\\?\D", r"\\server\share", ""] {
        assert!(matches!(strip_verbatim(path), Cow::Borrowed(same) if same == path), "{path}");
    }
    for path in [r"\\?\D:", r"\\?\z:\dir", r"\\?\UNC\server\share", r"\\?\UNC\"] {
        assert!(matches!(strip_verbatim(path), Cow::Owned(_)), "{path}");
    }
}

#[test]
fn simplify_keeps_the_prefix_a_long_path_needs() {
    let long = format!(r"\\?\D:\{}", "a".repeat(MAX_PATH));
    assert_eq!(simplify(&long, Platform::Windows), long);
    assert_eq!(simplify(&long, Platform::Linux), long);
}

#[test]
fn simplify_drops_the_prefix_from_an_ordinary_path() {
    assert_eq!(simplify(r"\\?\D:\iomark", Platform::Windows), r"D:\iomark");
}

#[test]
fn stripping_twice_is_stripping_once() {
    for path in [r"\\?\D:\iomark", r"\\?\UNC\s\x", r"\\?\Volume{0}\d", r"C:\d", "/tmp", ""] {
        let once = strip_verbatim(path);
        assert_eq!(strip_verbatim(&once), once);
    }
}

#[test]
fn simplify_counts_utf16_units() {
    let fits = format!(r"\\?\D:\{}", "a".repeat(MAX_PATH - 4));
    assert_eq!(simplify(&fits, Platform::Windows), fits[4..]);
    let wide = format!(r"\\?\D:\{}", "\u{1f600}".repeat(129));
    assert_eq!(simplify(&wide, Platform::Windows), wide);
    let narrow = format!(r"\\?\D:\{}", "\u{1f600}".repeat(128));
    assert_eq!(simplify(&narrow, Platform::Windows), narrow[4..]);
}

#[test]
fn simplify_leaves_other_systems_alone() {
    assert_eq!(simplify(r"\\?\D:\iomark", Platform::Linux), r"\\?\D:\iomark");
    assert_eq!(simplify(r"\\?\UNC\s\x", Platform::Windows), r"\\s\x");
    assert_eq!(strip_verbatim(r"\\?\D"), r"\\?\D");
    assert_eq!(strip_verbatim(r"\\?\1:"), r"\\?\1:");
}
