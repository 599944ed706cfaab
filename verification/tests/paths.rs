use codex_usage_monitor::ids::{new_id, write_id};
use codex_usage_monitor::paths::{
    enclosing_app_bundle, file_name, has_file_name, is_absolute, join, parent, path_lies_in,
    same_path, take_apart, PathPrefix, PathStyle,
};
use codex_usage_monitor::text::{
    contains_text, decimal_text, digits_text, ends_with_text, parse_u32, same_ignoring_case,
    split_words, starts_with_text, take_chars, text_sorts_before, trim_text,
};

const UNIX: PathStyle = PathStyle::Unix;
const WINDOWS: PathStyle = PathStyle::Windows;

#[test]
fn paths_are_compared_part_by_part() {
    assert!(same_path(UNIX, "/a/b", "/a//b/"));
    assert!(same_path(UNIX, "/a/./b", "/a/b"));
    assert!(!same_path(UNIX, "/a/b", "a/b"));
    assert!(!same_path(UNIX, "/a/../b", "/b"));
    assert!(!same_path(UNIX, "/A", "/a"));
    assert!(!same_path(UNIX, r"\a", "/a"));
    assert!(same_path(WINDOWS, r"C:\a\b", "c:/a/b"));
    assert!(!same_path(WINDOWS, r"C:\a", r"D:\a"));
    assert!(!same_path(WINDOWS, r"C:a", r"C:\a"));
    assert!(!same_path(UNIX, "./a", "a"));
}

#[test]
fn paths_agree_with_those_of_the_system() {
    for (a, b) in [
        ("/a/b", "/a//b/"),
        ("/a/./b", "/a/b"),
        ("./a", "a"),
        ("a/.", "a"),
        ("", "."),
        ("/", "//"),
        ("/a", "/a/.."),
        (".", "./"),
    ] {
        assert_eq!(
            same_path(UNIX, a, b),
            std::path::Path::new(a) == std::path::Path::new(b),
            "{a} {b}"
        );
    }
    for path in ["/a/b", "/a", "/", "", "a", "a/b/", "/a/..", ".", "a/.", "//x//y//"] {
        let theirs = std::path::Path::new(path);
        assert_eq!(
            file_name(UNIX, path).as_deref(),
            theirs.file_name().and_then(|n| n.to_str()),
            "{path}"
        );
        assert_eq!(is_absolute(UNIX, path), theirs.is_absolute());
        assert_eq!(
            join(UNIX, path, "x"),
            theirs.join("x").to_str().unwrap(),
            "{path}"
        );
    }
    for path in [
        "/a/b", "/a", "/", "a", "a/b", "/a/b/c", "", "a/.", "a/./b", "./a", ".", "/.", "/a/..",
        "a/./", "//x//y//",
    ] {
        assert_eq!(
            parent(UNIX, path).as_deref(),
            std::path::Path::new(path).parent().and_then(|n| n.to_str()),
            "{path}"
        );
    }
}

#[test]
fn windows_paths_have_drives_and_two_separators() {
    let parts = take_apart(WINDOWS, r"C:\Program Files/App\x.exe");
    assert_eq!(parts.prefix, PathPrefix::Drive('c'));
    assert!(parts.rooted);
    assert_eq!(parts.parts, vec!["Program Files", "App", "x.exe"]);
    assert_eq!(
        parent(WINDOWS, r"C:\a\b.exe").as_deref(),
        Some(r"C:\a")
    );
    assert!(is_absolute(WINDOWS, r"C:\a"));
    assert!(is_absolute(WINDOWS, r"\\server\share"));
    assert!(!is_absolute(WINDOWS, r"\a"));
    assert!(!is_absolute(WINDOWS, "C:a"));
    assert_eq!(join(WINDOWS, r"C:\a", "b"), r"C:\a\b");
    assert_eq!(join(WINDOWS, "C:", "b"), "C:b");
    assert!(has_file_name(WINDOWS, r"C:\x\codex.exe", "codex.exe"));
}

#[test]
fn a_drive_keeps_its_root() {
    assert_eq!(parent(WINDOWS, r"C:\x.exe").as_deref(), Some(r"C:\"));
    assert_eq!(parent(WINDOWS, r"C:\").as_deref(), None);
    assert_eq!(parent(WINDOWS, "C:x").as_deref(), Some("C:"));
    assert_eq!(parent(WINDOWS, "C:").as_deref(), None);
    assert_eq!(parent(WINDOWS, r"\x").as_deref(), Some(r"\"));
    assert!(path_lies_in(WINDOWS, r"C:\codex.exe", r"C:\"));
    assert_eq!(join(WINDOWS, r"C:\", "x"), r"C:\x");
}

#[test]
fn shares_and_verbatim_paths_have_prefixes() {
    let parts = take_apart(WINDOWS, r"\\server\share\a");
    assert_eq!(
        parts.prefix,
        PathPrefix::Share("server".to_owned(), "share".to_owned())
    );
    assert!(parts.rooted);
    assert_eq!(parts.parts, vec!["a"]);
    assert!(!same_path(WINDOWS, r"\\server\share\x", r"\server\share\x"));
    assert!(same_path(WINDOWS, r"\\server\share", r"\\server\share\"));
    assert!(same_path(WINDOWS, r"\\server\share\x", "//server/share/x"));
    assert_eq!(
        parent(WINDOWS, r"\\server\share\x").as_deref(),
        Some(r"\\server\share\")
    );
    assert_eq!(parent(WINDOWS, r"\\server\share").as_deref(), None);
    assert_eq!(join(WINDOWS, r"\\server\share", "x"), r"\\server\share\x");
    assert_eq!(file_name(WINDOWS, r"\\server\share"), None);
    assert!(!is_absolute(WINDOWS, r"\\server"));

    let parts = take_apart(WINDOWS, r"\\?\C:\a/b\.\c");
    assert_eq!(parts.prefix, PathPrefix::VerbatimDrive('c'));
    assert_eq!(parts.parts, vec!["a/b", ".", "c"]);
    assert!(!same_path(WINDOWS, r"\\?\C:\a", r"C:\a"));
    assert_eq!(
        take_apart(WINDOWS, r"\\?\UNC\server\share\a").prefix,
        PathPrefix::VerbatimShare("server".to_owned(), "share".to_owned())
    );
    assert_eq!(
        take_apart(WINDOWS, r"\\?\volume\a").prefix,
        PathPrefix::Verbatim("volume".to_owned())
    );
    assert_eq!(
        take_apart(WINDOWS, r"\\.\COM1").prefix,
        PathPrefix::Device("COM1".to_owned())
    );
    assert!(is_absolute(WINDOWS, r"\\?\C:\a"));
    assert_eq!(join(WINDOWS, r"\\?\C:\a/", "b"), r"\\?\C:\a/\b");
}

#[test]
fn a_path_lies_in_another_by_whole_parts() {
    assert!(path_lies_in(UNIX, "/a/b/c", "/a/b"));
    assert!(path_lies_in(UNIX, "/a/b", "/a/b/"));
    assert!(!path_lies_in(UNIX, "/a/bc", "/a/b"));
    assert!(!path_lies_in(UNIX, "a/b", "/a"));
}

#[test]
fn the_innermost_bundle_is_found() {
    assert_eq!(
        enclosing_app_bundle("/Applications/ChatGPT.app/Contents/MacOS/ChatGPT").as_deref(),
        Some("/Applications/ChatGPT.app")
    );
    assert_eq!(
        enclosing_app_bundle("/A/Out.app/Contents/In.app/x").as_deref(),
        Some("/A/Out.app/Contents/In.app")
    );
    assert_eq!(enclosing_app_bundle("/usr/bin/codex"), None);
    assert_eq!(enclosing_app_bundle("/a/.app/x"), None);
}

#[test]
fn identifiers_are_written_in_groups() {
    assert_eq!(
        write_id(0x0123_4567_89ab_cdef_0123_4567_89ab_cdef),
        "01234567-89ab-cdef-0123-456789abcdef"
    );
    let id = new_id();
    assert_ne!(id, 0);
    assert_ne!(id, new_id());
    assert_eq!(
        write_id(id),
        uuid::Uuid::from_u128(id).hyphenated().to_string()
    );
    assert_eq!(uuid::Uuid::from_u128(id).get_version_num(), 4);
}

#[test]
fn texts_behave_as_those_of_the_language() {
    for text in ["", " a b ", "\u{3000}x\u{a0}", "\t\r\n", "名 字"] {
        assert_eq!(trim_text(text), text.trim());
        assert_eq!(
            split_words(text),
            text.split_whitespace().collect::<Vec<_>>()
        );
    }
    for c in '\u{0}'..='\u{ffff}' {
        let text = c.to_string();
        assert_eq!(trim_text(&text), text.trim(), "{:x}", c as u32);
    }
    assert!(same_ignoring_case("AbC", "aBc"));
    assert!(!same_ignoring_case("Ä", "ä"));
    assert!(contains_text("hello", "ell"));
    assert!(contains_text("hello", ""));
    assert!(!contains_text("hello", "elo"));
    assert!(starts_with_text("hello", "he"));
    assert!(ends_with_text("hello", "lo"));
    assert!(!ends_with_text("lo", "hello"));
    assert_eq!(take_chars("名字表", 2), "名字");
    assert_eq!(take_chars("a", 5), "a");
    assert!(text_sorts_before("a", "ab"));
    assert!(text_sorts_before("Z", "a"));
    assert!(!text_sorts_before("a", "a"));
}

#[test]
fn numbers_are_written_and_read() {
    for n in [0, 7, 10, 4_294_967_296, u128::MAX] {
        assert_eq!(digits_text(n), n.to_string());
    }
    for n in [0, -1, i64::MIN, i64::MAX] {
        assert_eq!(decimal_text(n), n.to_string());
    }
    for text in ["0", "12", "+7", "-1", "", "+", "4294967295", "4294967296", "1a", "007", "99999999999"] {
        assert_eq!(parse_u32(text), text.parse::<u32>().ok(), "{text}");
    }
}
