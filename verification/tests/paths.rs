//! Paths of Unix and Windows.

use std::path::Path;

use agentmux::paths::{file_extension, file_name, file_stem, has_extension, is_path, join, parent};

const UNIX_PATHS: [&str; 34] = [
    "", "/", "//", ".", "..", "./", "a", "a/", "a/.", "a/..", "a/./", "a//", "/a", "/a/", "/a/.", "/./a", "./a",
    "a/b", "a//b", "a/./b", "/a//b/", "a\\b", "C:\\a", "C:a", "\\\\s\\x", "/a/b\\c.txt", ".x", "a.x", "a.", "a.b.c",
    "/a/.x/", "..a", "a/...", "/..",
];

#[test]
fn unix_paths_are_read_as_the_system_reads_them() {
    for path in UNIX_PATHS {
        let system = Path::new(path);
        let name = file_name(path, false);
        assert_eq!(name, system.file_name().and_then(|part| part.to_str()).map(str::to_owned), "{path}");
        let stem = name.as_deref().map(file_stem);
        assert_eq!(stem, system.file_stem().and_then(|part| part.to_str()).map(str::to_owned), "{path}");
        let extension = name.as_deref().and_then(file_extension);
        assert_eq!(extension, system.extension().and_then(|part| part.to_str()).map(str::to_owned), "{path}");
        let above = system.parent().and_then(Path::to_str).map(str::to_owned);
        assert_eq!(parent(path, false), above, "{path}");
        let leads = system.components().count() > 1 || system.is_absolute();
        assert_eq!(is_path(path, false), leads, "{path}");
        for below in ["x", "x/y", "/x", ".", ""] {
            assert_eq!(Some(join(path, below, false).as_str()), system.join(below).to_str(), "{path}");
        }
    }
}

#[test]
fn windows_paths_have_both_separators() {
    assert_eq!(file_name(r"C:\work/a\b.txt", true).as_deref(), Some("b.txt"));
    assert_eq!(file_name(r"a\b\.\", true).as_deref(), Some("b"));
    assert_eq!(file_name(r"a\..", true), None);
    assert!(has_extension(r"x\a.jsonl", "jsonl", true));
    assert!(!has_extension(r"a\.jsonl", "jsonl", true));
    assert!(has_extension(r"a\.jsonl", "jsonl", false));
    assert_eq!(parent(r"C:\a\b", true).as_deref(), Some(r"C:\a"));
    assert_eq!(parent(r"C:\a", true).as_deref(), Some(r"C:\"));
    assert_eq!(parent(r"C:\", true), None);
}

#[test]
fn windows_prefixes_are_no_names() {
    assert_eq!(file_name("C:", true), None);
    assert_eq!(file_name(r"C:\", true), None);
    assert_eq!(file_name("C:codex", true).as_deref(), Some("codex"));
    assert_eq!(file_name("1:codex", true).as_deref(), Some("1:codex"));
    assert_eq!(file_name(r"\\server\share", true), None);
    assert_eq!(file_name(r"\\server\share\", true), None);
    assert_eq!(file_name(r"\\server\share\x", true).as_deref(), Some("x"));
    assert_eq!(file_name("//server/share/x", true).as_deref(), Some("x"));
    assert_eq!(file_name(r"\\server", true).as_deref(), Some("server"));
    assert_eq!(file_name(r"\\.\COM42", true), None);
    assert_eq!(file_name(r"\\?\C:\a/b", true).as_deref(), Some("a/b"));
    assert_eq!(file_name(r"\\?\C:\a\.", true), None);
    assert_eq!(file_name(r"\\?\C:", true), None);
    assert_eq!(file_name(r"\\?\pictures", true), None);
    assert_eq!(file_name(r"\\?\UNC\server\share", true), None);
    assert_eq!(file_name(r"\\?\UNC\server\share\x", true).as_deref(), Some("x"));
    assert_eq!(parent(r"\\server\share\x", true).as_deref(), Some(r"\\server\share\"));
    assert_eq!(parent("C:codex", true).as_deref(), Some("C:"));
}

#[test]
fn windows_paths_are_told_from_bare_names() {
    for path in [r"a\b", "a/b", r"\a", "C:a", r"C:\", "C:.", r"\\server\share", r"\\.\x", r"\\?\x", r".\a"] {
        assert!(is_path(path, true), "{path}");
    }
    for path in ["", "a", r"a\", r"a\.", ".", r"\", "/", r"\\", "C:"] {
        assert!(!is_path(path, true), "{path}");
    }
}

#[test]
fn windows_joins_with_its_own_separator() {
    assert_eq!(join(r"C:\a", "b", true), r"C:\a\b");
    assert_eq!(join(r"C:\a\", "b", true), r"C:\a\b");
    assert_eq!(join("C:/a/", "b", true), "C:/a/b");
    assert_eq!(join("C:", "b", true), "C:b");
    assert_eq!(join("", "b", true), "b");
    assert_eq!(join("a", "", true), r"a\");
    assert_eq!(join(r"C:\a", r"\b", true), r"C:\b");
    assert_eq!(join(r"C:\a", r"D:b", true), "D:b");
    assert_eq!(join(r"\\s\x", "b", true), r"\\s\x\b");
    assert_eq!(join(r"\\?\C:\a\\b\", "c", true), r"\\?\C:\a\b\c");
    assert_eq!(join(r"\\?\C:", "c", true), r"\\?\C:\c");
}
