//! Texts and paths.

use lspd::path::{absolute, extension_of, file_name_of, file_stem_of, join_path, segments_of, System};
use lspd::text::{has, join, lines, pad, read_number, same, split_on, trim, write_number};
use lspd::text_map::TextMap;

fn strings(v: &[&str]) -> Vec<String> {
    v.iter().map(|s| s.to_string()).collect()
}

#[test]
fn a_text_is_trimmed_like_any_other() {
    for s in ["", "  ", " a b ", "\u{a0}x\u{3000}", "\r\n\tx\u{85}", "ñ"] {
        assert_eq!(trim(s), s.trim());
    }
}

#[test]
fn lines_are_those_of_the_text() {
    for s in ["", "\n", "a", "a\n", "a\nb", "a\r\nb\r", "\n\n", "a\n\nb\n"] {
        assert_eq!(lines(s), s.lines().map(str::to_string).collect::<Vec<_>>(), "{s:?}");
    }
}

#[test]
fn pieces_are_split_and_joined() {
    assert_eq!(split_on("/a//b", '/'), strings(&["", "a", "", "b"]));
    assert_eq!(join(&strings(&["a", "b"]), ", "), "a, b");
    assert_eq!(join(&[], ", "), "");
    assert!(has(&strings(&["a", "b"]), "b") && !has(&strings(&["ab"]), "a"));
    assert!(same("añ", "añ") && !same("a", "b"));
}

#[test]
fn numbers_are_written_and_read() {
    assert_eq!(write_number(0, 10), "0");
    assert_eq!(write_number(u64::MAX, 10), u64::MAX.to_string());
    assert_eq!(write_number(0x1c8540, 16), "1c8540");
    for s in ["0", "007", "+7", "++7", "4294967295", "4294967296", "99999999999999999999", "", "+", "-1", "1 ", "١"] {
        assert_eq!(read_number(s), s.parse::<u32>().ok(), "{s:?}");
    }
    assert_eq!(pad("ñu", 4), format!("{:<4}", "ñu"));
    assert_eq!(pad("largo", 3), "largo");
}

#[test]
fn paths_are_read_like_any_other() {
    for p in ["/a/b.rs", "a.tar.gz", ".bashrc", "/", "", "a/", "a/.", "a/..", "..", "b.", "/x/.rs.y", "."] {
        let std = std::path::Path::new(p);
        let name = std.file_name().map(|s| s.to_string_lossy().to_string());
        let extension = std.extension().map(|s| s.to_string_lossy().to_string());
        let stem = std.file_stem().map(|s| s.to_string_lossy().to_string());
        assert_eq!(file_name_of(System::Unix, p), name, "{p:?}");
        assert_eq!(extension_of(System::Unix, p), extension, "{p:?}");
        assert_eq!(file_stem_of(System::Unix, p), stem, "{p:?}");
        assert_eq!(absolute(System::Unix, p), std.is_absolute(), "{p:?}");
    }
    for (a, b) in [("/ws", "a.rs"), ("/ws/", "a.rs"), ("", "a"), ("/ws", "/abs"), ("/ws", "")] {
        let std = std::path::Path::new(a).join(b);
        assert_eq!(join_path(System::Unix, a, b), std.to_string_lossy(), "{a:?} {b:?}");
    }
    assert_eq!(segments_of(System::Unix, "/a//b/./c"), strings(&["a", "b", "c"]));
}

#[test]
fn a_windows_path_has_drives_and_back_slashes() {
    let w = System::Windows;
    for (p, is_absolute) in [
        (r"C:\x\a.rs", true),
        ("c:/x", true),
        ("C:x", false),
        (r"\x", false),
        ("x", false),
        ("", false),
        (r"\\server\share", true),
        ("//server/share/x", true),
        (r"\\server", false),
        (r"\\?\C:\x", true),
        (r"\\.\COM1", true),
    ] {
        assert_eq!(absolute(w, p), is_absolute, "{p:?}");
    }
    assert_eq!(segments_of(w, r"C:\Users/u\.\ws\"), strings(&["Users", "u", "ws"]));
    assert_eq!(segments_of(w, r"\\?\C:\a\.\b/c"), strings(&["a", ".", "b/c"]));
    assert_eq!(segments_of(w, r"\\server\share\a"), strings(&["a"]));
    assert_eq!(segments_of(w, r"\\?\UNC\server\share\a"), strings(&["a"]));
    assert_eq!(segments_of(w, "C:a"), strings(&["a"]));
    assert_eq!(file_name_of(w, r"C:\"), None);
    assert_eq!(file_name_of(w, r"\\server\share"), None);
    assert_eq!(file_stem_of(w, r"C:\x\Persona.java").as_deref(), Some("Persona"));
    assert_eq!(extension_of(w, r"C:\x.y\a").as_deref(), None);
    assert_eq!(extension_of(System::Unix, r"C:\x.y\a").as_deref(), Some(r"y\a"));
}

#[test]
fn a_windows_path_is_joined() {
    let w = System::Windows;
    for (base, path, joined) in [
        (r"C:\ws", r"C:\x\a.rs", r"C:\x\a.rs"),
        (r"C:\ws", r"src\a.rs", r"C:\ws\src\a.rs"),
        ("C:/ws/", "a.rs", "C:/ws/a.rs"),
        (r"C:\ws", "D:a.rs", "D:a.rs"),
        (r"C:\ws", r"\a.rs", r"C:\a.rs"),
        ("C:", "a.rs", "C:a.rs"),
        ("", "a.rs", "a.rs"),
        (r"\\?\C:\ws", "src/../b/./a.rs", r"\\?\C:\ws\b\a.rs"),
        (r"\\?\C:\ws", r"\a.rs", r"\\?\C:\a.rs"),
        (r"\\?\C:\ws", r"..\..\..\a.rs", r"\\?\C:\a.rs"),
        (r"\\?\C:\ws", "", r"\\?\C:\ws\"),
    ] {
        assert_eq!(join_path(w, base, path), joined, "{base:?} {path:?}");
    }
}

#[test]
fn a_map_keeps_one_value_for_each_text() {
    let mut m: TextMap<u32> = TextMap::new();
    m.insert("a", 1);
    m.insert("b", 2);
    m.insert("a", 3);
    assert_eq!(m.get("a"), Some(&3));
    assert_eq!(m.keys(), strings(&["a", "b"]));
    m.remove("a");
    m.remove("x");
    assert_eq!(m.get("a"), None);
    assert_eq!(m.get("b"), Some(&2));
}
