use crabwatch::paths::join_path;
use crabwatch::text::{decimal_string, str_le, trim, trim_end};

#[test]
fn decimal_matches_display() {
    for n in [0usize, 7, 10, 99, 100, 12345, usize::MAX] {
        assert_eq!(decimal_string(n), n.to_string());
    }
}

#[test]
fn trimming_matches_str() {
    for s in ["", "  ", " a b ", "\u{A0}x\u{3000}", "x\n", "\tx", "越"] {
        assert_eq!(trim(s), s.trim());
        assert_eq!(trim_end(s), s.trim_end());
    }
}

#[test]
fn string_order_matches_str() {
    let words = ["", "a", "b", "ab", "abc", "é", "z", "Z", "aa"];
    for a in words {
        for b in words {
            assert_eq!(str_le(a, b), a <= b, "{a} <= {b}");
        }
    }
}

#[test]
fn joining_paths() {
    assert_eq!(join_path(b"/a", b"b"), b"/a/b");
    assert_eq!(join_path(b"/a/", b"b"), b"/a/b");
    assert_eq!(join_path(b"", b"b"), b"b");
    assert_eq!(join_path(b"/a", b"/etc"), b"/etc");
    assert_eq!(join_path(b"/\xff", b"b"), b"/\xff/b");
    for (base, part) in [("/a", "b"), ("/a/", "b"), ("", "b"), ("/a", "/etc"), ("a", "")] {
        assert_eq!(
            std::path::PathBuf::from(String::from_utf8(join_path(base.as_bytes(), part.as_bytes())).unwrap()),
            std::path::Path::new(base).join(part)
        );
    }
}

#[test]
fn whitespace_table_matches_char() {
    for c in (0..=0x10FFFFu32).filter_map(char::from_u32) {
        let s = c.to_string();
        assert_eq!(trim(&s).is_empty(), c.is_whitespace(), "{:?}", c);
    }
}
