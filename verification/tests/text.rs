//! Texts, against what the standard library makes of them.
use transcribe_bot::text;

#[test]
fn characters_are_classed_as_usual() {
    for code in 0..=0x10FFFFu32 {
        if let Some(c) = char::from_u32(code) {
            assert_eq!(text::is_whitespace(c), c.is_whitespace(), "{code:x}");
            assert_eq!(text::is_control(c), c.is_control(), "{code:x}");
            if code < 0x300 {
                assert_eq!(text::is_ascii_whitespace(c), c.is_ascii_whitespace(), "{code:x}");
                assert_eq!(text::is_ascii_alphanumeric(c), c.is_ascii_alphanumeric(), "{code:x}");
                assert_eq!(text::to_ascii_lower(c), c.to_ascii_lowercase(), "{code:x}");
            }
        }
    }
}

const SAMPLES: [&str; 12] = [
    "",
    " ",
    "a",
    " a b ",
    "\u{3000}x\u{2003}",
    "aaa",
    "abab",
    "a/b//c/",
    "/",
    "ÄÖ ü",
    "\n\r\n",
    "x\u{85}",
];

#[test]
fn texts_are_cut_as_usual() {
    for s in SAMPLES {
        assert_eq!(text::trim(s), s.trim());
        assert_eq!(text::trim_end_char(s, '/'), s.trim_end_matches('/'));
        assert_eq!(text::to_ascii_lowercase(s), s.to_ascii_lowercase());
        assert_eq!(text::str_split(s, '/'), s.split('/').collect::<Vec<_>>());
        assert_eq!(text::is_empty(s), s.is_empty());
        for part in ["a", "ab", "/", " "] {
            assert_eq!(text::str_contains(s, part), s.contains(part));
            assert_eq!(text::str_starts_with(s, part), s.starts_with(part));
            assert_eq!(text::str_ends_with(s, part), s.ends_with(part));
            assert_eq!(text::strip_prefix(s, part).as_deref(), s.strip_prefix(part));
            assert_eq!(text::strip_suffix(s, part).as_deref(), s.strip_suffix(part));
            assert_eq!(text::replace(s, part, "<>"), s.replace(part, "<>"));
            let expected = s.split_once(part).map(|(a, b)| (a.to_string(), b.to_string()));
            assert_eq!(text::str_split_once(s, part), expected);
        }
        for other in SAMPLES {
            assert_eq!(text::same(s, other), s == other);
            assert_eq!(text::eq_ignore_ascii_case(s, other), s.eq_ignore_ascii_case(other));
        }
    }
}

#[test]
fn numbers_are_written_and_read_as_usual() {
    for n in [0u64, 7, 10, 99, 100, u64::MAX] {
        assert_eq!(text::u64_text(n), n.to_string());
        assert_eq!(text::parse_u64(&n.to_string()), Some(n));
    }
    for n in [0i64, -1, i64::MIN, i64::MAX] {
        assert_eq!(text::i64_text(n), n.to_string());
    }
    for s in ["", "+", "+7", "-1", "007", "1x", " 1", "18446744073709551616", "٣"] {
        assert_eq!(text::parse_u64(s), s.parse::<u64>().ok(), "{s}");
    }
}

#[test]
fn texts_are_joined_and_shortened() {
    let list = vec!["a".to_string(), String::new(), "b".to_string()];
    assert_eq!(text::join(&list, ", "), list.join(", "));
    assert_eq!(text::join(&[], ", "), "");
    assert_eq!(text::truncate_chars("äöü", 2), "äö");
    assert_eq!(text::truncate_chars("äöü", 3), "äöü");
    assert_eq!(text::trim_nonblank(Some("  ".to_string())), None);
    assert_eq!(text::trim_nonblank(Some(" x ".to_string())).as_deref(), Some("x"));
}
