use lsp_broker::text::{
    chars_of, contains, copy_texts, decimal_text, has_at, is_space, parse_usize, same_text,
    strip_start, text_of, trim,
};

fn chars(s: &str) -> Vec<char> {
    s.chars().collect()
}

#[test]
fn texts_are_taken_apart_and_put_together() {
    assert_eq!(chars_of("a\u{e9}\u{1f600}"), vec!['a', '\u{e9}', '\u{1f600}']);
    assert_eq!(text_of(&['a', '\u{e9}']), "a\u{e9}");
    assert!(same_text("a\u{e9}", "a\u{e9}"));
    assert!(!same_text("a", "ab"));
    assert!(!same_text("a", "b"));
    assert_eq!(copy_texts(&vec!["x".to_string(), "y".to_string()]), vec!["x", "y"]);
}

#[test]
fn white_space_is_what_unicode_says() {
    for n in 0..=0x10ffffu32 {
        if let Some(c) = char::from_u32(n) {
            assert_eq!(is_space(c), c.is_whitespace(), "{:x}", n);
        }
    }
}

#[test]
fn trimming_agrees_with_the_standard_library() {
    for s in ["", " ", "a", " a b \r\n", "\u{a0}x\u{3000}", "\t\t"] {
        assert_eq!(text_of(trim(&chars(s))), s.trim());
    }
}

#[test]
fn numbers_are_read_as_the_standard_library_reads_them() {
    for s in [
        "", "0", "7", "007", "+", "+5", "++5", "-1", "1 ", "1a", "a", "18446744073709551615",
        "18446744073709551616", "99999999999999999999999999", "\u{661}",
    ] {
        assert_eq!(parse_usize(&chars(s)), s.parse::<usize>().ok(), "{}", s);
    }
}

#[test]
fn numbers_are_written_as_the_standard_library_writes_them() {
    for n in [0usize, 1, 9, 10, 11, 99, 100, 12345, usize::MAX] {
        assert_eq!(decimal_text(n), n.to_string());
        assert_eq!(parse_usize(&chars(&decimal_text(n))), Some(n));
    }
}

#[test]
fn words_are_found() {
    assert!(contains(&chars("a python b"), "python"));
    assert!(contains(&chars("sh"), "sh"));
    assert!(!contains(&chars("s h"), "sh"));
    assert!(contains(&chars(""), ""));
    assert!(has_at(&chars("abc"), &chars("bc"), 1));
    assert!(!has_at(&chars("abc"), &chars("bc"), 2));
    assert!(!has_at(&chars("abc"), &chars("c"), 9));
}

#[test]
fn a_repeated_start_is_stripped() {
    for s in ["file:///a", "file://file:///a", "/a", "", "file:/", "xfile://"] {
        assert_eq!(text_of(strip_start(&chars(s), "file://")), s.trim_start_matches("file://"));
    }
}
