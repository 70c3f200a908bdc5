use lesswrong_sequences_highlights_epub::text::{
    char_is_whitespace, chars_of, contains, push_decimal, push_hex, starts_with, text_after_last,
    trim,
};

#[test]
fn trim_removes_white_space_at_both_ends_only() {
    assert_eq!(trim("  a b  "), "a b");
    assert_eq!(trim("\n\t x"), "x");
    assert_eq!(trim("x \r\n"), "x");
    assert_eq!(trim("x"), "x");
    assert_eq!(trim(""), "");
    assert_eq!(trim(" \t\n"), "");
    assert_eq!(trim("\u{a0}é \u{2028}"), "é");
    assert_eq!(trim("\u{feff}x"), "\u{feff}x");
}

#[test]
fn trim_agrees_with_the_standard_library() {
    for s in ["", " ", "a", " a", "a ", "  ab  c \u{3000}", "\u{1680}\u{85}z\u{205f}", "_ _"] {
        assert_eq!(trim(s), s.trim());
        assert_eq!(trim(&trim(s)), trim(s));
    }
}

#[test]
fn starts_with_compares_characters() {
    assert!(starts_with("https://x", "http"));
    assert!(starts_with("http", "http"));
    assert!(starts_with("anything", ""));
    assert!(starts_with("", ""));
    assert!(!starts_with("htt", "http"));
    assert!(!starts_with("HTTP://x", "http"));
    assert!(!starts_with(" http", "http"));
    assert!(starts_with("éa", "é"));
}

#[test]
fn contains_finds_a_text_anywhere() {
    assert!(contains("svg", "svg"));
    assert!(contains("xsvg", "svg"));
    assert!(contains("svgx", "svg"));
    assert!(contains("ssvg", "svg"));
    assert!(contains("svsvg", "svg"));
    assert!(contains("abc", ""));
    assert!(contains("", ""));
    assert!(!contains("", "svg"));
    assert!(!contains("sv", "svg"));
    assert!(!contains("s.vg", "svg"));
    assert!(!contains("SVG", "svg"));
}

#[test]
fn text_after_the_last_separator() {
    assert_eq!(text_after_last("a.b.c", '.'), "c");
    assert_eq!(text_after_last("abc", '.'), "abc");
    assert_eq!(text_after_last("abc.", '.'), "");
    assert_eq!(text_after_last(".abc", '.'), "abc");
    assert_eq!(text_after_last("", '.'), "");
    assert_eq!(text_after_last("é.ü", '.'), "ü");
}

#[test]
fn characters_of_a_text() {
    assert_eq!(chars_of("aé"), vec!['a', 'é']);
    assert!(chars_of("").is_empty());
}

#[test]
fn decimal_notation() {
    let mut out = String::from("n=");
    push_decimal(&mut out, 0);
    push_decimal(&mut out, 7);
    push_decimal(&mut out, 10);
    push_decimal(&mut out, 1234567890);
    assert_eq!(out, "n=07101234567890");
    let mut out = String::new();
    push_decimal(&mut out, u64::MAX);
    assert_eq!(out, "18446744073709551615");
}

#[test]
fn hexadecimal_notation() {
    let bytes = vec![0x00, 0x0a, 0xa0, 0xff, 0x10];
    let mut out = String::from("#");
    push_hex(&mut out, &bytes, 4);
    assert_eq!(out, "#000aa0ff");
    push_hex(&mut out, &bytes, 0);
    assert_eq!(out, "#000aa0ff");
    let mut all = String::new();
    push_hex(&mut all, &bytes, 5);
    assert_eq!(all, "000aa0ff10");
}

#[test]
fn white_space_is_what_the_standard_library_takes_for_it() {
    let mut code: u32 = 0;
    while code <= 0x10FFFF {
        if let Some(c) = char::from_u32(code) {
            assert_eq!(char_is_whitespace(c), c.is_whitespace(), "U+{:04X}", code);
        }
        code += 1;
    }
}

#[test]
fn white_space_characters() {
    for c in ['\t', '\n', '\u{b}', '\u{c}', '\r', ' ', '\u{85}', '\u{a0}', '\u{1680}', '\u{2000}',
        '\u{200a}', '\u{2028}', '\u{2029}', '\u{202f}', '\u{205f}', '\u{3000}']
    {
        assert!(char_is_whitespace(c));
    }
    for c in ['a', '0', '_', '\u{8}', '\u{e}', '\u{1f}', '\u{200b}', '\u{feff}', '\u{180e}', '\u{2060}'] {
        assert!(!char_is_whitespace(c));
    }
}
