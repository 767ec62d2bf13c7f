use umbral::text::{chars_of, contains, string_from_chars, trim, white_space};

#[test]
fn trim_removes_surrounding_whitespace() {
    assert_eq!(trim("  hi there \n"), "hi there");
    assert_eq!(trim("\u{3000}x\u{a0}"), "x");
    assert_eq!(trim(""), "");
    assert_eq!(trim(" \t "), "");
    assert_eq!(trim("a b"), "a b");
}

#[test]
fn trim_agrees_with_std() {
    for s in ["  a ", "\u{85}b\u{2028}", "\u{200b}c", "\r\n d \u{205f}", "x"] {
        assert_eq!(trim(s), s.trim());
    }
}

#[test]
fn whitespace_agrees_with_std() {
    for c in ['\t', '\n', ' ', '\u{85}', '\u{a0}', '\u{1680}', '\u{2000}', '\u{200a}', '\u{200b}', '\u{3000}', 'a', '_'] {
        assert_eq!(white_space(c), c.is_whitespace());
    }
}

#[test]
fn contains_finds_substrings() {
    assert!(contains("xxEMAIL_EXISTSyy", "EMAIL_EXISTS"));
    assert!(contains("abc", ""));
    assert!(!contains("ab", "abc"));
    assert!(!contains("EMAIL_EXIST", "EMAIL_EXISTS"));
}

#[test]
fn chars_round_trip() {
    let v = chars_of("añb");
    assert_eq!(v, vec!['a', '\u{f1}', 'b']);
    assert_eq!(string_from_chars(&v), "añb");
}
