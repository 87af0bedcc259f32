use speakeasy::text::{chars_of, concatenated, count_words, decimal_string, string_of, trim_str};

#[test]
fn trim_removes_unicode_whitespace() {
    assert_eq!(trim_str(" \t\n hello world \u{3000}\u{a0}"), "hello world");
    assert_eq!(trim_str("   "), "");
    assert_eq!(trim_str("x"), "x");
}

#[test]
fn trim_agrees_with_std() {
    for s in ["", " a ", "\u{2028}b\u{85}", "a b", "\u{200b}x\u{200b}", "\u{1680}\u{205f}y"] {
        assert_eq!(trim_str(s), s.trim());
    }
}

#[test]
fn word_count_agrees_with_std() {
    for s in ["", "a", " a b  c ", "\u{3000}x\u{2003}y", "tab\tseparated\nlines"] {
        assert_eq!(count_words(s) as usize, s.split_whitespace().count());
    }
}

#[test]
fn decimal_notation() {
    assert_eq!(decimal_string(0), "0");
    assert_eq!(decimal_string(7), "7");
    assert_eq!(decimal_string(10), "10");
    assert_eq!(decimal_string(u64::MAX), u64::MAX.to_string());
}

#[test]
fn chars_round_trip() {
    let s = "naïve ☕ text";
    assert_eq!(string_of(&chars_of(s)), s);
    assert_eq!(concatenated("ab", "çd"), "abçd");
}
