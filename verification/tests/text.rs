use qaid::text::{i64_text, is_blank_text, parse_i64, text_eq, trim, usize_text};

#[test]
fn trim_removes_unicode_whitespace_at_both_ends() {
    assert_eq!(trim("  a b \t\n"), "a b");
    assert_eq!(trim("\u{3000}x\u{a0}"), "x");
    assert_eq!(trim("   "), "");
    assert_eq!(trim(""), "");
    assert!(is_blank_text(" \u{2028}\t"));
    assert!(!is_blank_text(" .  "));
}

#[test]
fn i64_parsing_follows_the_decimal_grammar() {
    assert_eq!(parse_i64("42"), Some(42));
    assert_eq!(parse_i64("+5"), Some(5));
    assert_eq!(parse_i64("-0"), Some(0));
    assert_eq!(parse_i64("-9223372036854775808"), Some(i64::MIN));
    assert_eq!(parse_i64("9223372036854775807"), Some(i64::MAX));
    assert_eq!(parse_i64("9223372036854775808"), None);
    assert_eq!(parse_i64("123456789012345678901234567890"), None);
    assert_eq!(parse_i64(""), None);
    assert_eq!(parse_i64("+"), None);
    assert_eq!(parse_i64(" 1"), None);
    assert_eq!(parse_i64("1.0"), None);
    assert_eq!(parse_i64("--1"), None);
}

#[test]
fn numbers_render_in_decimal_and_read_back() {
    assert_eq!(usize_text(0), "0");
    assert_eq!(usize_text(1907), "1907");
    assert_eq!(i64_text(-12), "-12");
    for v in [0i64, 7, -7, 1000, i64::MAX, i64::MIN] {
        assert_eq!(parse_i64(&i64_text(v)), Some(v));
        assert_eq!(i64_text(v), v.to_string());
    }
}

#[test]
fn text_equality_compares_characters() {
    assert!(text_eq("abc", "abc"));
    assert!(!text_eq("abc", "ABC"));
}

#[test]
fn trim_agrees_with_str_trim_on_every_character() {
    for code in 0u32..0x11000 {
        if let Some(c) = char::from_u32(code) {
            let t = format!("{c}a{c}");
            assert_eq!(trim(&t), t.trim(), "character {:#x}", code);
        }
    }
}

#[test]
fn i64_parsing_agrees_with_str_parse() {
    let samples = [
        "0", "00", "+0", "-", "+-1", "12a", "a12", "٣", "1_000", "0x10", " 7", "7 ", "-00012",
        "9223372036854775807", "-9223372036854775809", "99999999999999999999", "", "+", "1e3",
    ];
    for t in samples {
        assert_eq!(parse_i64(t), t.parse::<i64>().ok(), "text {:?}", t);
    }
}
