use clip_extractor::text::{
    is_whitespace, last_line, push_decimal, push_padded_decimal, starts_with, trim,
};

#[test]
fn whitespace_is_unicode_white_space() {
    let mut u: u32 = 0;
    while u <= 0x10ffff {
        if let Some(c) = char::from_u32(u) {
            assert_eq!(is_whitespace(c), c.is_whitespace(), "U+{u:04X}");
        }
        u += 1;
    }
}

#[test]
fn trims_both_ends() {
    for s in ["", " ", "a", " a ", "\t a b \u{3000}", "no", "  é\u{a0}", "\n\n"] {
        assert_eq!(trim(s), s.trim());
    }
    assert_eq!(trim(&trim("  x  ")), "x");
}

#[test]
fn prefixes() {
    assert!(starts_with("https://a", "https://"));
    assert!(!starts_with("http:/", "http://"));
    assert!(starts_with("x", ""));
    assert!(!starts_with("äb", "äc"));
}

#[test]
fn last_lines_as_in_std() {
    for s in [
        "", "a", "a\n", "a\nb", "a\nb\n", "a\r\nb\r\n", "a\r\n\r\n", "\n", "\r\n", "a\n\n", "a\r", "x\ny\r",
        "\r", "\n\r\n",
    ] {
        assert_eq!(last_line(s).as_deref(), s.lines().last(), "{s:?}");
    }
}

#[test]
fn decimal_digits() {
    for n in [0u128, 7, 10, 99, 100, 12345678901234567890, u128::MAX] {
        let mut s = String::from("n=");
        push_decimal(&mut s, n);
        assert_eq!(s, format!("n={n}"));
    }
    let mut s = String::new();
    push_padded_decimal(&mut s, 42, 5);
    assert_eq!(s, "00042");
    let mut t = String::new();
    push_padded_decimal(&mut t, 12345, 3);
    assert_eq!(t, "345");
}
