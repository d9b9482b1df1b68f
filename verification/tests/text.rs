use matrix_ircd::text::{strip, to_decimal, trim, trim_end, white_space};

#[test]
fn white_space_is_the_unicode_property() {
    for u in 0..=0x10ffffu32 {
        if let Some(c) = char::from_u32(u) {
            assert_eq!(white_space(c), c.is_whitespace());
        }
    }
}

#[test]
fn trims_as_std_does() {
    for s in ["", " ", "a", " a ", "\u{3000}a b\r\n", "\t\u{85}x\u{a0}"] {
        assert_eq!(trim_end(s), s.trim_end());
        assert_eq!(trim(s), s.trim());
    }
}

#[test]
fn strips_reserved_characters() {
    assert_eq!(strip("@alice:example.com"), "alice:example.com");
    assert_eq!(strip("A b\t\"c\"+#\u{7f}\u{0}d"), "Abcd");
    assert_eq!(strip(""), "");
}

#[test]
fn writes_decimals() {
    assert_eq!(to_decimal(0), "0");
    assert_eq!(to_decimal(10), "10");
    assert_eq!(to_decimal(u128::MAX), u128::MAX.to_string());
}
