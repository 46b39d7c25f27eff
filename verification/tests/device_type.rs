use atasmart_exporter::device_type::{parse_device_type, white_space, DIRECT_ACCESS, OPTICAL};

#[test]
fn classifier_of_a_disk_is_read() {
    assert_eq!(parse_device_type("0\n"), Some(0));
    assert_eq!(parse_device_type("0\n"), Some(DIRECT_ACCESS));
}

#[test]
fn classifier_of_an_optical_drive_is_read() {
    assert_eq!(parse_device_type("5\n"), Some(5));
    assert_eq!(parse_device_type("5\n"), Some(OPTICAL));
}

#[test]
fn white_space_around_the_number_is_ignored() {
    assert_eq!(parse_device_type("  \t12 \r\n"), Some(12));
    assert_eq!(parse_device_type("\u{a0}7\u{3000}"), Some(7));
    assert_eq!(parse_device_type("\u{2028}\u{85}13\u{1680}\u{205f}"), Some(13));
    assert_eq!(parse_device_type("3"), Some(3));
}

#[test]
fn white_space_inside_the_number_is_refused() {
    assert_eq!(parse_device_type("1 2"), None);
    assert_eq!(parse_device_type("- 1"), None);
}

#[test]
fn a_sign_is_accepted() {
    assert_eq!(parse_device_type("+0"), Some(0));
    assert_eq!(parse_device_type("-0"), Some(0));
    assert_eq!(parse_device_type("+17"), Some(17));
    assert_eq!(parse_device_type("-17"), Some(-17));
}

#[test]
fn a_sign_alone_is_refused() {
    assert_eq!(parse_device_type("+"), None);
    assert_eq!(parse_device_type("-"), None);
    assert_eq!(parse_device_type("+-1"), None);
    assert_eq!(parse_device_type("--1"), None);
    assert_eq!(parse_device_type("1-"), None);
}

#[test]
fn nothing_is_refused() {
    assert_eq!(parse_device_type(""), None);
    assert_eq!(parse_device_type("\n"), None);
    assert_eq!(parse_device_type("   "), None);
}

#[test]
fn other_characters_are_refused() {
    assert_eq!(parse_device_type("disk"), None);
    assert_eq!(parse_device_type("0x0"), None);
    assert_eq!(parse_device_type("5a"), None);
    assert_eq!(parse_device_type("1.0"), None);
    assert_eq!(parse_device_type("\u{0661}"), None);
    assert_eq!(parse_device_type("\u{200b}1"), None);
}

#[test]
fn leading_zeros_do_not_count() {
    assert_eq!(parse_device_type("000000000000000000000005"), Some(5));
    assert_eq!(parse_device_type("-000000000000000000000000"), Some(0));
}

#[test]
fn the_limits_of_thirty_two_bits_hold() {
    assert_eq!(parse_device_type("2147483647"), Some(i32::MAX));
    assert_eq!(parse_device_type("2147483648"), None);
    assert_eq!(parse_device_type("+2147483648"), None);
    assert_eq!(parse_device_type("-2147483648"), Some(i32::MIN));
    assert_eq!(parse_device_type("-2147483649"), None);
    assert_eq!(parse_device_type("99999999999999999999999999"), None);
    assert_eq!(parse_device_type("-99999999999999999999999999"), None);
    assert_eq!(parse_device_type("21474836470"), None);
}

#[test]
fn an_overflow_before_a_bad_character_is_refused_too() {
    assert_eq!(parse_device_type("99999999999x"), None);
}

#[test]
fn parsing_agrees_with_the_standard_library() {
    let texts = vec![
        "0\n", "0", "5\n", " 7", "7 ", "\t\n 42 \r\n", "", " ", "+", "-", "+1", "-1", "++1", "1+",
        "2147483647", "2147483648", "-2147483648", "-2147483649", "00012", "1_000", "12a", "a12",
        "\u{a0}3", "3\u{2003}", "\u{feff}3", "\u{180e}3", "4294967296", "18446744073709551616",
        "0\n\n", "\n0", "٣", "1e3", " - 1", "0 0",
    ];
    for text in texts {
        assert_eq!(parse_device_type(text), text.trim().parse::<i32>().ok(), "{:?}", text);
    }
}

#[test]
fn white_space_agrees_with_the_standard_library() {
    let mut code: u32 = 0;
    while code <= 0x10ffff {
        if let Some(c) = char::from_u32(code) {
            assert_eq!(white_space(c), c.is_whitespace(), "U+{:04X}", code);
        }
        code += 1;
    }
}

#[test]
fn the_known_white_space_is_told() {
    for c in [' ', '\t', '\n', '\u{b}', '\u{c}', '\r', '\u{85}', '\u{a0}', '\u{1680}', '\u{2000}',
        '\u{200a}', '\u{2028}', '\u{2029}', '\u{202f}', '\u{205f}', '\u{3000}']
    {
        assert!(white_space(c));
    }
    for c in ['0', 'a', '\u{8}', '\u{e}', '\u{1f}', '\u{200b}', '\u{180e}', '\u{feff}', '\u{2060}'] {
        assert!(!white_space(c));
    }
}
