use ui::scale::{clamp_font_size, parse_font_size, DEFAULT_FONT_SIZE_U32, MAX_FONT_SIZE, MIN_FONT_SIZE};

#[test]
fn clamp_font_size_bounds() {
    assert_eq!(clamp_font_size(0), MIN_FONT_SIZE);
    assert_eq!(clamp_font_size(7), 8);
    assert_eq!(clamp_font_size(8), 8);
    assert_eq!(clamp_font_size(DEFAULT_FONT_SIZE_U32), 12);
    assert_eq!(clamp_font_size(30), 30);
    assert_eq!(clamp_font_size(31), MAX_FONT_SIZE);
    assert_eq!(clamp_font_size(u32::MAX), 30);
    assert_eq!(clamp_font_size(clamp_font_size(100)), clamp_font_size(100));
}

#[test]
fn parse_font_size_accepts_whole_numbers() {
    assert_eq!(parse_font_size("14"), Some(14));
    assert_eq!(parse_font_size("  14\t"), Some(14));
    assert_eq!(parse_font_size("+9"), Some(9));
    assert_eq!(parse_font_size("007"), Some(7));
    assert_eq!(parse_font_size("4294967295"), Some(u32::MAX));
    assert_eq!(parse_font_size("\u{3000}12\u{A0}"), Some(12));
}

#[test]
fn parse_font_size_rejects_everything_else() {
    assert_eq!(parse_font_size(""), None);
    assert_eq!(parse_font_size("   "), None);
    assert_eq!(parse_font_size("+"), None);
    assert_eq!(parse_font_size("-3"), None);
    assert_eq!(parse_font_size("1 2"), None);
    assert_eq!(parse_font_size("12px"), None);
    assert_eq!(parse_font_size("1.5"), None);
    assert_eq!(parse_font_size("4294967296"), None);
    assert_eq!(parse_font_size("99999999999999999999x"), None);
    assert_eq!(parse_font_size("１２"), None);
}

#[test]
fn parse_font_size_agrees_with_std() {
    for input in ["0", " 5 ", "+0", "++1", "18446744073709551616", "\n30\r", "ab", "3_0"] {
        assert_eq!(parse_font_size(input), input.trim().parse::<u32>().ok(), "{input:?}");
    }
}

#[test]
fn parse_font_size_reads_back_decimal_text() {
    for n in [0u32, 1, 9, 10, 12, 100, 65535, 1_000_000, u32::MAX - 1, u32::MAX] {
        assert_eq!(parse_font_size(&n.to_string()), Some(n));
        assert_eq!(parse_font_size(&format!(" {n}\t")), Some(n));
    }
    assert_eq!(parse_font_size("100"), Some(100));
    assert_eq!(parse_font_size("0"), Some(0));
}
