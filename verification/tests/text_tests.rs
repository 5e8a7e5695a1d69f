use baro_bot::text::{decimal_text, parse_i32_text, parse_i64_text, trim_text, IntErrorKind};

#[test]
fn parses_plain_and_signed_numbers() {
    assert_eq!(parse_i32_text("42"), Ok(42));
    assert_eq!(parse_i32_text("+7"), Ok(7));
    assert_eq!(parse_i32_text("-2147483648"), Ok(i32::MIN));
    assert_eq!(parse_i32_text("2147483647"), Ok(i32::MAX));
}

#[test]
fn reports_the_same_errors_as_std() {
    assert_eq!(parse_i32_text(""), Err(IntErrorKind::Empty));
    assert_eq!(parse_i32_text("-"), Err(IntErrorKind::InvalidDigit));
    assert_eq!(parse_i32_text("+"), Err(IntErrorKind::InvalidDigit));
    assert_eq!(parse_i32_text("1a"), Err(IntErrorKind::InvalidDigit));
    assert_eq!(parse_i32_text(" 1"), Err(IntErrorKind::InvalidDigit));
    assert_eq!(parse_i32_text("2147483648"), Err(IntErrorKind::PosOverflow));
    assert_eq!(parse_i32_text("-2147483649"), Err(IntErrorKind::NegOverflow));
    assert_eq!(parse_i32_text("99999999999x"), Err(IntErrorKind::PosOverflow));
}

#[test]
fn agrees_with_std_on_many_inputs() {
    let samples = ["0", "-0", "+0", "007", "12 ", "--1", "+-1", "９", "123456789012", "-9223372036854775808", "9223372036854775807", "9223372036854775808"];
    for s in samples {
        let ours = parse_i64_text(s).ok();
        let theirs = s.parse::<i64>().ok();
        assert_eq!(ours, theirs, "{s}");
        let ours32 = parse_i32_text(s).ok();
        let theirs32 = s.parse::<i32>().ok();
        assert_eq!(ours32, theirs32, "{s}");
    }
}

#[test]
fn writes_decimals_like_to_string() {
    for n in [0i64, 5, -5, 10, 1234567890, i64::MIN, i64::MAX] {
        assert_eq!(decimal_text(n), n.to_string());
        assert_eq!(parse_i64_text(&decimal_text(n)), Ok(n));
    }
}

#[test]
fn trims_unicode_whitespace() {
    assert_eq!(trim_text("  a b \t\n"), "a b");
    assert_eq!(trim_text("\u{3000}x\u{a0}"), "x");
    assert_eq!(trim_text("   "), "");
    assert_eq!(trim_text(""), "");
}
