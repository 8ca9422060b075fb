use chat_leaderboard::decimal::{parse_i64, parse_usize};

#[test]
fn parse_i64_reads_signed_decimals() {
    assert_eq!(parse_i64("0"), Some(0));
    assert_eq!(parse_i64("42"), Some(42));
    assert_eq!(parse_i64("+42"), Some(42));
    assert_eq!(parse_i64("-42"), Some(-42));
    assert_eq!(parse_i64("-0"), Some(0));
    assert_eq!(parse_i64("007"), Some(7));
    assert_eq!(parse_i64("1670976000000"), Some(1_670_976_000_000));
}

#[test]
fn parse_i64_reaches_both_ends_of_the_range() {
    assert_eq!(parse_i64("9223372036854775807"), Some(i64::MAX));
    assert_eq!(parse_i64("-9223372036854775808"), Some(i64::MIN));
    assert_eq!(parse_i64("9223372036854775808"), None);
    assert_eq!(parse_i64("-9223372036854775809"), None);
    assert_eq!(parse_i64("99999999999999999999999999999999999999999"), None);
    assert_eq!(parse_i64("000000000000000000000000000000000000000009"), Some(9));
}

#[test]
fn parse_i64_refuses_what_is_no_number() {
    for bad in ["", "+", "-", "--1", "+-1", "1 ", " 1", "1_000", "12a", "a12", "1.0", "0x10", "\u{0664}\u{0662}"] {
        assert_eq!(parse_i64(bad), None, "{:?}", bad);
    }
}

#[test]
fn parse_i64_agrees_with_std() {
    for s in ["0", "-1", "+1", "18446744073709551615", "9223372036854775807", "-9223372036854775808", "", "+", "-", "12x", "00", "-00012"] {
        assert_eq!(parse_i64(s), s.parse::<i64>().ok(), "{:?}", s);
    }
}

#[test]
fn parse_usize_reads_unsigned_decimals() {
    assert_eq!(parse_usize("10"), Some(10));
    assert_eq!(parse_usize("+10"), Some(10));
    assert_eq!(parse_usize("0"), Some(0));
    assert_eq!(parse_usize(&usize::MAX.to_string()), Some(usize::MAX));
    assert_eq!(parse_usize("-1"), None);
    assert_eq!(parse_usize("-0"), None);
    assert_eq!(parse_usize(""), None);
    assert_eq!(parse_usize("+"), None);
    assert_eq!(parse_usize("ten"), None);
    assert_eq!(parse_usize("340282366920938463463374607431768211456"), None);
}

#[test]
fn parse_usize_agrees_with_std() {
    for s in ["0", "-1", "+1", "18446744073709551615", "18446744073709551616", "", "+", "-", "12x", "00", "+007"] {
        assert_eq!(parse_usize(s), s.parse::<usize>().ok(), "{:?}", s);
    }
}
