use adp_trafic_aerien::number::{parse_i64, parse_i64_or_zero, parse_u16};

#[test]
fn parse_i64_reads_decimals() {
    assert_eq!(parse_i64("42"), Some(42));
    assert_eq!(parse_i64("-5"), Some(-5));
    assert_eq!(parse_i64("+7"), Some(7));
    assert_eq!(parse_i64("007"), Some(7));
    assert_eq!(parse_i64("-9223372036854775808"), Some(i64::MIN));
    assert_eq!(parse_i64("9223372036854775807"), Some(i64::MAX));
}

#[test]
fn parse_i64_refuses_what_str_parse_refuses() {
    for s in ["", "+", "-", "1.0", " 1", "1 ", "abc", "9223372036854775808", "-9223372036854775809", "--1", "+-1", "99999999999999999999999"] {
        assert_eq!(parse_i64(s), None, "sample {:?}", s);
    }
}

#[test]
fn parse_i64_agrees_with_str_parse() {
    let samples = ["0", "-0", "+0", "12", "-12", "1e3", "٣", "18446744073709551615", "18446744073709551616", "-", "x1", "1x"];
    for s in samples {
        assert_eq!(parse_i64(s), s.parse::<i64>().ok(), "sample {:?}", s);
    }
}

#[test]
fn parse_u16_reads_ports() {
    assert_eq!(parse_u16("3306"), Some(3306));
    assert_eq!(parse_u16("65535"), Some(65535));
    assert_eq!(parse_u16("+1"), Some(1));
    for s in ["65536", "-0", "-1", "", "+", "port", "33 06"] {
        assert_eq!(parse_u16(s), None, "sample {:?}", s);
        assert_eq!(parse_u16(s), s.parse::<u16>().ok(), "sample {:?}", s);
    }
}

#[test]
fn unreadable_integers_become_zero() {
    assert_eq!(parse_i64_or_zero("2013"), 2013);
    assert_eq!(parse_i64_or_zero("abc"), 0);
    assert_eq!(parse_i64_or_zero(""), 0);
    assert_eq!(parse_i64_or_zero("12.5"), 0);
}
