use adp_trafic_aerien::text::{is_white_space_char, mysql_datetime, opt, opt_datetime, trim};

#[test]
fn opt_blank_cells_are_null() {
    assert_eq!(opt(""), None);
    assert_eq!(opt("   "), None);
    assert_eq!(opt("\t\n\r "), None);
    assert_eq!(opt("\u{3000}\u{a0}"), None);
}

#[test]
fn opt_trims_the_value() {
    assert_eq!(opt("  JFK "), Some("JFK".to_string()));
    assert_eq!(opt("a b"), Some("a b".to_string()));
    assert_eq!(opt("\t\u{2003}x\u{85}"), Some("x".to_string()));
    assert_eq!(opt("America/New_York"), Some("America/New_York".to_string()));
}

#[test]
fn white_space_is_the_unicode_property() {
    for u in 0u32..=0x10FFFF {
        if let Some(c) = char::from_u32(u) {
            assert_eq!(is_white_space_char(c), c.is_whitespace(), "code point {:x}", u);
        }
    }
}

#[test]
fn trim_agrees_with_str_trim() {
    let samples = [
        "", " ", "x", " x", "x ", "  x y  ", "\u{2028}a\u{205f}", "\u{180e}a", "é ", " \u{3000}ü\u{200b} ",
    ];
    for s in samples {
        assert_eq!(trim(s), s.trim(), "sample {:?}", s);
    }
}

#[test]
fn trim_twice_is_trim_once() {
    for s in ["  a  ", "\t b\n", "", "   ", "c"] {
        let once = trim(s);
        assert_eq!(trim(&once), once);
    }
}

#[test]
fn datetime_is_rewritten_for_mysql() {
    assert_eq!(mysql_datetime("2013-01-01T05:00:00Z"), "2013-01-01 05:00:00");
    assert_eq!(mysql_datetime("TZTZ"), "  ");
    assert_eq!(mysql_datetime("2013-01-01 05:00:00"), "2013-01-01 05:00:00");
    assert_eq!(mysql_datetime(""), "");
}

#[test]
fn datetime_cell_is_null_or_rewritten() {
    assert_eq!(opt_datetime("  2013-01-01T05:00:00Z "), Some("2013-01-01 05:00:00".to_string()));
    assert_eq!(opt_datetime(" "), None);
    assert_eq!(opt_datetime("Z"), Some(String::new()));
}
