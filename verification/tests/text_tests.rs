use acer_profile::text::{as_int, i64_to_decimal, parse_i64, str_eq, trim, with_newline};

#[test]
fn trim_removes_ascii_and_unicode_white_space() {
    assert_eq!(trim("  45000000\n"), "45000000");
    assert_eq!(trim("\u{a0}\tpower\u{3000}"), "power");
    assert_eq!(trim("   "), "");
    assert_eq!(trim(""), "");
    assert_eq!(trim("a b"), "a b");
}

#[test]
fn parse_i64_matches_std() {
    for s in [
        "0", "42", "+42", "-42", "9223372036854775807", "-9223372036854775808",
        "9223372036854775808", "-9223372036854775809", "", "+", "-", "4 2", "42a", "٣",
        "00012", "-0",
    ] {
        assert_eq!(parse_i64(s), s.parse::<i64>().ok(), "input {:?}", s);
    }
}

#[test]
fn decimal_form_matches_to_string() {
    for v in [0i64, 7, -7, 10, 1600, 64_000_000, i64::MAX, i64::MIN] {
        assert_eq!(i64_to_decimal(v), v.to_string());
    }
}

#[test]
fn written_value_reads_back() {
    for v in [0i64, 45_000_000, -1, i64::MIN, i64::MAX] {
        let line = with_newline(&i64_to_decimal(v));
        assert_eq!(line, format!("{}\n", v));
        assert_eq!(as_int(Some(trim(&line).as_str())), Some(v));
    }
}

#[test]
fn as_int_treats_empty_as_absent() {
    assert_eq!(as_int(None), None);
    assert_eq!(as_int(Some("")), None);
    assert_eq!(as_int(Some("12")), Some(12));
    assert_eq!(as_int(Some("x")), None);
}

#[test]
fn str_eq_compares_characters() {
    assert!(str_eq("eco", "eco"));
    assert!(!str_eq("eco", "ecO"));
    assert!(!str_eq("eco", "eco "));
}
