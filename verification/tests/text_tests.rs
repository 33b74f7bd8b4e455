use kworker::text::{
    ends_with, int_to_string, parse_i32, parse_u16, starts_with, str_lt, trim_equals,
};

#[test]
fn int_to_string_writes_decimal() {
    assert_eq!(int_to_string(0), "0");
    assert_eq!(int_to_string(7), "7");
    assert_eq!(int_to_string(1800), "1800");
    assert_eq!(int_to_string(-42), "-42");
    assert_eq!(int_to_string(i64::MAX), "9223372036854775807");
    assert_eq!(int_to_string(i64::MIN), "-9223372036854775808");
}

#[test]
fn parse_u16_accepts_ports() {
    assert_eq!(parse_u16("5432"), Some(5432));
    assert_eq!(parse_u16("+80"), Some(80));
    assert_eq!(parse_u16("007"), Some(7));
    assert_eq!(parse_u16("65535"), Some(65535));
}

#[test]
fn parse_u16_rejects_what_std_rejects() {
    for s in ["", "+", "-1", "65536", "12a", " 1", "99999999999999999999"] {
        assert_eq!(parse_u16(s), s.parse::<u16>().ok(), "input {:?}", s);
        assert_eq!(parse_u16(s), None);
    }
}

#[test]
fn parse_i32_matches_std() {
    for s in [
        "0", "-0", "+5", "-5", "1800", "-2147483648", "2147483647", "2147483648", "-2147483649",
        "", "-", "+", "--1", "1_000", "٣",
    ] {
        assert_eq!(parse_i32(s), s.parse::<i32>().ok(), "input {:?}", s);
    }
}

#[test]
fn decimal_round_trip() {
    for n in [0i32, 1, -1, 552, 10800, i32::MIN, i32::MAX] {
        assert_eq!(parse_i32(&int_to_string(n as i64)), Some(n));
    }
    for n in [0u16, 80, 5432, u16::MAX] {
        assert_eq!(parse_u16(&int_to_string(n as i64)), Some(n));
    }
}

#[test]
fn prefixes_and_suffixes() {
    assert!(starts_with("TEST-call_10.sol", "TEST-"));
    assert!(!starts_with("TES", "TEST-"));
    assert!(starts_with("anything", ""));
    assert!(ends_with("fn-execute-spec.k", "spec.k"));
    assert!(!ends_with("spec.k.bak", "spec.k"));
    assert!(ends_with("spec.k", "spec.k"));
}

#[test]
fn trim_equals_matches_trim() {
    assert!(trim_equals("  #True\t", "#True"));
    assert!(trim_equals("false", "false"));
    assert!(trim_equals("\u{a0}false\u{3000}", "false"));
    assert!(!trim_equals("#True #True", "#True"));
    assert!(!trim_equals("", "false"));
    assert!(trim_equals("   ", ""));
    for s in ["  a b ", "\n", "x", "\u{2028}y\u{85}"] {
        assert!(trim_equals(s, s.trim()));
    }
}

#[test]
fn str_lt_orders_like_string() {
    let words = ["", "a", "ab", "b", "TEST-a", "TEST-b", "é", "z"];
    for a in words {
        for b in words {
            assert_eq!(str_lt(a, b), a < b, "{:?} {:?}", a, b);
        }
    }
}
