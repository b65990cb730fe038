use refinery_core::text::{parse_u64, replace, u64_to_decimal};

#[test]
fn decimal_of_zero() {
    assert_eq!(u64_to_decimal(0), "0");
}

#[test]
fn decimal_of_largest() {
    assert_eq!(u64_to_decimal(u64::MAX), "18446744073709551615");
}

#[test]
fn decimal_of_checksums() {
    assert_eq!(u64_to_decimal(0xA), "10");
    assert_eq!(u64_to_decimal(0xB), "11");
    assert_eq!(u64_to_decimal(1_000_000), "1000000");
}

#[test]
fn parse_plain_number() {
    assert_eq!(parse_u64("10"), Some(10));
    assert_eq!(parse_u64("0"), Some(0));
    assert_eq!(parse_u64("18446744073709551615"), Some(u64::MAX));
}

#[test]
fn parse_accepts_plus_and_leading_zeros() {
    assert_eq!(parse_u64("+7"), Some(7));
    assert_eq!(parse_u64("007"), Some(7));
    assert_eq!(parse_u64("00000000000000000000000000042"), Some(42));
}

#[test]
fn parse_rejects_what_is_no_number() {
    assert_eq!(parse_u64(""), None);
    assert_eq!(parse_u64("+"), None);
    assert_eq!(parse_u64("-1"), None);
    assert_eq!(parse_u64("12a"), None);
    assert_eq!(parse_u64(" 12"), None);
    assert_eq!(parse_u64("1 2"), None);
    assert_eq!(parse_u64("++1"), None);
}

#[test]
fn parse_rejects_overflow() {
    assert_eq!(parse_u64("18446744073709551616"), None);
    assert_eq!(parse_u64("99999999999999999999999"), None);
}

#[test]
fn parse_agrees_with_std() {
    for text in ["0", "1", "+1", "-1", "", "+", "0001", "18446744073709551615", "18446744073709551616", "1x", "٣"] {
        assert_eq!(parse_u64(text), text.parse::<u64>().ok(), "{}", text);
    }
}

#[test]
fn decimal_round_trip() {
    for n in [0u64, 1, 9, 10, 11, 99, 100, 12345, u64::MAX - 1, u64::MAX] {
        assert_eq!(parse_u64(&u64_to_decimal(n)), Some(n));
        assert_eq!(u64_to_decimal(n), n.to_string());
    }
}

#[test]
fn replace_every_occurrence() {
    assert_eq!(replace("a%b%c", "%", "--"), "a--b--c");
    assert_eq!(replace("%T% and %T%", "%T%", "x"), "x and x");
}

#[test]
fn replace_without_occurrence() {
    assert_eq!(replace("nothing here", "%T%", "x"), "nothing here");
    assert_eq!(replace("", "%T%", "x"), "");
}

#[test]
fn replace_does_not_overlap() {
    assert_eq!(replace("aaa", "aa", "b"), "ba");
    assert_eq!(replace("aaaa", "aa", "b"), "bb");
}

#[test]
fn replace_agrees_with_std() {
    for (text, pattern, with) in [
        ("abcabc", "bc", "X"),
        ("%%%", "%%", "%"),
        ("tail%", "%", ""),
        ("héllo wörld", "ö", "oe"),
        ("short", "longer than text", "x"),
    ] {
        assert_eq!(replace(text, pattern, with), text.replace(pattern, with));
    }
}
