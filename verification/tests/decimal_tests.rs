use iron_gcd::decimal::{parse_u64, push_decimal, push_signed_decimal};

#[test]
fn parse_plain_numerals() {
    assert_eq!(parse_u64("0"), Some(0));
    assert_eq!(parse_u64("7"), Some(7));
    assert_eq!(parse_u64("48"), Some(48));
    assert_eq!(parse_u64("1234567890"), Some(1234567890));
}

#[test]
fn parse_leading_zeros() {
    assert_eq!(parse_u64("007"), Some(7));
    assert_eq!(parse_u64("000"), Some(0));
    assert_eq!(parse_u64("0000000000000000000000000000000000000012"), Some(12));
}

#[test]
fn parse_plus_sign() {
    assert_eq!(parse_u64("+5"), Some(5));
    assert_eq!(parse_u64("+0"), Some(0));
    assert_eq!(parse_u64("+"), None);
    assert_eq!(parse_u64("++5"), None);
    assert_eq!(parse_u64("5+"), None);
    assert_eq!(parse_u64("5+5"), None);
}

#[test]
fn parse_rejects_empty_text() {
    assert_eq!(parse_u64(""), None);
}

#[test]
fn parse_rejects_what_is_no_digit() {
    assert_eq!(parse_u64("abc"), None);
    assert_eq!(parse_u64("-5"), None);
    assert_eq!(parse_u64("-0"), None);
    assert_eq!(parse_u64("-"), None);
    assert_eq!(parse_u64(" 5"), None);
    assert_eq!(parse_u64("5 "), None);
    assert_eq!(parse_u64("1_000"), None);
    assert_eq!(parse_u64("1.5"), None);
    assert_eq!(parse_u64("0x10"), None);
    assert_eq!(parse_u64("12a"), None);
    assert_eq!(parse_u64("\u{0663}"), None);
    assert_eq!(parse_u64("1\u{00e9}"), None);
}

#[test]
fn parse_up_to_the_largest_number() {
    assert_eq!(parse_u64("18446744073709551615"), Some(u64::MAX));
    assert_eq!(parse_u64("+18446744073709551615"), Some(u64::MAX));
    assert_eq!(parse_u64("0018446744073709551615"), Some(u64::MAX));
    assert_eq!(parse_u64("18446744073709551614"), Some(u64::MAX - 1));
    assert_eq!(parse_u64("18446744073709551616"), None);
    assert_eq!(parse_u64("18446744073709551620"), None);
    assert_eq!(parse_u64("99999999999999999999"), None);
    assert_eq!(parse_u64("184467440737095516150"), None);
    assert_eq!(parse_u64("100000000000000000000000000000"), None);
}

#[test]
fn parse_agrees_with_the_standard_library() {
    let texts = [
        "", "+", "-", "0", "+0", "-0", "1", "+1", "-1", "42", "042", "4 2", "\u{ff14}\u{ff12}", "1e3", "\u{0661}\u{0662}\u{0663}",
        "18446744073709551615", "18446744073709551616", "9223372036854775808", "+-1", "1+",
    ];
    for text in texts {
        assert_eq!(parse_u64(text), text.parse::<u64>().ok(), "{:?}", text);
    }
}

#[test]
fn push_decimal_writes_the_numeral() {
    let mut out = String::new();
    push_decimal(&mut out, 0);
    assert_eq!(out, "0");
    push_decimal(&mut out, 7);
    assert_eq!(out, "07");
    push_decimal(&mut out, 10);
    assert_eq!(out, "0710");
    push_decimal(&mut out, 1234567890);
    assert_eq!(out, "07101234567890");
}

#[test]
fn push_decimal_keeps_what_was_there() {
    let mut out = String::from("n = ");
    push_decimal(&mut out, 600);
    assert_eq!(out, "n = 600");
}

#[test]
fn push_decimal_of_the_largest_number() {
    let mut out = String::new();
    push_decimal(&mut out, u64::MAX);
    assert_eq!(out, "18446744073709551615");
}

#[test]
fn push_decimal_agrees_with_the_standard_library() {
    let mut n: u64 = 1;
    for _ in 0..64 {
        for m in [n - 1, n, n + 1] {
            let mut out = String::new();
            push_decimal(&mut out, m);
            assert_eq!(out, m.to_string());
        }
        n = n.wrapping_mul(2);
    }
}

#[test]
fn push_signed_decimal_writes_the_sign_of_a_negative_number() {
    let mut out = String::new();
    push_signed_decimal(&mut out, -1);
    assert_eq!(out, "-1");
    let mut out = String::new();
    push_signed_decimal(&mut out, -2147483648);
    assert_eq!(out, "-2147483648");
    let mut out = String::new();
    push_signed_decimal(&mut out, i64::MIN);
    assert_eq!(out, "-9223372036854775808");
}

#[test]
fn push_signed_decimal_writes_no_sign_otherwise() {
    let mut out = String::new();
    push_signed_decimal(&mut out, 0);
    assert_eq!(out, "0");
    let mut out = String::from("id=");
    push_signed_decimal(&mut out, 123);
    assert_eq!(out, "id=123");
    let mut out = String::new();
    push_signed_decimal(&mut out, i64::MAX);
    assert_eq!(out, "9223372036854775807");
}

#[test]
fn written_numerals_are_read_back() {
    for n in [0u64, 1, 9, 10, 99, 100, 65535, 4294967296, u64::MAX - 1, u64::MAX] {
        let mut out = String::new();
        push_decimal(&mut out, n);
        assert_eq!(parse_u64(&out), Some(n));
    }
}
