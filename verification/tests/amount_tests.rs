use finance_tracker::amount::{format_amount, format_total, read_amount};
use finance_tracker::decimal::{push_decimal, read_unsigned};
use finance_tracker::text::{find_char, string_of_range, to_chars};

fn amount_of(text: &str) -> Option<i64> {
    let v = to_chars(text);
    read_amount(&v, 0, v.len())
}

fn unsigned_of(text: &str, max: u64) -> Option<u64> {
    let v = to_chars(text);
    read_unsigned(&v, 0, v.len(), max)
}

#[test]
fn format_amount_writes_two_places() {
    assert_eq!(format_amount(0), "0.00");
    assert_eq!(format_amount(5), "0.05");
    assert_eq!(format_amount(50), "0.50");
    assert_eq!(format_amount(100), "1.00");
    assert_eq!(format_amount(100000), "1000.00");
    assert_eq!(format_amount(123456), "1234.56");
}

#[test]
fn format_amount_writes_negative_amounts() {
    assert_eq!(format_amount(-5), "-0.05");
    assert_eq!(format_amount(-15000), "-150.00");
    assert_eq!(format_amount(i64::MIN), "-92233720368547758.08");
    assert_eq!(format_amount(i64::MAX), "92233720368547758.07");
}

#[test]
fn read_amount_reads_plain_amounts() {
    assert_eq!(amount_of("1000.00"), Some(100000));
    assert_eq!(amount_of("150.00"), Some(15000));
    assert_eq!(amount_of("0.05"), Some(5));
    assert_eq!(amount_of("7"), Some(700));
    assert_eq!(amount_of("7."), Some(700));
    assert_eq!(amount_of(".5"), Some(50));
    assert_eq!(amount_of("12.3"), Some(1230));
    assert_eq!(amount_of("007.10"), Some(710));
}

#[test]
fn read_amount_reads_signs() {
    assert_eq!(amount_of("+3"), Some(300));
    assert_eq!(amount_of("-0.05"), Some(-5));
    assert_eq!(amount_of("-12.34"), Some(-1234));
    assert_eq!(amount_of("-0.00"), Some(0));
}

#[test]
fn read_amount_rounds_further_places_to_the_nearest_cent() {
    assert_eq!(amount_of("1.004"), Some(100));
    assert_eq!(amount_of("1.005"), Some(101));
    assert_eq!(amount_of("1.0049999"), Some(100));
    assert_eq!(amount_of("-1.005"), Some(-101));
    assert_eq!(amount_of("0.999"), Some(100));
    assert_eq!(amount_of("2.12345678901234567890123"), Some(212));
}

#[test]
fn read_amount_refuses_what_is_no_amount() {
    assert_eq!(amount_of(""), None);
    assert_eq!(amount_of("."), None);
    assert_eq!(amount_of("-"), None);
    assert_eq!(amount_of("+"), None);
    assert_eq!(amount_of("abc"), None);
    assert_eq!(amount_of("1e3"), None);
    assert_eq!(amount_of("1.2.3"), None);
    assert_eq!(amount_of(" 1.00"), None);
    assert_eq!(amount_of("1.00 "), None);
    assert_eq!(amount_of("--1"), None);
    assert_eq!(amount_of("1,00"), None);
    assert_eq!(amount_of("12.3x"), None);
}

#[test]
fn read_amount_keeps_to_the_range_of_cents() {
    assert_eq!(amount_of("92233720368547758.07"), Some(i64::MAX));
    assert_eq!(amount_of("92233720368547758.08"), None);
    assert_eq!(amount_of("-92233720368547758.08"), Some(i64::MIN));
    assert_eq!(amount_of("-92233720368547758.09"), None);
    assert_eq!(amount_of("92233720368547758.074"), Some(i64::MAX));
    assert_eq!(amount_of("92233720368547758.075"), None);
    assert_eq!(amount_of("100000000000000000"), None);
    assert_eq!(amount_of("99999999999999999999999999999999999999"), None);
}

#[test]
fn amounts_come_back_as_written() {
    for a in [0i64, 1, 9, 10, 99, 100, 101, 15000, -1, -99, -100, i64::MAX, i64::MIN] {
        assert_eq!(amount_of(&format_amount(a)), Some(a));
    }
}

#[test]
fn push_decimal_appends_the_digits() {
    let mut s = String::from("id ");
    push_decimal(&mut s, 0);
    assert_eq!(s, "id 0");
    push_decimal(&mut s, 4294967295);
    assert_eq!(s, "id 04294967295");
    let mut t = String::new();
    push_decimal(&mut t, u128::MAX);
    assert_eq!(t, "340282366920938463463374607431768211455");
}

#[test]
fn read_unsigned_reads_digits_with_an_optional_plus() {
    assert_eq!(unsigned_of("7", 4294967295), Some(7));
    assert_eq!(unsigned_of("+7", 4294967295), Some(7));
    assert_eq!(unsigned_of("007", 4294967295), Some(7));
    assert_eq!(unsigned_of("0", 4294967295), Some(0));
    assert_eq!(unsigned_of("4294967295", 4294967295), Some(4294967295));
    assert_eq!(unsigned_of("18446744073709551615", u64::MAX), Some(u64::MAX));
}

#[test]
fn read_unsigned_refuses_other_text_and_numbers_above_the_limit() {
    assert_eq!(unsigned_of("", 4294967295), None);
    assert_eq!(unsigned_of("+", 4294967295), None);
    assert_eq!(unsigned_of("-1", 4294967295), None);
    assert_eq!(unsigned_of(" 7", 4294967295), None);
    assert_eq!(unsigned_of("7 ", 4294967295), None);
    assert_eq!(unsigned_of("7a", 4294967295), None);
    assert_eq!(unsigned_of("++7", 4294967295), None);
    assert_eq!(unsigned_of("4294967296", 4294967295), None);
    assert_eq!(unsigned_of("18446744073709551616", u64::MAX), None);
    assert_eq!(unsigned_of("99999999999999999999999999", u64::MAX), None);
}

#[test]
fn text_helpers_find_and_copy() {
    let v = to_chars("ab,cd,é");
    assert_eq!(v.len(), 7);
    assert_eq!(find_char(&v, 0, v.len(), ','), 2);
    assert_eq!(find_char(&v, 3, v.len(), ','), 5);
    assert_eq!(find_char(&v, 6, v.len(), ','), 7);
    assert_eq!(string_of_range(&v, 3, 5), "cd");
    assert_eq!(string_of_range(&v, 6, 7), "é");
    assert_eq!(string_of_range(&v, 2, 2), "");
}

#[test]
fn format_total_writes_sums_beyond_one_amount() {
    assert_eq!(format_total(85000), "850.00");
    assert_eq!(format_total(-1), "-0.01");
    assert_eq!(format_total(4 * i128::from(i64::MAX)), "368934881474191032.28");
    assert_eq!(format_total(i128::MAX), "1701411834604692317316873037158841057.27");
    assert_eq!(format_total(i128::MIN), "-1701411834604692317316873037158841057.28");
}
