use map_rs::decimal::push_decimal;
use map_rs::degrees::{magnitude_of, parse_degrees, push_degrees};

fn text_of(units: i64) -> String {
    let mut out = String::new();
    push_degrees(&mut out, units);
    out
}

fn numeral(n: u64) -> String {
    let mut out = String::new();
    push_decimal(&mut out, n);
    out
}

#[test]
fn decimal_digits() {
    let digits: Vec<String> = (0..10).map(numeral).collect();
    assert_eq!(digits, vec!["0", "1", "2", "3", "4", "5", "6", "7", "8", "9"]);
}

#[test]
fn magnitudes() {
    assert_eq!(magnitude_of(0), 0);
    assert_eq!(magnitude_of(5), 5);
    assert_eq!(magnitude_of(-5), 5);
    assert_eq!(magnitude_of(i64::MAX), 9_223_372_036_854_775_807);
    assert_eq!(magnitude_of(i64::MIN), 9_223_372_036_854_775_808);
}

#[test]
fn decimal_numerals() {
    assert_eq!(numeral(0), "0");
    assert_eq!(numeral(7), "7");
    assert_eq!(numeral(10), "10");
    assert_eq!(numeral(1_000_000), "1000000");
    assert_eq!(numeral(u64::MAX), "18446744073709551615");
}

#[test]
fn decimal_appends_to_what_is_there() {
    let mut out = String::from("n=");
    push_decimal(&mut out, 42);
    assert_eq!(out, "n=42");
}

#[test]
fn degrees_text_of_whole_degrees() {
    assert_eq!(text_of(0), "0");
    assert_eq!(text_of(510_000_000), "51");
    assert_eq!(text_of(-1_800_000_000), "-180");
}

#[test]
fn degrees_text_trims_trailing_zeros() {
    assert_eq!(text_of(515_074_000), "51.5074");
    assert_eq!(text_of(-1_278_000), "-0.1278");
    assert_eq!(text_of(23_522_000), "2.3522");
    assert_eq!(text_of(5_000_000), "0.5");
}

#[test]
fn degrees_text_keeps_leading_zeros_of_the_fraction() {
    assert_eq!(text_of(1), "0.0000001");
    assert_eq!(text_of(-1), "-0.0000001");
    assert_eq!(text_of(10_000_010), "1.000001");
    assert_eq!(text_of(515_073_219), "51.5073219");
}

#[test]
fn degrees_text_at_the_limits() {
    assert_eq!(text_of(i64::MAX), "922337203685.4775807");
    assert_eq!(text_of(i64::MIN), "-922337203685.4775808");
}

#[test]
fn parse_plain_decimals() {
    assert_eq!(parse_degrees("51.5073219"), Some(515_073_219));
    assert_eq!(parse_degrees("-0.1276474"), Some(-1_276_474));
    assert_eq!(parse_degrees("48.8566"), Some(488_566_000));
    assert_eq!(parse_degrees("2"), Some(20_000_000));
    assert_eq!(parse_degrees("0"), Some(0));
    assert_eq!(parse_degrees("-0"), Some(0));
}

#[test]
fn parse_accepts_a_plus_sign_and_a_bare_point() {
    assert_eq!(parse_degrees("+12.5"), Some(125_000_000));
    assert_eq!(parse_degrees("5."), Some(50_000_000));
    assert_eq!(parse_degrees(".5"), Some(5_000_000));
    assert_eq!(parse_degrees("-.25"), Some(-2_500_000));
    assert_eq!(parse_degrees("007.5"), Some(75_000_000));
}

#[test]
fn parse_rounds_at_the_eighth_place() {
    assert_eq!(parse_degrees("1.00000004"), Some(10_000_000));
    assert_eq!(parse_degrees("1.00000005"), Some(10_000_001));
    assert_eq!(parse_degrees("1.000000049999"), Some(10_000_000));
    assert_eq!(parse_degrees("-1.00000005"), Some(-10_000_001));
    assert_eq!(parse_degrees("0.99999995"), Some(10_000_000));
    assert_eq!(parse_degrees("51.50732190001"), Some(515_073_219));
}

#[test]
fn parse_rejects_what_is_no_decimal() {
    assert_eq!(parse_degrees(""), None);
    assert_eq!(parse_degrees("-"), None);
    assert_eq!(parse_degrees("+"), None);
    assert_eq!(parse_degrees("."), None);
    assert_eq!(parse_degrees("-."), None);
    assert_eq!(parse_degrees("abc"), None);
    assert_eq!(parse_degrees("1.2.3"), None);
    assert_eq!(parse_degrees("1,5"), None);
    assert_eq!(parse_degrees(" 1.5"), None);
    assert_eq!(parse_degrees("1.5 "), None);
    assert_eq!(parse_degrees("--1"), None);
    assert_eq!(parse_degrees("1-"), None);
    assert_eq!(parse_degrees("1x5"), None);
    assert_eq!(parse_degrees("inf"), None);
    assert_eq!(parse_degrees("-infinity"), None);
    assert_eq!(parse_degrees("NaN"), None);
    assert_eq!(parse_degrees("12.5°"), None);
    assert_eq!(parse_degrees("١٢"), None);
}

#[test]
fn parse_reads_an_exponent() {
    assert_eq!(parse_degrees("5e1"), Some(500_000_000));
    assert_eq!(parse_degrees("1e-05"), Some(100));
    assert_eq!(parse_degrees("1E2"), Some(1_000_000_000));
    assert_eq!(parse_degrees("1.5e+2"), Some(1_500_000_000));
    assert_eq!(parse_degrees("-2.5e-3"), Some(-25_000));
    assert_eq!(parse_degrees("+2.5E-3"), Some(25_000));
    assert_eq!(parse_degrees("1e5"), Some(1_000_000_000_000));
    assert_eq!(parse_degrees("1e0"), Some(10_000_000));
    assert_eq!(parse_degrees("1e0005"), Some(1_000_000_000_000));
    assert_eq!(parse_degrees("1.e5"), Some(1_000_000_000_000));
    assert_eq!(parse_degrees(".5e1"), Some(50_000_000));
    assert_eq!(parse_degrees("0.0000000123e9"), Some(123_000_000));
    assert_eq!(parse_degrees("515074e-4"), Some(515_074_000));
}

#[test]
fn parse_rounds_behind_a_moved_point() {
    assert_eq!(parse_degrees("1e-7"), Some(1));
    assert_eq!(parse_degrees("1e-8"), Some(0));
    assert_eq!(parse_degrees("4.9e-8"), Some(0));
    assert_eq!(parse_degrees("5e-8"), Some(1));
    assert_eq!(parse_degrees("-5e-8"), Some(-1));
    assert_eq!(parse_degrees("9e-9"), Some(0));
    assert_eq!(parse_degrees("123456789e-9"), Some(1_234_568));
    assert_eq!(parse_degrees("12345678901234567890123e-20"), Some(1_234_567_890));
    assert_eq!(parse_degrees("0.00000000000000000000000000001e30"), Some(100_000_000));
}

#[test]
fn parse_rejects_a_malformed_exponent() {
    assert_eq!(parse_degrees("e5"), None);
    assert_eq!(parse_degrees("-e5"), None);
    assert_eq!(parse_degrees(".e5"), None);
    assert_eq!(parse_degrees("1e"), None);
    assert_eq!(parse_degrees("1e+"), None);
    assert_eq!(parse_degrees("1e-"), None);
    assert_eq!(parse_degrees("1e--5"), None);
    assert_eq!(parse_degrees("1e5.5"), None);
    assert_eq!(parse_degrees("1e 5"), None);
    assert_eq!(parse_degrees("1e5e5"), None);
    assert_eq!(parse_degrees("1e5 "), None);
    assert_eq!(parse_degrees("1f5"), None);
}

#[test]
fn parse_with_an_exponent_beyond_every_bound() {
    assert_eq!(parse_degrees("1e400"), None);
    assert_eq!(parse_degrees("1e99999999999999999999999999999999999"), None);
    assert_eq!(parse_degrees("0.001e99999999999999999999999999999999999"), None);
    assert_eq!(parse_degrees("0e99999999999999999999999999999999999"), Some(0));
    assert_eq!(parse_degrees("0.000e40"), Some(0));
    assert_eq!(parse_degrees("-0e400"), Some(0));
    assert_eq!(parse_degrees("1e-400"), Some(0));
    assert_eq!(parse_degrees("987654321e-99999999999999999999999999999999999"), Some(0));
    assert_eq!(parse_degrees("9.2e11"), Some(9_200_000_000_000_000_000));
    assert_eq!(parse_degrees("9.3e11"), None);
    assert_eq!(parse_degrees("9223372036854775807e-7"), Some(i64::MAX));
    assert_eq!(parse_degrees("92233720368547758074e-8"), Some(i64::MAX));
    assert_eq!(parse_degrees("92233720368547758075e-8"), None);
}

#[test]
fn parse_at_the_limits() {
    assert_eq!(parse_degrees("922337203685.4775807"), Some(i64::MAX));
    assert_eq!(parse_degrees("-922337203685.4775807"), Some(-i64::MAX));
    assert_eq!(parse_degrees("922337203685.4775808"), None);
    assert_eq!(parse_degrees("-922337203685.4775808"), None);
    assert_eq!(parse_degrees("922337203685.47758074"), Some(i64::MAX));
    assert_eq!(parse_degrees("922337203685.47758075"), None);
    assert_eq!(parse_degrees("922337203686"), None);
    assert_eq!(parse_degrees("99999999999999999999999999999999"), None);
    assert_eq!(parse_degrees("0000000000000000000000000000001.5"), Some(15_000_000));
}

#[test]
fn text_and_parse_agree() {
    for units in [0, 1, -1, 9, 10, 515_074_000, -1_278_000, 1_800_000_000, -900_000_000, i64::MAX] {
        assert_eq!(parse_degrees(&text_of(units)), Some(units));
    }
}
