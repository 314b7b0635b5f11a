use rusttab::decode::{parse_rat, parse_i8, parse_bool01, field_rat, field_i8, blank_line};
use rusttab::rat::Rat;

fn bytes(s: &str) -> Vec<u8> {
    s.as_bytes().to_vec()
}

#[test]
fn rat_parse_plain_integer() {
    assert_eq!(parse_rat(&bytes("2")), Some(Rat { num: 2, den: 1 }));
    assert_eq!(parse_rat(&bytes("0")), Some(Rat { num: 0, den: 1 }));
    assert_eq!(parse_rat(&bytes("-7")), Some(Rat { num: -7, den: 1 }));
    assert_eq!(parse_rat(&bytes("+7")), Some(Rat { num: 7, den: 1 }));
}

#[test]
fn rat_parse_decimal_point() {
    assert_eq!(parse_rat(&bytes("13.5")), Some(Rat { num: 135, den: 10 }));
    assert_eq!(parse_rat(&bytes("-0.25")), Some(Rat { num: -25, den: 100 }));
    assert_eq!(parse_rat(&bytes(".5")), Some(Rat { num: 5, den: 10 }));
    assert_eq!(parse_rat(&bytes("1.")), Some(Rat { num: 1, den: 1 }));
}

#[test]
fn rat_parse_exponent() {
    assert_eq!(parse_rat(&bytes("1.5e1")), Some(Rat { num: 15, den: 1 }));
    assert_eq!(parse_rat(&bytes("2E3")), Some(Rat { num: 2000, den: 1 }));
    assert_eq!(parse_rat(&bytes("25e-2")), Some(Rat { num: 25, den: 100 }));
    assert_eq!(parse_rat(&bytes("-1.25E+2")), Some(Rat { num: -125, den: 1 }));
}

#[test]
fn rat_parse_rejects_malformed() {
    assert_eq!(parse_rat(&bytes("")), None);
    assert_eq!(parse_rat(&bytes("abc")), None);
    assert_eq!(parse_rat(&bytes("1.2.3")), None);
    assert_eq!(parse_rat(&bytes("1e")), None);
    assert_eq!(parse_rat(&bytes("+")), None);
    assert_eq!(parse_rat(&bytes(".")), None);
    assert_eq!(parse_rat(&bytes("1 2")), None);
}

#[test]
fn rat_parse_rejects_out_of_range() {
    // 19 mantissa digits exceed the library's exact-decimal capacity.
    assert_eq!(parse_rat(&bytes("1234567890123456789")), None);
    assert_eq!(parse_rat(&bytes("1e999")), None);
    assert_eq!(parse_rat(&bytes("1e-999")), None);
    // 18 digits still decode.
    assert_eq!(
        parse_rat(&bytes("123456789012345678")),
        Some(Rat { num: 123456789012345678, den: 1 })
    );
}

#[test]
fn i8_parse_range() {
    assert_eq!(parse_i8(&bytes("127")), Some(127));
    assert_eq!(parse_i8(&bytes("-128")), Some(-128));
    assert_eq!(parse_i8(&bytes("128")), None);
    assert_eq!(parse_i8(&bytes("-129")), None);
    assert_eq!(parse_i8(&bytes("+5")), Some(5));
    assert_eq!(parse_i8(&bytes("0000127")), Some(127));
    assert_eq!(parse_i8(&bytes("99999999999")), None);
    assert_eq!(parse_i8(&bytes("")), None);
    assert_eq!(parse_i8(&bytes("1.5")), None);
}

#[test]
fn bool01_parse() {
    assert_eq!(parse_bool01(&bytes("0")), Some(false));
    assert_eq!(parse_bool01(&bytes("1")), Some(true));
    assert_eq!(parse_bool01(&bytes("2")), None);
    assert_eq!(parse_bool01(&bytes("true")), None);
}

#[test]
fn field_trims_surrounding_whitespace() {
    let line = bytes("X   3.5      -2         7          9         ");
    assert_eq!(field_rat(&line, 1, 13), Some(Rat { num: 35, den: 10 }));
    assert_eq!(field_rat(&line, 13, 24), Some(Rat { num: -2, den: 1 }));
    assert_eq!(field_i8(&line, 24, 35), Some(7));
}

#[test]
fn field_on_short_line_fails() {
    let line = bytes("short");
    assert_eq!(field_rat(&line, 1, 13), None);
    assert_eq!(field_i8(&line, 35, 46), None);
}

#[test]
fn blank_line_detection() {
    assert!(blank_line(&bytes("")));
    assert!(blank_line(&bytes("   \t  ")));
    assert!(!blank_line(&bytes("  x ")));
}
