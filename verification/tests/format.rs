//! Decimal and fixed-point rendering.

use simple_pdf::num::{push_dec, push_dec_padded, push_fixed, Fixed};

fn dec(n: u64) -> String {
    let mut v: Vec<u8> = Vec::new();
    push_dec(n, &mut v);
    String::from_utf8(v).unwrap()
}

fn dec_padded(n: u64, w: u64) -> String {
    let mut v: Vec<u8> = Vec::new();
    push_dec_padded(n, w, &mut v);
    String::from_utf8(v).unwrap()
}

fn fixed(milli: i64) -> String {
    let mut v: Vec<u8> = Vec::new();
    push_fixed(Fixed::from_milli(milli), &mut v);
    String::from_utf8(v).unwrap()
}

#[test]
fn decimal_digits() {
    assert_eq!(dec(0), "0");
    assert_eq!(dec(7), "7");
    assert_eq!(dec(10), "10");
    assert_eq!(dec(65535), "65535");
    assert_eq!(dec(1234567890), "1234567890");
}

#[test]
fn decimal_padding() {
    assert_eq!(dec_padded(0, 10), "0000000000");
    assert_eq!(dec_padded(7, 5), "00007");
    assert_eq!(dec_padded(65535, 5), "65535");
    assert_eq!(dec_padded(123456, 5), "123456");
}

#[test]
fn fixed_point_rendering() {
    assert_eq!(fixed(0), "0");
    assert_eq!(fixed(1000), "1");
    assert_eq!(fixed(10000), "10");
    assert_eq!(fixed(10500), "10.5");
    assert_eq!(fixed(1050), "1.05");
    assert_eq!(fixed(123), "0.123");
    assert_eq!(fixed(-1500), "-1.5");
    assert_eq!(fixed(-250), "-0.25");
    assert_eq!(fixed(612000), "612");
}

#[test]
fn fixed_from_int() {
    assert_eq!(Fixed::from_int(10).milli, 10000);
    assert_eq!(Fixed::from_int(-3).milli, -3000);
    assert_eq!(Fixed::zero().milli, 0);
}
