//! Doubles, decimals, fixed-point values and their text.

use option_desk::binary64::Binary64;
use option_desk::decimal::Decimal;
use option_desk::fixed::{Money, Price, Quantity, UnixNanos};
use option_desk::identifiers::{InstrumentId, OptionSeriesId};
use option_desk::strategy_id::StrategyId;
use option_desk::text::{append_decimal, append_number, append_padded, append_price};

fn double(value: f64) -> Binary64 {
    Binary64 {
        bits: value.to_bits(),
    }
}

#[test]
fn test_doubles_compare_as_doubles_do() {
    let values = [
        f64::NEG_INFINITY,
        f64::MIN,
        -1.5,
        -f64::MIN_POSITIVE,
        -5e-324,
        -0.0,
        0.0,
        5e-324,
        0.1,
        1.0,
        f64::MAX,
        f64::INFINITY,
        f64::NAN,
        -f64::NAN,
    ];
    for a in values {
        for b in values {
            assert_eq!(double(a).le(&double(b)), a <= b, "{a} <= {b}");
            assert_eq!(double(a) == double(b), a == b, "{a} == {b}");
        }
        assert_eq!(double(a).is_nan(), a.is_nan());
    }
    assert_eq!(Binary64::zero().bits, 0);
}

#[test]
fn test_decimals_hold_ninety_six_bits() {
    let largest: i128 = (1 << 96) - 1;
    assert!(Decimal::new(largest, 28).is_some());
    assert!(Decimal::new(-largest, 0).is_some());
    assert!(Decimal::new(largest + 1, 0).is_none());
    assert!(Decimal::new(-largest - 1, 0).is_none());
    assert!(Decimal::new(1, 29).is_none());
    let d = Decimal::new(-125, 2).unwrap();
    assert_eq!((d.mantissa(), d.scale()), (-125, 2));
    assert_eq!((d.abs().mantissa(), d.abs().scale()), (125, 2));
    assert!(!d.is_zero());
    assert!(Decimal::new(0, 5).unwrap().is_zero());
    assert!(Decimal::zero().is_zero());
}

#[test]
fn test_fixed_values_show_the_digits_of_their_precision() {
    let parts = |d: Decimal| (d.mantissa(), d.scale());
    assert_eq!(
        parts(Price::from_raw(1_999_999_999, 0).as_decimal()),
        (1, 0)
    );
    assert_eq!(
        parts(Price::from_raw(-1_999_999_999, 0).as_decimal()),
        (-1, 0)
    );
    assert_eq!(
        parts(Price::from_raw(1_234_567_891, 4).as_decimal()),
        (12_345, 4)
    );
    assert_eq!(
        parts(Price::from_raw(i64::MIN, 9).as_decimal()),
        (i64::MIN as i128, 9)
    );
    assert_eq!(parts(Price::from_raw(7, 12).as_decimal()), (7, 9));
    assert_eq!(
        parts(Money::from_raw(12_500_000_000, 2).as_decimal()),
        (1_250, 2)
    );
}

#[test]
fn test_fixed_values_are_equal_by_value() {
    assert_eq!(Price::from_raw(5, 0), Price::from_raw(5, 9));
    assert_ne!(Price::from_raw(5, 0), Price::from_raw(6, 0));
    assert_eq!(Quantity::from_raw(5, 0), Quantity::from_raw(5, 9));
    assert_ne!(Quantity::from_raw(5, 0), Quantity::from_raw(4, 0));
    assert_eq!(UnixNanos::new(3).as_u64(), 3);
}

#[test]
fn test_numbers_as_text() {
    let mut text = String::from("<");
    append_number(&mut text, 0);
    append_number(&mut text, 340_282_366_920_938_463_463_374_607_431_768_211_455);
    assert_eq!(text, "<0340282366920938463463374607431768211455");

    let mut text = String::new();
    append_padded(&mut text, 7, 3);
    assert_eq!(text, "007");

    let shown = |mantissa: i128, scale: u32| {
        let mut text = String::new();
        append_decimal(&mut text, &Decimal::new(mantissa, scale).unwrap());
        text
    };
    assert_eq!(shown(-5, 3), "-0.005");
    assert_eq!(shown(1_250, 2), "12.50");
    assert_eq!(shown(-10_000, 0), "-10000");
    assert_eq!(shown(0, 2), "0.00");

    let mut text = String::new();
    append_price(&mut text, &Price::from_raw(-1_500_000_000, 1));
    assert_eq!(text, "-1.5");
}

#[test]
fn test_identifiers_as_text() {
    let mut text = String::new();
    InstrumentId::new("BTC", "DERIBIT").append_to(&mut text);
    text.push(' ');
    OptionSeriesId::new("V", "U", "S", UnixNanos::new(12)).append_to(&mut text);
    assert_eq!(text, "BTC.DERIBIT V:U:S:12");
}

#[test]
fn test_instruments_are_read_from_text() {
    let read = |text: &str| InstrumentId::from_text(text);
    assert_eq!(read("BTC.DERIBIT"), Some(InstrumentId::new("BTC", "DERIBIT")));
    assert_eq!(read("BRK.B.NYSE"), Some(InstrumentId::new("BRK.B", "NYSE")));
    assert_eq!(read("\u{e9}."), Some(InstrumentId::new("\u{e9}", "")));
    assert_eq!(read("BTC"), None);
    assert_eq!(read(""), None);
}

#[test]
fn test_names_are_ordered_by_their_bytes() {
    let names = ["", "A", "AB", "B", "a", "\u{e9}", "\u{ffff}", "\u{1f600}"];
    for (i, a) in names.iter().enumerate() {
        for (j, b) in names.iter().enumerate() {
            let (left, right) = (StrategyId::new(a), StrategyId::new(b));
            assert_eq!(left.comes_before(&right), i < j);
            assert_eq!(left.same(&right), i == j);
        }
    }
}
