//! Strike ranges and how they resolve.

use option_desk::binary64::Binary64;
use option_desk::fixed::Price;
use option_desk::strike_range::{StrikeRange, DEFAULT_DELTA_FALLBACK_STRIKES};

/// Reads a price such as `50000` or `0.25`.
fn price(text: &str) -> Price {
    let (whole, fraction) = match text.split_once('.') {
        Some((whole, fraction)) => (whole, fraction),
        None => (text, ""),
    };
    let padded = format!("{fraction:0<9}");
    let digits = format!("{whole}{padded}");
    Price::from_raw(digits.parse().unwrap(), fraction.len() as u8)
}

fn prices(values: &[i64]) -> Vec<Price> {
    values.iter().map(|value| price(&value.to_string())).collect()
}

fn double(value: f64) -> Binary64 {
    Binary64 {
        bits: value.to_bits(),
    }
}

fn as_f64(price: &Price) -> f64 {
    price.raw as f64 / 1e9
}

fn relative(strikes_above: usize, strikes_below: usize) -> StrikeRange {
    StrikeRange::AtmRelative {
        strikes_above,
        strikes_below,
    }
}

fn percent(pct: f64) -> StrikeRange {
    StrikeRange::AtmPercent { pct: double(pct) }
}

#[test]
fn test_strike_range_fixed() {
    let range = StrikeRange::Fixed(vec![price("50000"), price("55000")]);
    assert_eq!(
        range,
        StrikeRange::Fixed(vec![price("50000"), price("55000")])
    );
}

#[test]
fn test_strike_range_atm_relative() {
    let range = relative(5, 5);

    if let StrikeRange::AtmRelative {
        strikes_above,
        strikes_below,
    } = range
    {
        assert_eq!(strikes_above, 5);
        assert_eq!(strikes_below, 5);
    } else {
        panic!("Expected AtmRelative variant");
    }
}

#[test]
fn test_strike_range_atm_percent() {
    let range = percent(0.1);
    if let StrikeRange::AtmPercent { pct } = range {
        assert!((f64::from_bits(pct.bits) - 0.1).abs() < f64::EPSILON);
    } else {
        panic!("Expected AtmPercent variant");
    }
}

#[test]
fn test_strike_range_resolve_fixed() {
    let range = StrikeRange::Fixed(vec![price("50000"), price("55000")]);
    let result = range.resolve(None, &[]);
    assert_eq!(result, vec![price("50000"), price("55000")]);
}

#[test]
fn test_strike_range_resolve_fixed_intersects_available_strikes() {
    let range = StrikeRange::Fixed(vec![price("50000"), price("55000"), price("60000")]);
    let available = [price("45000"), price("50000"), price("60000")];

    let result = range.resolve(None, &available);

    assert_eq!(result, vec![price("50000"), price("60000")]);
}

#[test]
fn test_strike_range_resolve_atm_relative() {
    let strikes = prices(&[45000, 47000, 50000, 53000, 55000, 57000]);
    let result = relative(2, 2).resolve(Some(price("50000")), &strikes);
    // ATM at index 2: two below start at 0, two above end behind 4.
    assert_eq!(result.len(), 5);
    assert_eq!(result[0], price("45000"));
    assert_eq!(result[4], price("55000"));
}

fn assert_nearest(atm: &str, expected: &str) {
    let strikes = [price("48000"), price("50000"), price("52000")];

    let result = relative(0, 0).resolve(Some(price(atm)), &strikes);

    assert_eq!(result, vec![price(expected)]);
}

#[test]
fn test_strike_range_resolve_atm_relative_selects_nearest_strike() {
    assert_nearest("49750", "50000");
    assert_nearest("50250", "50000");
    assert_nearest("51750", "52000");
}

#[test]
fn test_strike_range_resolve_atm_relative_exact_high_value() {
    let atm = price("9007199253.999000000");
    let collapsed = price("9007199253.999000001");
    let strikes = [atm, collapsed];
    assert_eq!(as_f64(&collapsed), as_f64(&atm));

    let result = relative(0, 0).resolve(Some(atm), &strikes);

    assert_eq!(result, vec![atm]);
}

#[test]
fn test_strike_range_resolve_atm_relative_saturates_extreme_window() {
    // An extreme window is clamped to the available strikes without overflowing.
    let strikes = prices(&[45000, 50000, 55000]);

    let result = relative(usize::MAX, usize::MAX).resolve(Some(price("50000")), &strikes);

    assert_eq!(result, strikes);
}

#[test]
fn test_strike_range_resolve_atm_relative_no_atm() {
    let strikes = vec![price("50000"), price("55000")];
    // Nothing is selected before an ATM price is known.
    assert!(relative(2, 2).resolve(None, &strikes).is_empty());
}

#[test]
fn test_strike_range_resolve_atm_percent() {
    let strikes = prices(&[45000, 48000, 50000, 52000, 55000, 60000]);
    let result = percent(0.1).resolve(Some(price("50000")), &strikes);
    // A tenth of 50000 is 5000, and the band is closed.
    assert_eq!(result.len(), 5);
    assert!(result.contains(&price("45000")));
    assert!(result.contains(&price("48000")));
    assert!(result.contains(&price("50000")));
    assert!(result.contains(&price("52000")));
    assert!(result.contains(&price("55000")));
}

#[test]
fn test_strike_range_resolve_atm_percent_zero_exact_high_value() {
    let atm = price("9007199253.999000000");
    let collapsed = price("9007199253.999000001");
    let strikes = [atm, collapsed];
    assert_eq!(as_f64(&atm), as_f64(&collapsed));

    let result = percent(0.0).resolve(Some(atm), &strikes);

    assert_eq!(result, vec![atm]);
}

#[test]
fn test_strike_range_resolve_delta_falls_back_to_atm_relative() {
    // Without Greeks a delta range is a window of the default width around the ATM strike.
    let strikes: Vec<Price> = (0..=20)
        .map(|i: i64| price(&(40000 + i * 1000).to_string()))
        .collect();
    let atm = Some(price("50000")); // index 10
    let delta = StrikeRange::Delta {
        target: double(0.25),
        tolerance: double(0.05),
    };
    let expected = relative(
        DEFAULT_DELTA_FALLBACK_STRIKES,
        DEFAULT_DELTA_FALLBACK_STRIKES,
    )
    .resolve(atm, &strikes);

    let result = delta.resolve(atm, &strikes);
    assert_eq!(result, expected);
    assert_eq!(result.len(), 2 * DEFAULT_DELTA_FALLBACK_STRIKES + 1);
    assert!(result.contains(&price("50000")));
    assert!(!result.contains(&price("40000")));
    assert!(!result.contains(&price("60000")));
}

#[test]
fn test_strike_range_resolve_delta_empty_without_atm() {
    let delta = StrikeRange::Delta {
        target: double(0.25),
        tolerance: double(0.05),
    };
    let strikes = vec![price("50000"), price("55000")];
    assert!(delta.resolve(None, &strikes).is_empty());
}

#[test]
fn test_a_tie_goes_to_the_lower_strike() {
    let strikes = prices(&[48000, 50000, 52000]);
    assert_eq!(
        relative(0, 0).resolve(Some(price("49000")), &strikes),
        vec![price("48000")]
    );
    assert_eq!(
        relative(0, 0).resolve(Some(price("51000")), &strikes),
        vec![price("50000")]
    );
}

#[test]
fn test_delta_and_its_window_agree_on_strikes_in_any_order() {
    for strikes in [
        prices(&[5, 5, 5, 5, 5, 5, 5, 5, 5, 5, 5, 5, 5, 5]),
        prices(&[9, 1, 8, 2, 7, 3, 6, 4, 5, 5, 4, 6, 3, 7, 2, 8]),
        prices(&[1, 2, 2, 2, 3, 4, 4, 5, 6, 7, 8, 9, 9, 9]),
    ] {
        for atm in 0..=10 {
            let atm = Some(price(&atm.to_string()));
            let delta = StrikeRange::Delta {
                target: double(0.5),
                tolerance: double(0.1),
            };
            assert_eq!(delta.resolve(atm, &strikes), relative(5, 5).resolve(atm, &strikes));
        }
    }
    // Of a repeated strike the first one is the anchor.
    assert_eq!(
        relative(0, 1).resolve(Some(price("2")), &prices(&[1, 2, 2, 3])),
        prices(&[1, 2])
    );
}

#[test]
fn test_a_price_off_the_ladder_is_anchored_at_its_end() {
    let strikes = prices(&[48000, 50000, 52000]);
    assert_eq!(
        relative(0, 1).resolve(Some(price("99000")), &strikes),
        prices(&[50000, 52000])
    );
    assert_eq!(
        relative(1, 0).resolve(Some(price("1000")), &strikes),
        prices(&[48000, 50000])
    );
}

#[test]
fn test_nothing_is_selected_from_nothing() {
    assert!(relative(3, 3).resolve(Some(price("1")), &[]).is_empty());
    assert!(percent(1.0).resolve(Some(price("1")), &[]).is_empty());
    assert!(percent(1.0).resolve(None, &prices(&[1, 2])).is_empty());
}

#[test]
fn test_a_zero_price_selects_everything() {
    // No strike has a relative distance to a price of zero.
    let strikes = prices(&[0, 1, 2]);
    assert_eq!(percent(0.0).resolve(Some(price("0")), &strikes), strikes);
}

#[test]
fn test_a_band_of_nothing_keeps_the_price_itself() {
    let strikes = prices(&[49999, 50000, 50001]);
    assert_eq!(
        percent(0.0).resolve(Some(price("50000")), &strikes),
        prices(&[50000])
    );
}

#[test]
fn test_a_negative_or_undefined_band_is_empty() {
    let strikes = prices(&[49000, 50000, 51000]);
    assert!(percent(-0.1).resolve(Some(price("50000")), &strikes).is_empty());
    assert!(percent(f64::NAN).resolve(Some(price("50000")), &strikes).is_empty());
}

#[test]
fn test_an_infinite_band_is_everything() {
    let strikes = prices(&[1, 50000, 900000]);
    assert_eq!(
        percent(f64::INFINITY).resolve(Some(price("50000")), &strikes),
        strikes
    );
}

#[test]
fn test_a_band_is_around_negative_prices_too() {
    let strikes = prices(&[-60, -55, -50, -45, -40]);
    assert_eq!(
        percent(0.1).resolve(Some(price("-50")), &strikes),
        prices(&[-55, -50, -45])
    );
}

#[test]
fn test_the_band_is_as_fine_as_a_double() {
    let strikes = prices(&[3, 4, 5]);
    assert_eq!(
        percent(0.25).resolve(Some(price("4")), &strikes),
        prices(&[3, 4, 5])
    );
    assert_eq!(
        percent(0.24999999999999997).resolve(Some(price("4")), &strikes),
        prices(&[4])
    );
}

#[test]
fn test_fixed_strikes_keep_their_order_and_repetitions() {
    let range = StrikeRange::Fixed(prices(&[55000, 50000, 55000]));
    assert_eq!(
        range.resolve(None, &prices(&[50000, 55000])),
        prices(&[55000, 50000, 55000])
    );
}

#[test]
fn test_strikes_are_kept_by_given_distances() {
    let strikes = prices(&[1, 2, 3]);
    let distances = vec![Some(double(0.5)), None, Some(double(0.1))];
    assert_eq!(
        StrikeRange::keep_within(&strikes, &distances, &double(0.2)),
        prices(&[3])
    );
}
