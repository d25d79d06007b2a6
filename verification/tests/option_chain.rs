//! Greeks and option chain snapshots.

use option_desk::binary64::Binary64;
use option_desk::chain::{OptionChainSlice, OptionStrikeData, QuoteTick, StrikeTable};
use option_desk::fixed::{Price, Quantity, UnixNanos};
use option_desk::greeks::{
    GreeksConvention, GreeksText, HasGreeks, HasTsInit, OptionGreekValues, OptionGreeks,
};
use option_desk::identifiers::{InstrumentId, OptionSeriesId};
use option_desk::strike_range::StrikeRange;

const SCALE: i64 = 1_000_000_000;

fn price(value: i64) -> Price {
    Price::from_raw(value * SCALE, 0)
}

fn double(value: f64) -> Binary64 {
    Binary64 {
        bits: value.to_bits(),
    }
}

fn instrument(symbol: &str) -> InstrumentId {
    InstrumentId::new(symbol, "DERIBIT")
}

fn make_quote(instrument_id: InstrumentId) -> QuoteTick {
    QuoteTick {
        instrument_id,
        bid_price: Price::from_raw(100 * SCALE, 2),
        ask_price: Price::from_raw(101 * SCALE, 2),
        bid_size: Quantity::from_raw(1_000_000_000, 1),
        ask_size: Quantity::from_raw(1_000_000_000, 1),
        ts_event: UnixNanos::new(1),
        ts_init: UnixNanos::new(1),
    }
}

fn make_series_id() -> OptionSeriesId {
    OptionSeriesId::new(
        "DERIBIT",
        "BTC",
        "BTC",
        UnixNanos::new(1_700_000_000_000_000_000),
    )
}

fn empty_slice() -> OptionChainSlice {
    OptionChainSlice {
        series_id: make_series_id(),
        atm_strike: None,
        atm_price: None,
        atm_instrument_id: None,
        calls: StrikeTable::new(),
        puts: StrikeTable::new(),
        listed_strikes: Vec::new(),
        ts_event: UnixNanos::new(1),
        ts_init: UnixNanos::new(1),
    }
}

fn strike_data(strike: i64, side: &str) -> OptionStrikeData {
    OptionStrikeData {
        quote: make_quote(instrument(&format!("BTC-20240101-{strike}-{side}"))),
        greeks: None,
    }
}

fn make_offset_slice(atm_strike: Option<Price>) -> OptionChainSlice {
    let mut slice = empty_slice();
    for strike in [49000, 50000, 51000] {
        slice.calls.insert(price(strike), strike_data(strike, "C"));
        slice.puts.insert(price(strike), strike_data(strike, "P"));
    }
    slice.atm_strike = atm_strike;
    slice.listed_strikes = vec![price(49000), price(50000), price(51000)];
    slice
}

fn make_listed_hole_slice() -> OptionChainSlice {
    let mut slice = empty_slice();
    for strike in [49000, 51000, 53000] {
        slice.calls.insert(price(strike), strike_data(strike, "C"));
        slice.puts.insert(price(strike), strike_data(strike, "P"));
    }
    slice.atm_strike = Some(price(50000));
    slice.atm_price = Some(price(50000));
    slice.listed_strikes = vec![
        price(49000),
        price(50000),
        price(51000),
        price(52000),
        price(53000),
    ];
    slice
}

fn name_of(data: Option<&OptionStrikeData>) -> InstrumentId {
    data.unwrap().quote.instrument_id.clone()
}

#[test]
fn test_option_greeks_default_fields() {
    let greeks = OptionGreeks {
        instrument_id: instrument("BTC-20240101-50000-C"),
        convention: GreeksConvention::BlackScholes,
        greeks: OptionGreekValues::default(),
        mark_iv: None,
        bid_iv: None,
        ask_iv: None,
        underlying_price: None,
        open_interest: None,
        ts_event: UnixNanos::default(),
        ts_init: UnixNanos::default(),
    };
    assert_eq!(greeks.delta, double(0.0));
    assert_eq!(greeks.gamma, double(0.0));
    assert_eq!(greeks.vega, double(0.0));
    assert_eq!(greeks.theta, double(0.0));
    assert!(greeks.mark_iv.is_none());
    assert_eq!(greeks.convention, GreeksConvention::BlackScholes);
}

#[test]
fn test_option_greeks_default_is_black_scholes() {
    let greeks = OptionGreeks::default();
    assert_eq!(greeks.convention, GreeksConvention::BlackScholes);
}

fn shown_greeks() -> OptionGreeks {
    OptionGreeks {
        instrument_id: instrument("BTC-20240101-50000-C"),
        convention: GreeksConvention::PriceAdjusted,
        greeks: OptionGreekValues {
            delta: double(0.55),
            gamma: double(0.001),
            vega: double(10.0),
            theta: double(-5.0),
            rho: double(0.0),
        },
        mark_iv: Some(double(0.65)),
        bid_iv: None,
        ask_iv: None,
        underlying_price: None,
        open_interest: None,
        ts_event: UnixNanos::default(),
        ts_init: UnixNanos::default(),
    }
}

fn texts_of(greeks: &OptionGreeks) -> GreeksText {
    let number = |x: Binary64| format!("{:.4}", f64::from_bits(x.bits));
    GreeksText {
        delta: number(greeks.delta),
        gamma: number(greeks.gamma),
        vega: number(greeks.vega),
        theta: number(greeks.theta),
        mark_iv: format!("{:?}", greeks.mark_iv.map(|x| f64::from_bits(x.bits))),
    }
}

#[test]
fn test_option_greeks_display() {
    let greeks = shown_greeks();
    let display = greeks.display(&texts_of(&greeks));
    assert!(display.contains("OptionGreeks"));
    assert!(display.contains("PRICE_ADJUSTED"));
    assert!(display.contains("0.55"));
}

#[test]
fn test_option_greeks_display_in_full() {
    let greeks = shown_greeks();
    assert_eq!(
        greeks.display(&texts_of(&greeks)),
        "OptionGreeks(BTC-20240101-50000-C.DERIBIT, PRICE_ADJUSTED, delta=0.5500, gamma=0.0010, \
         vega=10.0000, theta=-5.0000, mark_iv=Some(0.65))"
    );
}

#[test]
fn test_option_greeks_default_in_full() {
    let greeks = OptionGreeks::default();
    assert_eq!(greeks.instrument_id, InstrumentId::new("NULL", "NULL"));
    assert_eq!(greeks.greeks(), OptionGreekValues::default());
    assert_eq!(greeks.ts_init(), UnixNanos::new(0));
    assert_eq!(GreeksConvention::BlackScholes.as_str(), "BLACK_SCHOLES");
    assert_eq!(GreeksConvention::PriceAdjusted.as_str(), "PRICE_ADJUSTED");
}

#[test]
fn test_option_chain_slice_empty() {
    let slice = empty_slice();

    assert!(slice.is_empty());
    assert_eq!(slice.strike_count(), 0);
    assert!(slice.strikes().is_empty());
    assert!(slice.listed_strikes.is_empty());
    assert!(slice.get_call_listed_offset(0).is_none());
}

#[test]
fn test_option_chain_slice_with_data() {
    let call_id = instrument("BTC-20240101-50000-C");
    let put_id = instrument("BTC-20240101-50000-P");
    let strike = price(50000);

    let mut slice = empty_slice();
    slice.calls.insert(
        strike,
        OptionStrikeData {
            quote: make_quote(call_id.clone()),
            greeks: Some(OptionGreeks {
                instrument_id: call_id,
                greeks: OptionGreekValues {
                    delta: double(0.55),
                    ..Default::default()
                },
                ..Default::default()
            }),
        },
    );
    slice.puts.insert(
        strike,
        OptionStrikeData {
            quote: make_quote(put_id.clone()),
            greeks: None,
        },
    );
    slice.atm_strike = Some(strike);
    slice.listed_strikes = vec![strike];

    assert!(!slice.is_empty());
    assert_eq!(slice.strike_count(), 1);
    assert_eq!(slice.strikes(), vec![strike]);
    assert!(slice.get_call(&strike).is_some());
    assert!(slice.get_put(&strike).is_some());
    assert!(slice.get_call_greeks(&strike).is_some());
    assert!(slice.get_put_greeks(&strike).is_none());
    assert_eq!(
        slice.get_call_greeks(&strike).unwrap().delta,
        double(0.55)
    );
    assert_eq!(
        slice.get_put_quote(&strike).unwrap().instrument_id,
        put_id
    );
    assert_eq!(
        slice.get_call_quote(&strike).unwrap().bid_price,
        price(100)
    );
}

#[test]
fn test_option_chain_slice_atm_offset_helpers() {
    let slice = make_offset_slice(Some(price(50000)));

    assert_eq!(
        name_of(slice.get_call_atm_offset(0)),
        instrument("BTC-20240101-50000-C"),
    );
    assert_eq!(
        name_of(slice.get_put_atm_offset(0)),
        instrument("BTC-20240101-50000-P"),
    );
    assert_eq!(
        name_of(slice.get_call_atm_offset(1)),
        instrument("BTC-20240101-51000-C"),
    );
    assert_eq!(
        name_of(slice.get_put_atm_offset(-1)),
        instrument("BTC-20240101-49000-P"),
    );
    assert!(slice.get_call_atm_offset(2).is_none());
    assert!(slice.get_put_atm_offset(-2).is_none());
}

#[test]
fn test_option_chain_slice_atm_offset_none_without_atm() {
    let slice = make_offset_slice(None);
    assert!(slice.get_call_atm_offset(0).is_none());
    assert!(slice.get_put_atm_offset(0).is_none());
}

#[test]
fn test_option_chain_slice_atm_offset_none_when_atm_off_chain() {
    let slice = make_offset_slice(Some(price(99999)));
    assert!(slice.get_call_atm_offset(0).is_none());
    assert!(slice.get_put_atm_offset(0).is_none());
}

/// The ATM strike is the closest one listed for the whole series, so it can name a strike without
/// a row here. Offsets are anchored on an exact match, so all of them resolve to nothing.
#[test]
fn test_option_chain_slice_atm_offset_none_when_atm_strike_absent_from_slice() {
    let mut slice = make_offset_slice(Some(price(50000)));
    slice.calls.remove(&price(50000));
    slice.puts.remove(&price(50000));

    assert!(!slice.is_empty());
    assert!(slice.get_call_atm_offset(0).is_none());
    assert!(slice.get_call_atm_offset(1).is_none());
    assert!(slice.get_put_atm_offset(-1).is_none());
}

/// Offsets step over the strikes of both sides, so a strike on one side only yields nothing for
/// the other side rather than skipping to the next strike.
#[test]
fn test_option_chain_slice_atm_offset_none_when_side_missing_at_strike() {
    let mut slice = make_offset_slice(Some(price(50000)));
    slice.calls.remove(&price(51000));

    assert!(slice.get_call_atm_offset(1).is_none());
    assert_eq!(
        name_of(slice.get_put_atm_offset(1)),
        instrument("BTC-20240101-51000-P"),
    );
}

/// Quoted offsets resolve to nothing where ATM itself has no row. Listed offsets still step the
/// catalog, and a missing quote stays missing.
#[test]
fn test_option_chain_slice_listed_offset_steps_catalog_not_quoted_holes() {
    let slice = make_listed_hole_slice();

    assert_eq!(
        slice.strikes(),
        vec![price(49000), price(51000), price(53000)],
    );
    assert!(slice.get_call_atm_offset(0).is_none());
    assert!(slice.get_call_atm_offset(1).is_none());

    assert!(slice.get_call_listed_offset(0).is_none());
    assert_eq!(
        name_of(slice.get_call_listed_offset(1)),
        instrument("BTC-20240101-51000-C"),
    );
    assert!(slice.get_call_listed_offset(2).is_none());
    assert_eq!(
        name_of(slice.get_call_listed_offset(3)),
        instrument("BTC-20240101-53000-C"),
    );
    assert!(slice.get_call_listed_offset(4).is_none());
    assert_eq!(
        name_of(slice.get_put_listed_offset(-1)),
        instrument("BTC-20240101-49000-P"),
    );
}

#[test]
fn test_option_chain_slice_listed_offset_none_without_catalog() {
    let mut slice = make_offset_slice(Some(price(50000)));
    slice.listed_strikes.clear();
    assert!(slice.get_call_listed_offset(0).is_none());
    assert!(slice.get_put_listed_offset(0).is_none());
    assert!(slice.get_call_atm_offset(0).is_some());
}

#[test]
fn test_option_chain_slice_listed_offset_matches_quoted_when_catalog_is_dense() {
    let slice = make_offset_slice(Some(price(50000)));
    assert_eq!(
        name_of(slice.get_call_listed_offset(1)),
        name_of(slice.get_call_atm_offset(1)),
    );
    assert_eq!(
        name_of(slice.get_put_listed_offset(-1)),
        name_of(slice.get_put_atm_offset(-1)),
    );
}

#[test]
fn test_option_chain_slice_display() {
    let display = empty_slice().display();
    assert!(display.contains("OptionChainSlice"));
    assert!(display.contains("DERIBIT"));
}

#[test]
fn test_option_chain_slice_ts_init() {
    let mut slice = empty_slice();
    slice.ts_init = UnixNanos::new(42);

    assert_eq!(slice.ts_init(), UnixNanos::new(42));
}

#[test]
fn test_option_chain_slice_new_empty() {
    let slice = OptionChainSlice::new(make_series_id());
    assert!(slice.is_empty());
    assert_eq!(slice.call_count(), 0);
    assert_eq!(slice.put_count(), 0);
    assert!(slice.atm_strike.is_none());
}

#[test]
fn test_entered_data_is_found_and_removed_data_is_gone() {
    let mut table = StrikeTable::new();
    assert!(table.insert(price(2), strike_data(2, "C")).is_none());
    assert!(table.insert(price(1), strike_data(1, "C")).is_none());
    let before = table.insert(price(2), strike_data(3, "C")).unwrap();
    assert_eq!(
        before.quote.instrument_id,
        instrument("BTC-20240101-2-C")
    );
    assert_eq!(name_of(table.get(&price(2))), instrument("BTC-20240101-3-C"));
    assert_eq!(table.len(), 2);
    assert_eq!(table.keys(), vec![price(1), price(2)]);
    assert!(table.remove(&price(2)).is_some());
    assert!(table.remove(&price(2)).is_none());
    assert!(table.get(&price(2)).is_none());
    assert!(!table.is_empty());
}

#[test]
fn test_strikes_are_compared_by_value() {
    let mut slice = empty_slice();
    slice
        .calls
        .insert(Price::from_raw(SCALE, 0), strike_data(1, "C"));
    slice
        .puts
        .insert(Price::from_raw(SCALE, 2), strike_data(1, "P"));
    assert_eq!(slice.strike_count(), 1);
    assert_eq!(slice.strikes()[0].precision, 0);
    assert!(slice.get_call(&Price::from_raw(SCALE, 2)).is_some());
}

#[test]
fn test_the_ladder_joins_both_sides() {
    let mut slice = empty_slice();
    for strike in [3, 1, 5] {
        slice.calls.insert(price(strike), strike_data(strike, "C"));
    }
    for strike in [4, 1, 2] {
        slice.puts.insert(price(strike), strike_data(strike, "P"));
    }
    assert_eq!(
        slice.strikes(),
        vec![price(1), price(2), price(3), price(4), price(5)]
    );
    assert_eq!(slice.strike_count(), 5);
}

#[test]
fn test_steps_add_up() {
    let mut slice = empty_slice();
    for strike in [10, 20, 30, 40, 50] {
        slice.calls.insert(price(strike), strike_data(strike, "C"));
    }
    slice.atm_strike = Some(price(20));
    let two_up = name_of(slice.get_call_atm_offset(2));
    assert_eq!(two_up, instrument("BTC-20240101-40-C"));

    // Two steps up and one down are one step up.
    slice.atm_strike = Some(price(40));
    let back = name_of(slice.get_call_atm_offset(-1));
    slice.atm_strike = Some(price(20));
    assert_eq!(back, name_of(slice.get_call_atm_offset(1)));
}

#[test]
fn test_stepping_back_returns_to_the_anchor() {
    let mut slice = make_offset_slice(Some(price(49000)));
    let there = slice.strike_at_atm_offset(2);
    assert_eq!(there, Some(price(51000)));
    slice.atm_strike = there;
    assert_eq!(slice.strike_at_atm_offset(-2), Some(price(49000)));
}

#[test]
fn test_one_step_skips_no_strike_of_one_side() {
    let mut slice = empty_slice();
    slice.calls.insert(price(1), strike_data(1, "C"));
    slice.puts.insert(price(2), strike_data(2, "P"));
    slice.calls.insert(price(3), strike_data(3, "C"));
    slice.atm_strike = Some(price(1));
    assert_eq!(slice.strike_at_atm_offset(1), Some(price(2)));
    assert_eq!(slice.strike_at_atm_offset(2), Some(price(3)));
}

#[test]
fn test_listed_steps_go_through_the_relative_window() {
    let slice = make_listed_hole_slice();
    for (above, below) in [(0, 0), (1, 1), (2, 1), (9, 9)] {
        let range = StrikeRange::AtmRelative {
            strikes_above: above,
            strikes_below: below,
        };
        let steps: Vec<Price> = (-(below as i32)..=above as i32)
            .filter_map(|k| slice.strike_at_listed_offset(k))
            .collect();
        assert_eq!(
            steps,
            range.resolve(slice.atm_strike, &slice.listed_strikes)
        );
    }
}

#[test]
fn test_quotes_do_not_move_listed_steps() {
    let slice = make_listed_hole_slice();
    let mut bare = make_listed_hole_slice();
    bare.calls = StrikeTable::new();
    bare.puts = StrikeTable::new();
    bare.atm_price = None;
    for k in -3..=5 {
        assert_eq!(
            slice.strike_at_listed_offset(k),
            bare.strike_at_listed_offset(k)
        );
    }
}

#[test]
fn test_extreme_offsets_resolve_to_nothing() {
    let slice = make_offset_slice(Some(price(50000)));
    assert!(slice.get_call_atm_offset(i32::MAX).is_none());
    assert!(slice.get_call_atm_offset(i32::MIN).is_none());
    assert!(slice.get_put_listed_offset(i32::MAX).is_none());
    assert!(slice.get_put_listed_offset(i32::MIN).is_none());
}

#[test]
fn test_option_chain_slice_display_in_full() {
    let mut slice = make_offset_slice(Some(Price::from_raw(50_000_500_000_000, 2)));
    slice.puts.remove(&price(49000));
    assert_eq!(
        slice.display(),
        "OptionChainSlice(DERIBIT:BTC:BTC:1700000000000000000, atm=Some(Price(50000.50)), \
         calls=3, puts=2)"
    );
    assert_eq!(
        empty_slice().display(),
        "OptionChainSlice(DERIBIT:BTC:BTC:1700000000000000000, atm=None, calls=0, puts=0)"
    );
}
