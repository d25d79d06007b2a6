//! What a percentage band around an ATM price holds, in numbers.

use vstd::arithmetic::power2::{lemma_pow2_pos, pow2};
use vstd::prelude::*;

use crate::binary64::{law_doubles_compare_by_value, law_nan_compares_with_nothing, Binary64};
use crate::decimal::{
    decimal_quotient, lemma_pow10_adds, lemma_pow10_grows, pow10, quotient_is_near, DecimalView,
};
use crate::fixed::{fixed_decimal, law_fixed_difference, law_fixed_value, shows_all, Price};
use crate::strike_range::{are_relative_gaps, is_relative_gap, kept, selects, StrikeRange};

verus! {

/// How far a strike is from ATM, in billionths.
pub open spec fn apart(strike: Price, atm: Price) -> int {
    if strike.raw <= atm.raw {
        atm.raw - strike.raw
    } else {
        strike.raw - atm.raw
    }
}

/// How far ATM is from zero, in billionths.
pub open spec fn size(atm: Price) -> int {
    if atm.raw < 0 {
        -(atm.raw as int)
    } else {
        atm.raw as int
    }
}

/// Whether the distance of a strike from ATM is, as a number, below the percentage of ATM by more
/// than a hundred-thousandth of it and ten to the power minus nineteen of ATM.
pub open spec fn clearly_within(strike: Price, atm: Price, pct: Binary64) -> bool {
    pow2(1074) * (10_000_100_000_000_000_000 * apart(strike, atm) + size(atm))
        <= 10_000_000_000_000_000_000 * (pct.units() * size(atm))
}

/// Whether the distance of a strike from ATM is, as a number, above the percentage of ATM by more
/// than a hundred-thousandth of it and ten to the power minus nineteen of ATM.
pub open spec fn clearly_outside(strike: Price, atm: Price, pct: Binary64) -> bool {
    pow2(1074) * (9_999_900_000_000_000_000 * apart(strike, atm) - size(atm))
        > 10_000_000_000_000_000_000 * (pct.units() * size(atm))
}

/// A quotient that is near the exact one, over the exact gap and the exact price.
proof fn lemma_near_in_raw(
    gap: DecimalView,
    center: DecimalView,
    quotient: DecimalView,
    far: int,
    whole: int,
)
    requires
        gap.scale <= 9,
        center.scale <= 9,
        gap.mantissa * pow10((9 - gap.scale) as nat) == far,
        center.mantissa * pow10((9 - center.scale) as nat) == whole,
        center.mantissa > 0,
        quotient_is_near(gap, center, quotient),
    ensures
        ({
            let ten = pow10(quotient.scale);
            let slack = 100_000_000_000_000 * (ten * far) + ten * whole;
            -slack <= 100_000_000_000_000_000_000 * (quotient.mantissa * whole - ten * far) <= slack
        }),
{
    let m = gap.mantissa;
    let c = center.mantissa;
    let q = quotient.mantissa;
    let ten = pow10(quotient.scale);
    let ps = pow10(center.scale);
    let pg = pow10(gap.scale);
    let rs = pow10((9 - center.scale) as nat);
    let rg = pow10((9 - gap.scale) as nat);
    lemma_pow10_adds(center.scale, (9 - center.scale) as nat);
    lemma_pow10_adds(gap.scale, (9 - gap.scale) as nat);
    lemma_pow10_grows(0, gap.scale);
    lemma_pow10_grows(0, (9 - center.scale) as nat);
    lemma_pow10_grows(0, (9 - gap.scale) as nat);
    let exact = m * ps * ten;
    let found = q * c * pg;
    let one = c * pg * ten;
    let k = c * pg;
    assert(k > 0) by (nonlinear_arith)
        requires
            c > 0,
            pg >= 1,
            k == c * pg,
    ;
    // Over the whole price, every term is `k` times one over the raw values.
    assert(exact * whole == k * (ten * far)) by (nonlinear_arith)
        requires
            exact == m * ps * ten,
            whole == c * rs,
            far == m * rg,
            k == c * pg,
            ps * rs == pg * rg,
    ;
    assert(found * whole == k * (q * whole)) by (nonlinear_arith)
        requires
            found == q * c * pg,
            k == c * pg,
    ;
    assert(one * whole == k * (ten * whole)) by (nonlinear_arith)
        requires
            one == c * pg * ten,
            k == c * pg,
    ;
    assert(whole > 0) by (nonlinear_arith)
        requires
            whole == c * rs,
            c > 0,
            rs >= 1,
    ;
    let slack = 100_000_000_000_000 * exact + one;
    let d = 100_000_000_000_000_000_000 * (found - exact);
    let wide = 100_000_000_000_000 * (ten * far) + ten * whole;
    let e = 100_000_000_000_000_000_000 * (q * whole - ten * far);
    assert(slack * whole == k * wide) by (nonlinear_arith)
        requires
            slack == 100_000_000_000_000 * exact + one,
            wide == 100_000_000_000_000 * (ten * far) + ten * whole,
            exact * whole == k * (ten * far),
            one * whole == k * (ten * whole),
    ;
    assert(d * whole == k * e) by (nonlinear_arith)
        requires
            d == 100_000_000_000_000_000_000 * (found - exact),
            e == 100_000_000_000_000_000_000 * (q * whole - ten * far),
            exact * whole == k * (ten * far),
            found * whole == k * (q * whole),
    ;
    assert(e <= wide) by (nonlinear_arith)
        requires
            d <= slack,
            whole > 0,
            k > 0,
            slack * whole == k * wide,
            d * whole == k * e,
    ;
    assert(-wide <= e) by (nonlinear_arith)
        requires
            -slack <= d,
            whole > 0,
            k > 0,
            slack * whole == k * wide,
            d * whole == k * e,
    ;
}

/// A double that is near a quotient that is near the exact one.
proof fn lemma_near_in_units(u: int, q: int, ten: int, t: int, far: int, whole: int)
    requires
        ten >= 1,
        t >= 1,
        q >= 0,
        far >= 0,
        whole > 0,
        -(q * t) <= 1_000_000 * (u * ten - q * t) <= q * t,
        -(100_000_000_000_000 * (ten * far) + ten * whole) <= 100_000_000_000_000_000_000 * (q
            * whole - ten * far) <= 100_000_000_000_000 * (ten * far) + ten * whole,
    ensures
        10_000_000_000_000_000_000 * (u * whole) <= t * (10_000_100_000_000_000_000 * far + whole),
        10_000_000_000_000_000_000 * (u * whole) >= t * (9_999_900_000_000_000_000 * far - whole),
{
    let e20: int = 100_000_000_000_000_000_000;
    let e14: int = 100_000_000_000_000;
    // What the quotient is at most and at least, over the raw values.
    let high = (e20 + e14) * far + whole;
    let low = (e20 - e14) * far - whole;
    assert(e20 * (q * whole) <= ten * high) by (nonlinear_arith)
        requires
            e20 * (q * whole - ten * far) <= e14 * (ten * far) + ten * whole,
            high == (e20 + e14) * far + whole,
    ;
    assert(e20 * (q * whole) >= ten * low) by (nonlinear_arith)
        requires
            -(e14 * (ten * far) + ten * whole) <= e20 * (q * whole - ten * far),
            low == (e20 - e14) * far - whole,
    ;
    // What the double is at most and at least, over the quotient.
    let x = u * whole;
    let y = q * whole;
    assert(1_000_000 * (x * ten) <= 1_000_001 * (y * t)) by (nonlinear_arith)
        requires
            1_000_000 * (u * ten - q * t) <= q * t,
            whole > 0,
            x == u * whole,
            y == q * whole,
    ;
    assert(1_000_000 * (x * ten) >= 999_999 * (y * t)) by (nonlinear_arith)
        requires
            -(q * t) <= 1_000_000 * (u * ten - q * t),
            whole > 0,
            x == u * whole,
            y == q * whole,
    ;
    assert(e20 * (y * t) <= ten * (high * t)) by (nonlinear_arith)
        requires
            e20 * y <= ten * high,
            t >= 1,
    ;
    assert(e20 * (y * t) >= ten * (low * t)) by (nonlinear_arith)
        requires
            e20 * y >= ten * low,
            t >= 1,
    ;
    assert(1_000_000 * (e20 * (x * ten)) <= 1_000_001 * (ten * (high * t)));
    assert(1_000_000 * (e20 * (x * ten)) >= 999_999 * (ten * (low * t)));
    assert(1_000_000 * (e20 * x) <= 1_000_001 * (high * t)) by (nonlinear_arith)
        requires
            1_000_000 * (e20 * (x * ten)) <= 1_000_001 * (ten * (high * t)),
            ten >= 1,
    ;
    assert(1_000_000 * (e20 * x) >= 999_999 * (low * t)) by (nonlinear_arith)
        requires
            1_000_000 * (e20 * (x * ten)) >= 999_999 * (ten * (low * t)),
            ten >= 1,
    ;
    let upper = 10_000_100_000_000_000_000 * far + whole;
    let lower = 9_999_900_000_000_000_000 * far - whole;
    assert(1_000_001 * high <= 10_000_000 * upper);
    assert(999_999 * low >= 10_000_000 * lower);
    assert(1_000_001 * (high * t) <= 10_000_000 * (t * upper)) by (nonlinear_arith)
        requires
            1_000_001 * high <= 10_000_000 * upper,
            t >= 1,
    ;
    assert(999_999 * (low * t) >= 10_000_000 * (t * lower)) by (nonlinear_arith)
        requires
            999_999 * low >= 10_000_000 * lower,
            t >= 1,
    ;
}

/// The distance that is compared with the percentage is near the exact one.
proof fn lemma_distance_is_near(strike: Price, atm: Price, distance: Binary64)
    requires
        shows_all(strike.raw, strike.precision),
        shows_all(atm.raw, atm.precision),
        atm.raw != 0,
        is_relative_gap(strike, atm, distance),
    ensures
        10_000_000_000_000_000_000 * (distance.units() * size(atm)) <= pow2(1074) * (
        10_000_100_000_000_000_000 * apart(strike, atm) + size(atm)),
        10_000_000_000_000_000_000 * (distance.units() * size(atm)) >= pow2(1074) * (
        9_999_900_000_000_000_000 * apart(strike, atm) - size(atm)),
{
    let center = fixed_decimal(atm.raw, atm.precision);
    let gap = fixed_decimal(strike.raw, strike.precision).minus(center);
    law_fixed_value(atm.raw, atm.precision);
    law_fixed_difference(strike.raw, strike.precision, atm.raw, atm.precision);
    let unit = pow10((9 - center.scale) as nat);
    lemma_pow10_grows(0, (9 - center.scale) as nat);
    let part = pow10((9 - gap.scale) as nat);
    lemma_pow10_grows(0, (9 - gap.scale) as nat);
    assert(center.mantissa != 0) by {
        assert(0 * unit == 0);
    }
    assert((-center.mantissa) * unit == -(center.mantissa * unit)) by (nonlinear_arith);
    assert((-gap.mantissa) * part == -(gap.mantissa * part)) by (nonlinear_arith);
    assert(center.mantissa > 0 ==> center.mantissa * unit > 0) by (nonlinear_arith)
        requires
            unit >= 1,
    ;
    assert(center.mantissa < 0 ==> center.mantissa * unit < 0) by (nonlinear_arith)
        requires
            unit >= 1,
    ;
    assert(gap.mantissa > 0 ==> gap.mantissa * part > 0) by (nonlinear_arith)
        requires
            part >= 1,
    ;
    assert(gap.mantissa < 0 ==> gap.mantissa * part < 0) by (nonlinear_arith)
        requires
            part >= 1,
    ;
    assert(0 * part == 0);
    let quotient = decimal_quotient(
        gap.magnitude().mantissa,
        gap.magnitude().scale,
        center.magnitude().mantissa,
        center.scale,
    );
    let q = DecimalView { mantissa: quotient.0, scale: quotient.1 };
    lemma_near_in_raw(gap.magnitude(), center.magnitude(), q, apart(strike, atm), size(atm));
    lemma_pow10_grows(0, q.scale);
    lemma_pow2_pos(1074);
    lemma_near_in_units(
        distance.units(),
        q.mantissa,
        pow10(q.scale),
        pow2(1074) as int,
        apart(strike, atm),
        size(atm),
    );
}

/// A distance clearly below the percentage is at most it, and one clearly above it is not.
proof fn lemma_clear_cases(strike: Price, atm: Price, distance: Binary64, pct: Binary64)
    requires
        shows_all(strike.raw, strike.precision),
        shows_all(atm.raw, atm.precision),
        atm.raw != 0,
        is_relative_gap(strike, atm, distance),
        !pct.nan(),
    ensures
        clearly_within(strike, atm, pct) ==> distance.at_most(pct),
        clearly_outside(strike, atm, pct) ==> !distance.at_most(pct),
{
    lemma_distance_is_near(strike, atm, distance);
    law_doubles_compare_by_value(distance, pct);
    let u = distance.units();
    let p = pct.units();
    let w = size(atm);
    assert(u * w <= p * w ==> u <= p) by (nonlinear_arith)
        requires
            w > 0,
    ;
    assert(u * w > p * w ==> u > p) by (nonlinear_arith)
        requires
            w > 0,
    ;
}

/// Where what is kept of the strikes stood.
proof fn lemma_kept_places(
    strikes: Seq<Price>,
    distances: Seq<Option<Binary64>>,
    pct: Binary64,
) -> (places: Seq<int>)
    ensures
        places.len() == kept(strikes, distances, pct).len(),
        forall|k: int|
            0 <= k < places.len() ==> 0 <= #[trigger] places[k] < strikes.len() && kept(
                strikes,
                distances,
                pct,
            )[k] == strikes[places[k]],
        forall|k: int, l: int| 0 <= k < l < places.len() ==> places[k] < places[l],
        forall|i: int|
            0 <= i < strikes.len() ==> (places.contains(i) <==> (#[trigger] distances[i]) is Some
                && distances[i]->0.at_most(pct)),
    decreases strikes.len(),
{
    if strikes.len() == 0 {
        Seq::empty()
    } else {
        let rest = strikes.drop_last();
        let last = strikes.len() - 1;
        let before = lemma_kept_places(rest, distances, pct);
        let near = distances[last] is Some && distances[last]->0.at_most(pct);
        let places = if near {
            before.push(last)
        } else {
            before
        };
        assert forall|i: int| 0 <= i < strikes.len() implies (places.contains(i) <==> (
        #[trigger] distances[i]) is Some && distances[i]->0.at_most(pct)) by {
            if before.contains(i) {
                let k = choose|k: int| 0 <= k < before.len() && before[k] == i;
                assert(places[k] == i);
            }
            if places.contains(i) && i < last {
                let k = choose|k: int| 0 <= k < places.len() && places[k] == i;
                assert(before[k] == i);
            }
            if i == last {
                if near {
                    assert(places[places.len() - 1] == last);
                } else if places.contains(last) {
                    let k = choose|k: int| 0 <= k < before.len() && before[k] == last;
                    assert(before[k] < rest.len());
                }
            }
        }
        assert forall|k: int| 0 <= k < places.len() implies 0 <= #[trigger] places[k]
            < strikes.len() && kept(strikes, distances, pct)[k] == strikes[places[k]] by {
            if k < before.len() {
                assert(places[k] == before[k]);
            }
        }
        assert forall|k: int, l: int| 0 <= k < l < places.len() implies places[k] < places[l] by {
            assert(places[k] == before[k]);
            if l < before.len() {
                assert(places[l] == before[l]);
            }
        }
        places
    }
}

/// Of strikes whose distances are given, those are kept, in their order, whose distance is known, is a
/// number, and is at most the percentage.
pub proof fn law_kept_by_value(
    strikes: Seq<Price>,
    distances: Seq<Option<Binary64>>,
    pct: Binary64,
) -> (places: Seq<int>)
    requires
        strikes.len() == distances.len(),
    ensures
        places.len() == kept(strikes, distances, pct).len(),
        forall|k: int|
            0 <= k < places.len() ==> 0 <= #[trigger] places[k] < strikes.len() && kept(
                strikes,
                distances,
                pct,
            )[k] == strikes[places[k]],
        forall|k: int, l: int| 0 <= k < l < places.len() ==> places[k] < places[l],
        forall|i: int|
            0 <= i < strikes.len() ==> (places.contains(i) <==> {
                &&& (#[trigger] distances[i]) is Some
                &&& !distances[i]->0.nan()
                &&& !pct.nan()
                &&& distances[i]->0.units() <= pct.units()
            }),
{
    let places = lemma_kept_places(strikes, distances, pct);
    assert forall|i: int| 0 <= i < strikes.len() implies (places.contains(i) <==> {
        &&& (#[trigger] distances[i]) is Some
        &&& !distances[i]->0.nan()
        &&& !pct.nan()
        &&& distances[i]->0.units() <= pct.units()
    }) by {
        if distances[i] is Some && !distances[i]->0.nan() && !pct.nan() {
            law_doubles_compare_by_value(distances[i]->0, pct);
        } else if distances[i] is Some {
            law_nan_compares_with_nothing(distances[i]->0, pct);
        }
    }
    places
}

/// A percentage selects, in their order, strikes at places of the ladder: every place whose strike
/// is as a number clearly within the percentage of ATM, and none whose strike is clearly outside
/// it, whatever the precisions of the prices.
pub proof fn law_band_in_numbers(
    pct: Binary64,
    atm: Price,
    strikes: Seq<Price>,
    selected: Seq<Price>,
) -> (places: Seq<int>)
    requires
        selects(StrikeRange::AtmPercent { pct }, Some(atm), strikes, selected),
        atm.raw != 0,
        shows_all(atm.raw, atm.precision),
        forall|i: int|
            0 <= i < strikes.len() ==> shows_all((#[trigger] strikes[i]).raw, strikes[i].precision),
        !pct.nan(),
    ensures
        selected.len() == places.len(),
        forall|k: int|
            0 <= k < places.len() ==> 0 <= #[trigger] places[k] < strikes.len() && selected[k]
                == strikes[places[k]],
        forall|k: int, l: int| 0 <= k < l < places.len() ==> places[k] < places[l],
        forall|i: int|
            0 <= i < strikes.len() && clearly_within(#[trigger] strikes[i], atm, pct)
                ==> places.contains(i),
        forall|i: int|
            0 <= i < strikes.len() && clearly_outside(#[trigger] strikes[i], atm, pct)
                ==> !places.contains(i),
{
    law_fixed_value(atm.raw, atm.precision);
    assert(0 * pow10((9 - fixed_decimal(atm.raw, atm.precision).scale) as nat) == 0);
    let distances = choose|distances: Seq<Option<Binary64>>|
        are_relative_gaps(strikes, atm, distances) && selected == #[trigger] kept(
            strikes,
            distances,
            pct,
        );
    let places = lemma_kept_places(strikes, distances, pct);
    assert forall|i: int| 0 <= i < strikes.len() implies (clearly_within(
        #[trigger] strikes[i],
        atm,
        pct,
    ) ==> places.contains(i)) && (clearly_outside(strikes[i], atm, pct) ==> !places.contains(
        i,
    )) by {
        assert(distances[i] is Some);
        lemma_clear_cases(strikes[i], atm, distances[i]->0, pct);
    }
    places
}

/// Around a price of zero a percentage selects every strike.
pub proof fn law_band_around_zero_is_everything(
    pct: Binary64,
    atm: Price,
    strikes: Seq<Price>,
    selected: Seq<Price>,
)
    requires
        selects(StrikeRange::AtmPercent { pct }, Some(atm), strikes, selected),
        atm.raw == 0,
    ensures
        selected == strikes,
{
    law_fixed_value(atm.raw, atm.precision);
    let d = fixed_decimal(atm.raw, atm.precision);
    let unit = pow10((9 - d.scale) as nat);
    lemma_pow10_grows(0, (9 - d.scale) as nat);
    assert(d.mantissa != 0 ==> d.mantissa * unit != 0) by (nonlinear_arith)
        requires
            unit >= 1,
    ;
    assert(0 as int % unit == 0) by {
        vstd::arithmetic::div_mod::lemma_small_mod(0, unit as nat);
    }
}

} // verus!
