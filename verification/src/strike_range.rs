//! Which strikes of an option series to subscribe to.

use vstd::prelude::*;

use std::collections::HashSet;

use crate::binary64::Binary64;
use crate::decimal::{
    decimal_converts_to, decimal_div, decimal_quotient, decimal_sub, decimal_to_double,
    double_is_near, quotient_is_near, DecimalView,
};
use crate::fixed::{
    fixed_decimal, lemma_fixed_decimal_bounds, lemma_fixed_decimals_are_operands, Price,
};

verus! {

broadcast use vstd::std_specs::hash::group_hash_axioms;

/// Number of strikes either side of ATM that [`StrikeRange::Delta`] selects as long as there are
/// no Greeks to resolve a delta from.
pub const DEFAULT_DELTA_FALLBACK_STRIKES: usize = 5;

/// Defines which strikes to select from an option series.
#[derive(Clone, Debug, PartialEq)]
pub enum StrikeRange {
    /// A fixed set of strike prices.
    Fixed(Vec<Price>),
    /// A number of listed strikes above and below ATM.
    AtmRelative {
        /// How many strikes above ATM.
        strikes_above: usize,
        /// How many strikes below ATM.
        strikes_below: usize,
    },
    /// The strikes within a relative distance of the ATM price.
    AtmPercent {
        /// The largest relative distance: one tenth is ten percent.
        pct: Binary64,
    },
    /// The strikes whose absolute option delta is near `target`.
    ///
    /// A delta is resolved from Greeks. Without them [`StrikeRange::resolve`] falls back to an
    /// ATM-relative window of [`DEFAULT_DELTA_FALLBACK_STRIKES`] strikes either side of ATM.
    Delta {
        /// The absolute delta aimed at.
        target: Binary64,
        /// How far from it a delta may lie.
        tolerance: Binary64,
    },
}

/// Whether the strikes stand in ascending order.
pub open spec fn ascending(strikes: Seq<Price>) -> bool {
    forall|i: int, j: int| 0 <= i <= j < strikes.len() ==> strikes[i].raw <= strikes[j].raw
}

/// Whether the strikes stand in ascending order and none occurs twice.
pub open spec fn strictly_ascending(strikes: Seq<Price>) -> bool {
    forall|i: int, j: int| 0 <= i < j < strikes.len() ==> strikes[i].raw < strikes[j].raw
}

/// Whether a strike of the same value is among the strikes.
pub open spec fn lists(strikes: Seq<Price>, raw: i64) -> bool {
    exists|i: int| 0 <= i < strikes.len() && strikes[i].raw == raw
}

/// How far apart two raw values are.
pub open spec fn gap(a: i64, b: i64) -> int {
    if a <= b {
        b - a
    } else {
        a - b
    }
}

/// Whether `raw` belongs between the strikes before `p` and those from `p` on, and is none of them.
pub open spec fn fits_before(strikes: Seq<Price>, raw: i64, p: int) -> bool {
    &&& 0 <= p <= strikes.len()
    &&& forall|i: int| 0 <= i < p ==> strikes[i].raw < raw
    &&& forall|i: int| p <= i < strikes.len() ==> raw < strikes[i].raw
}

/// Of the two strikes around the place `p`, the index of the one closer to `raw`, the lower one
/// where both are equally close; at an end of the ladder, the index of the strike there.
pub open spec fn closer_neighbor(strikes: Seq<Price>, raw: i64, p: int) -> int {
    if p <= 0 {
        0
    } else if p >= strikes.len() {
        strikes.len() - 1
    } else if gap(strikes[p - 1].raw, raw) <= gap(strikes[p].raw, raw) {
        p - 1
    } else {
        p
    }
}

/// Whether the strike at `i` is the one that a window around `atm` is anchored at: the ATM price
/// itself where it is listed, otherwise the closer of its two neighbors.
pub open spec fn is_anchor(strikes: Seq<Price>, atm: i64, i: int) -> bool {
    &&& 0 <= i < strikes.len()
    &&& strikes[i].raw == atm || exists|p: int| #[trigger]
        fits_before(strikes, atm, p) && i == closer_neighbor(strikes, atm, p)
}

/// Where bisection between `low` and `high` ends up: on ascending strikes, at the first strike that
/// is not below `raw`.
pub open spec fn place(strikes: Seq<Price>, raw: i64, low: int, high: int) -> int
    decreases high - low,
{
    if low >= high {
        low
    } else {
        let middle = low + (high - low) / 2;
        if strikes[middle].raw < raw {
            place(strikes, raw, middle + 1, high)
        } else {
            place(strikes, raw, low, middle)
        }
    }
}

/// The index that a window around `atm` is anchored at.
pub open spec fn anchor_of(strikes: Seq<Price>, atm: i64) -> int {
    let p = place(strikes, atm, 0, strikes.len() as int);
    if p < strikes.len() && strikes[p].raw == atm {
        p
    } else {
        closer_neighbor(strikes, atm, p)
    }
}

/// The strike at `anchor` with up to `below` strikes before it and up to `above` behind it.
pub open spec fn window(strikes: Seq<Price>, anchor: int, above: int, below: int) -> Seq<Price> {
    let start = if anchor >= below {
        anchor - below
    } else {
        0
    };
    let end = if anchor + above + 1 <= strikes.len() {
        anchor + above + 1
    } else {
        strikes.len() as int
    };
    strikes.subrange(start, end)
}

/// The window around ATM: empty while ATM is unknown or nothing is listed.
pub open spec fn window_around_atm(
    strikes: Seq<Price>,
    atm_price: Option<Price>,
    above: int,
    below: int,
) -> Seq<Price> {
    match atm_price {
        None => Seq::empty(),
        Some(atm) => if strikes.len() == 0 {
            Seq::empty()
        } else {
            window(strikes, anchor_of(strikes, atm.raw), above, below)
        },
    }
}

/// The strikes whose distance is known and at most `pct`, in order.
pub open spec fn kept(
    strikes: Seq<Price>,
    distances: Seq<Option<Binary64>>,
    pct: Binary64,
) -> Seq<Price>
    decreases strikes.len(),
{
    if strikes.len() == 0 {
        Seq::empty()
    } else {
        let before = kept(strikes.drop_last(), distances, pct);
        match distances[strikes.len() - 1] {
            Some(distance) if distance.at_most(pct) => before.push(strikes.last()),
            _ => before,
        }
    }
}

/// Whether a double is the distance of a strike from ATM relative to ATM, as it is compared with the
/// percentage. It is a number and not negative, and the distance of ATM itself is zero.
pub open spec fn is_relative_gap(strike: Price, atm: Price, distance: Binary64) -> bool {
    let center = fixed_decimal(atm.raw, atm.precision);
    let apart = fixed_decimal(strike.raw, strike.precision).minus(center).magnitude();
    let quotient = decimal_quotient(
        apart.mantissa,
        apart.scale,
        center.magnitude().mantissa,
        center.scale,
    );
    &&& decimal_converts_to(quotient.0, quotient.1, distance.bits)
    &&& quotient_is_near(
        apart,
        center.magnitude(),
        DecimalView { mantissa: quotient.0, scale: quotient.1 },
    )
    &&& double_is_near(DecimalView { mantissa: quotient.0, scale: quotient.1 }, distance)
    &&& quotient.0 >= 0
    &&& !distance.nan()
    &&& !distance.negative()
    &&& apart.mantissa == 0 ==> distance.bits == 0
}

/// Whether these are the relative distances of the strikes from ATM.
pub open spec fn are_relative_gaps(
    strikes: Seq<Price>,
    atm: Price,
    distances: Seq<Option<Binary64>>,
) -> bool {
    &&& distances.len() == strikes.len()
    &&& forall|i: int|
        0 <= i < strikes.len() ==> (#[trigger] distances[i]) is Some && is_relative_gap(
            strikes[i],
            atm,
            distances[i]->0,
        )
}

/// Whether `selected` are the strikes that are within a relative distance of ATM; all of them where
/// ATM is zero.
pub open spec fn selects_band(
    strikes: Seq<Price>,
    atm: Price,
    pct: Binary64,
    selected: Seq<Price>,
) -> bool {
    if fixed_decimal(atm.raw, atm.precision).mantissa == 0 {
        selected == strikes
    } else {
        exists|distances: Seq<Option<Binary64>>|
            are_relative_gaps(strikes, atm, distances) && selected == #[trigger] kept(
                strikes,
                distances,
                pct,
            )
    }
}

/// Whether `selected` is what a range selects from the available strikes.
pub open spec fn selects(
    range: StrikeRange,
    atm_price: Option<Price>,
    strikes: Seq<Price>,
    selected: Seq<Price>,
) -> bool {
    match range {
        StrikeRange::Fixed(fixed) => selected == if strikes.len() == 0 {
            fixed@
        } else {
            fixed@.filter(|s: Price| lists(strikes, s.raw))
        },
        StrikeRange::AtmRelative { strikes_above, strikes_below } => selected == window_around_atm(
            strikes,
            atm_price,
            strikes_above as int,
            strikes_below as int,
        ),
        StrikeRange::AtmPercent { pct } => match atm_price {
            None => selected == Seq::<Price>::empty(),
            Some(atm) => selects_band(strikes, atm, pct, selected),
        },
        StrikeRange::Delta { .. } => selected == window_around_atm(
            strikes,
            atm_price,
            DEFAULT_DELTA_FALLBACK_STRIKES as int,
            DEFAULT_DELTA_FALLBACK_STRIKES as int,
        ),
    }
}

/// The number of raw values between two of them.
fn raw_gap(a: i64, b: i64) -> (g: u64)
    ensures
        g == gap(a, b),
{
    if a <= b {
        (b as i128 - a as i128) as u64
    } else {
        (a as i128 - b as i128) as u64
    }
}

/// Bisection ends between its bounds.
pub proof fn lemma_place_is_between(strikes: Seq<Price>, raw: i64, low: int, high: int)
    requires
        low <= high,
    ensures
        low <= place(strikes, raw, low, high) <= high,
    decreases high - low,
{
    if low < high {
        let middle = low + (high - low) / 2;
        lemma_place_is_between(strikes, raw, middle + 1, high);
        lemma_place_is_between(strikes, raw, low, middle);
    }
}

/// The index at which a window around `atm` is anchored.
fn find_anchor(strikes: &[Price], atm: i64) -> (i: usize)
    requires
        strikes@.len() > 0,
    ensures
        i < strikes@.len(),
        i == anchor_of(strikes@, atm),
{
    let mut low: usize = 0;
    let mut high: usize = strikes.len();
    while low < high
        invariant
            low <= high <= strikes@.len(),
            place(strikes@, atm, low as int, high as int) == place(
                strikes@,
                atm,
                0,
                strikes@.len() as int,
            ),
        decreases high - low,
    {
        let middle: usize = low + (high - low) / 2;
        if strikes[middle].raw < atm {
            low = middle + 1;
        } else {
            high = middle;
        }
    }
    if low < strikes.len() && strikes[low].raw == atm {
        low
    } else if low == 0 {
        0
    } else if low >= strikes.len() {
        strikes.len() - 1
    } else if raw_gap(strikes[low - 1].raw, atm) <= raw_gap(strikes[low].raw, atm) {
        low - 1
    } else {
        low
    }
}

/// The window of strikes around ATM.
fn around_atm(
    strikes: &[Price],
    atm_price: Option<Price>,
    strikes_above: usize,
    strikes_below: usize,
) -> (selected: Vec<Price>)
    ensures
        selected@ == window_around_atm(
            strikes@,
            atm_price,
            strikes_above as int,
            strikes_below as int,
        ),
{
    let atm = match atm_price {
        Some(atm) => atm,
        None => {
            return Vec::new();
        },
    };
    if strikes.len() == 0 {
        return Vec::new();
    }
    let anchor: usize = find_anchor(strikes, atm.raw);
    let start: usize = anchor.saturating_sub(strikes_below);
    let wanted: usize = anchor.saturating_add(strikes_above).saturating_add(1);
    let end: usize = if wanted < strikes.len() { wanted } else { strikes.len() };
    let selected = vstd::slice::slice_to_vec(vstd::slice::slice_subrange(strikes, start, end));
    assert(selected@ == window(
        strikes@,
        anchor as int,
        strikes_above as int,
        strikes_below as int,
    ));
    selected
}

/// The fixed strikes that are available.
fn available_of(fixed: &Vec<Price>, strikes: &[Price]) -> (selected: Vec<Price>)
    ensures
        selected@ == fixed@.filter(|s: Price| lists(strikes@, s.raw)),
{
    let mut available: HashSet<i64> = HashSet::new();
    let mut i: usize = 0;
    while i < strikes.len()
        invariant
            i <= strikes@.len(),
            forall|raw: i64| #[trigger]
                available@.contains(raw) <==> exists|j: int|
                    0 <= j < i && #[trigger] strikes@[j].raw == raw,
        decreases strikes.len() - i,
    {
        let ghost before = available@;
        available.insert(strikes[i].raw);
        assert forall|raw: i64| #[trigger] available@.contains(raw) <==> exists|j: int|
            0 <= j < i + 1 && #[trigger] strikes@[j].raw == raw by {
            if available@.contains(raw) {
                if !before.contains(raw) {
                    assert(strikes@[i as int].raw == raw);
                }
            }
        }
        i += 1;
    }
    assert(forall|raw: i64| #[trigger] available@.contains(raw) <==> lists(strikes@, raw));
    let ghost pred = |s: Price| lists(strikes@, s.raw);
    let mut selected: Vec<Price> = Vec::new();
    let mut k: usize = 0;
    assert(fixed@.take(0).filter(pred) == Seq::<Price>::empty()) by {
        reveal(Seq::filter);
    }
    while k < fixed.len()
        invariant
            k <= fixed@.len(),
            pred == (|s: Price| lists(strikes@, s.raw)),
            forall|raw: i64| #[trigger] available@.contains(raw) <==> lists(strikes@, raw),
            selected@ == fixed@.take(k as int).filter(pred),
        decreases fixed.len() - k,
    {
        proof {
            reveal(Seq::filter);
            assert(fixed@.take(k + 1).drop_last() == fixed@.take(k as int));
            assert(fixed@.take(k + 1).last() == fixed@[k as int]);
        }
        if available.contains(&fixed[k].raw) {
            selected.push(fixed[k]);
        }
        k += 1;
    }
    assert(fixed@.take(k as int) == fixed@);
    selected
}

impl StrikeRange {
    /// The distance of `strike` from `atm` relative to `atm`, as a double.
    ///
    /// `atm` is not zero.
    fn relative_distance(strike: &Price, atm: &Price) -> (distance: Option<Binary64>)
        requires
            fixed_decimal(atm.raw, atm.precision).mantissa != 0,
        ensures
            distance is Some,
            is_relative_gap(*strike, *atm, distance->0),
    {
        proof {
            lemma_fixed_decimals_are_operands(strike.raw, strike.precision, atm.raw, atm.precision);
            lemma_fixed_decimal_bounds(atm.raw, atm.precision);
        }
        let center = atm.as_decimal();
        let gap = decimal_sub(&strike.as_decimal(), &center).abs();
        let quotient = decimal_div(&gap, &center.abs());
        proof {
            use_type_invariant(&quotient);
        }
        decimal_to_double(&quotient)
    }

    /// Keeps the strikes whose relative distance is known and at most `pct`.
    pub fn keep_within(strikes: &[Price], distances: &[Option<Binary64>], pct: &Binary64) -> (selected:
        Vec<Price>)
        requires
            strikes@.len() == distances@.len(),
        ensures
            selected@ == kept(strikes@, distances@, *pct),
    {
        let mut selected: Vec<Price> = Vec::new();
        let mut i: usize = 0;
        while i < strikes.len()
            invariant
                i <= strikes@.len(),
                strikes@.len() == distances@.len(),
                selected@ == kept(strikes@.take(i as int), distances@, *pct),
            decreases strikes.len() - i,
        {
            proof {
                assert(strikes@.take(i + 1).drop_last() == strikes@.take(i as int));
                assert(strikes@.take(i + 1).last() == strikes@[i as int]);
            }
            match &distances[i] {
                Some(distance) => {
                    if distance.le(pct) {
                        selected.push(strikes[i]);
                    }
                },
                None => {},
            }
            i += 1;
        }
        assert(strikes@.take(i as int) == strikes@);
        selected
    }

    /// The strikes within a relative distance of ATM.
    fn around_price(strikes: &[Price], atm: &Price, pct: &Binary64) -> (selected: Vec<Price>)
        ensures
            selects_band(strikes@, *atm, *pct, selected@),
    {
        if atm.as_decimal().is_zero() {
            return vstd::slice::slice_to_vec(strikes);
        }
        let mut distances: Vec<Option<Binary64>> = Vec::new();
        let mut i: usize = 0;
        while i < strikes.len()
            invariant
                i <= strikes@.len(),
                distances@.len() == i,
                fixed_decimal(atm.raw, atm.precision).mantissa != 0,
                forall|j: int|
                    0 <= j < i ==> (#[trigger] distances@[j]) is Some && is_relative_gap(
                        strikes@[j],
                        *atm,
                        distances@[j]->0,
                    ),
            decreases strikes.len() - i,
        {
            distances.push(Self::relative_distance(&strikes[i], atm));
            i += 1;
        }
        assert(are_relative_gaps(strikes@, *atm, distances@));
        Self::keep_within(strikes, distances.as_slice(), pct)
    }

    /// Resolves the strikes that the range selects from the available ones.
    ///
    /// - `Fixed`: the fixed strikes that are available, or all of them while nothing is listed.
    /// - `AtmRelative`: the strike closest to ATM with the wanted number of strikes either side.
    /// - `AtmPercent`: the strikes within a relative distance of ATM.
    /// - `Delta`: an ATM-relative window, since there are no Greeks here.
    ///
    /// While `atm_price` is `None` the ranges around ATM select nothing.
    pub fn resolve(&self, atm_price: Option<Price>, all_strikes: &[Price]) -> (selected: Vec<Price>)
        ensures
            selects(*self, atm_price, all_strikes@, selected@),
    {
        match self {
            StrikeRange::Fixed(strikes) => {
                if all_strikes.len() == 0 {
                    vstd::slice::slice_to_vec(strikes.as_slice())
                } else {
                    available_of(strikes, all_strikes)
                }
            },
            StrikeRange::AtmRelative { strikes_above, strikes_below } => around_atm(
                all_strikes,
                atm_price,
                *strikes_above,
                *strikes_below,
            ),
            StrikeRange::AtmPercent { pct } => match atm_price {
                None => Vec::new(),
                Some(atm) => Self::around_price(all_strikes, &atm, pct),
            },
            StrikeRange::Delta { .. } => around_atm(
                all_strikes,
                atm_price,
                DEFAULT_DELTA_FALLBACK_STRIKES,
                DEFAULT_DELTA_FALLBACK_STRIKES,
            ),
        }
    }
}

} // verus!
