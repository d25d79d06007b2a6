//! What holds of every strike selection.

use vstd::prelude::*;

use crate::binary64::Binary64;
use crate::fixed::{fixed_decimal, Price};
use crate::strike_range::{
    anchor_of, are_relative_gaps, ascending, closer_neighbor, fits_before, gap, is_anchor,
    is_relative_gap, kept, lemma_place_is_between, lists, place, selects, strictly_ascending,
    window, window_around_atm, StrikeRange, DEFAULT_DELTA_FALLBACK_STRIKES,
};

verus! {

/// The anchor of a window is the strike nearest to ATM, and of two strikes equally near it is the
/// lower one.
pub proof fn law_anchor_is_nearest(strikes: Seq<Price>, atm: i64, i: int, j: int)
    requires
        ascending(strikes),
        is_anchor(strikes, atm, i),
        0 <= j < strikes.len(),
    ensures
        gap(strikes[i].raw, atm) <= gap(strikes[j].raw, atm),
        gap(strikes[i].raw, atm) == gap(strikes[j].raw, atm) ==> strikes[i].raw <= strikes[j].raw,
{
    if strikes[i].raw != atm {
        let p = choose|p: int| #[trigger]
            fits_before(strikes, atm, p) && i == closer_neighbor(strikes, atm, p);
        if 0 < p {
            assert(strikes[p - 1].raw < atm);
        }
        if p < strikes.len() {
            assert(atm < strikes[p].raw);
        }
        if j < p {
            assert(strikes[j].raw <= strikes[p - 1].raw);
        } else {
            assert(strikes[p].raw <= strikes[j].raw);
        }
    }
}

/// On a ladder without repeated strikes there is only one anchor.
pub proof fn law_anchor_is_unique(strikes: Seq<Price>, atm: i64, i: int, j: int)
    requires
        strictly_ascending(strikes),
        is_anchor(strikes, atm, i),
        is_anchor(strikes, atm, j),
    ensures
        i == j,
{
    assert(ascending(strikes));
    law_anchor_is_nearest(strikes, atm, i, j);
    law_anchor_is_nearest(strikes, atm, j, i);
}

/// On ascending strikes bisection ends at the first strike that is not below the value.
proof fn lemma_place_on_a_ladder(strikes: Seq<Price>, raw: i64, low: int, high: int)
    requires
        ascending(strikes),
        0 <= low <= high <= strikes.len(),
        forall|i: int| 0 <= i < low ==> strikes[i].raw < raw,
        forall|i: int| high <= i < strikes.len() ==> raw <= strikes[i].raw,
    ensures
        0 <= place(strikes, raw, low, high) <= strikes.len(),
        forall|i: int| 0 <= i < place(strikes, raw, low, high) ==> strikes[i].raw < raw,
        forall|i: int|
            place(strikes, raw, low, high) <= i < strikes.len() ==> raw <= strikes[i].raw,
    decreases high - low,
{
    if low < high {
        let middle = low + (high - low) / 2;
        if strikes[middle].raw < raw {
            lemma_place_on_a_ladder(strikes, raw, middle + 1, high);
        } else {
            lemma_place_on_a_ladder(strikes, raw, low, middle);
        }
    }
}

/// On a ladder the anchor is the ATM price itself where it is listed, otherwise the closer of its
/// two neighbors.
pub proof fn law_anchor_on_a_ladder(strikes: Seq<Price>, atm: i64)
    requires
        ascending(strikes),
        strikes.len() > 0,
    ensures
        is_anchor(strikes, atm, anchor_of(strikes, atm)),
{
    lemma_place_on_a_ladder(strikes, atm, 0, strikes.len() as int);
    let p = place(strikes, atm, 0, strikes.len() as int);
    if !(p < strikes.len() && strikes[p].raw == atm) {
        assert(fits_before(strikes, atm, p)) by {
            assert forall|i: int| p <= i < strikes.len() implies atm < strikes[i].raw by {
                assert(strikes[p].raw <= strikes[i].raw);
            }
        }
    }
}

/// The anchor is one of the strikes, whatever their order.
pub proof fn law_anchor_is_a_strike(strikes: Seq<Price>, atm: i64)
    requires
        strikes.len() > 0,
    ensures
        0 <= anchor_of(strikes, atm) < strikes.len(),
{
    lemma_place_is_between(strikes, atm, 0, strikes.len() as int);
}

/// What a range selects around ATM is determined by the strikes and the ATM price, whatever the
/// order of the strikes.
pub proof fn law_relative_selection_is_determined(
    range: StrikeRange,
    strikes: Seq<Price>,
    atm_price: Option<Price>,
    first: Seq<Price>,
    second: Seq<Price>,
)
    requires
        range is AtmRelative || range is Delta,
        selects(range, atm_price, strikes, first),
        selects(range, atm_price, strikes, second),
    ensures
        first == second,
{
}

/// A window holds its anchor, never more strikes on a side than wanted, and fewer only where the
/// ladder ends.
pub proof fn law_window_is_clamped(strikes: Seq<Price>, anchor: int, above: int, below: int)
    requires
        0 <= anchor < strikes.len(),
        0 <= above,
        0 <= below,
    ensures
        window(strikes, anchor, above, below).contains(strikes[anchor]),
        window(strikes, anchor, above, below).len() == (if anchor < below {
            anchor
        } else {
            below
        }) + 1 + (if strikes.len() - 1 - anchor < above {
            strikes.len() - 1 - anchor
        } else {
            above
        }),
{
    let start = if anchor >= below {
        anchor - below
    } else {
        0
    };
    assert(window(strikes, anchor, above, below)[anchor - start] == strikes[anchor]);
}

/// A window that reaches past both ends of the ladder is the whole ladder.
pub proof fn law_wide_window_is_everything(strikes: Seq<Price>, anchor: int, above: int, below: int)
    requires
        0 <= anchor < strikes.len(),
        strikes.len() <= above,
        strikes.len() <= below,
    ensures
        window(strikes, anchor, above, below) == strikes,
{
}

/// A range around ATM selects nothing while ATM is unknown.
pub proof fn law_nothing_without_atm(range: StrikeRange, strikes: Seq<Price>, selected: Seq<Price>)
    requires
        !(range is Fixed),
        selects(range, None, strikes, selected),
    ensures
        selected.len() == 0,
{
}

/// A delta range selects what a window of five strikes either side of ATM selects, whatever its
/// target and its tolerance, on all strikes.
pub proof fn law_delta_falls_back_to_window(
    range: StrikeRange,
    atm_price: Option<Price>,
    strikes: Seq<Price>,
    by_delta: Seq<Price>,
    by_window: Seq<Price>,
)
    requires
        range is Delta,
        selects(range, atm_price, strikes, by_delta),
        selects(
            StrikeRange::AtmRelative { strikes_above: 5, strikes_below: 5 },
            atm_price,
            strikes,
            by_window,
        ),
    ensures
        by_delta == by_window,
{
}

/// As soon as strikes are listed, every selected strike is one of them.
pub proof fn law_only_available_strikes(
    range: StrikeRange,
    atm_price: Option<Price>,
    strikes: Seq<Price>,
    selected: Seq<Price>,
    k: int,
)
    requires
        selects(range, atm_price, strikes, selected),
        strikes.len() > 0,
        0 <= k < selected.len(),
    ensures
        lists(strikes, selected[k].raw),
        !(range is Fixed) ==> strikes.contains(selected[k]),
{
    match range {
        StrikeRange::Fixed(fixed) => {
            fixed@.lemma_filter_pred(|s: Price| lists(strikes, s.raw), k);
        },
        StrikeRange::AtmPercent { pct } => {
            let atm = atm_price->0;
            if selected != strikes {
                let distances = choose|distances: Seq<Option<Binary64>>|
                    are_relative_gaps(strikes, atm, distances) && selected == #[trigger] kept(
                        strikes,
                        distances,
                        pct,
                    );
                lemma_kept_order(strikes, distances, pct);
            }
            assert(strikes.contains(selected[k]));
            let source = choose|i: int| 0 <= i < strikes.len() && strikes[i] == selected[k];
            assert(strikes[source].raw == selected[k].raw);
        },
        StrikeRange::AtmRelative { strikes_above, strikes_below } => {
            lemma_window_members(
                strikes,
                atm_price,
                strikes_above as int,
                strikes_below as int,
                selected,
                k,
            );
        },
        StrikeRange::Delta { .. } => {
            lemma_window_members(
                strikes,
                atm_price,
                DEFAULT_DELTA_FALLBACK_STRIKES as int,
                DEFAULT_DELTA_FALLBACK_STRIKES as int,
                selected,
                k,
            );
        },
    }
}

/// A range around ATM keeps an ascending ladder ascending.
pub proof fn law_selection_keeps_order(
    range: StrikeRange,
    atm_price: Option<Price>,
    strikes: Seq<Price>,
    selected: Seq<Price>,
)
    requires
        selects(range, atm_price, strikes, selected),
        !(range is Fixed),
        ascending(strikes),
    ensures
        ascending(selected),
{
    match range {
        StrikeRange::AtmPercent { pct } => {
            if let Some(atm) = atm_price {
                if selected != strikes {
                    let distances = choose|distances: Seq<Option<Binary64>>|
                        are_relative_gaps(strikes, atm, distances) && selected == #[trigger] kept(
                            strikes,
                            distances,
                            pct,
                        );
                    lemma_kept_order(strikes, distances, pct);
                }
            }
        },
        _ => {
            if let Some(atm) = atm_price {
                if strikes.len() > 0 {
                    law_anchor_is_a_strike(strikes, atm.raw);
                }
            }
        },
    }
}

/// Every strike of a window is a strike of the ladder.
proof fn lemma_window_members(
    strikes: Seq<Price>,
    atm_price: Option<Price>,
    above: int,
    below: int,
    selected: Seq<Price>,
    k: int,
)
    requires
        selected == window_around_atm(strikes, atm_price, above, below),
        strikes.len() > 0,
        0 <= k < selected.len(),
        0 <= above,
        0 <= below,
    ensures
        strikes.contains(selected[k]),
{
    let i = anchor_of(strikes, atm_price->0.raw);
    law_anchor_is_a_strike(strikes, atm_price->0.raw);
    let start = if i >= below {
        i - below
    } else {
        0
    };
    assert(selected[k] == strikes[start + k]);
}

/// What is kept of an ascending ladder is part of it, and ascends.
proof fn lemma_kept_order(strikes: Seq<Price>, distances: Seq<Option<Binary64>>, pct: Binary64)
    ensures
        forall|k: int|
            0 <= k < kept(strikes, distances, pct).len() ==> strikes.contains(
                #[trigger] kept(strikes, distances, pct)[k],
            ),
        ascending(strikes) ==> ascending(kept(strikes, distances, pct)),
    decreases strikes.len(),
{
    if strikes.len() > 0 {
        let rest = strikes.drop_last();
        lemma_kept_order(rest, distances, pct);
        let part = kept(rest, distances, pct);
        let all = kept(strikes, distances, pct);
        assert forall|k: int| 0 <= k < all.len() implies strikes.contains(#[trigger] all[k]) by {
            if k < part.len() {
                assert(rest.contains(part[k]));
                let i = choose|i: int| 0 <= i < rest.len() && rest[i] == part[k];
                assert(strikes[i] == all[k]);
            } else {
                assert(strikes[strikes.len() - 1] == all[k]);
            }
        }
        if ascending(strikes) {
            assert(ascending(rest));
            assert forall|a: int, b: int| 0 <= a <= b < all.len() implies all[a].raw
                <= all[b].raw by {
                if b >= part.len() && a < part.len() {
                    assert(rest.contains(part[a]));
                }
            }
        }
    }
}

/// A strike whose distance is at most the percentage is kept.
proof fn lemma_near_is_kept(
    strikes: Seq<Price>,
    distances: Seq<Option<Binary64>>,
    pct: Binary64,
    j: int,
)
    requires
        0 <= j < strikes.len(),
        distances[j] is Some,
        distances[j]->0.at_most(pct),
    ensures
        kept(strikes, distances, pct).contains(strikes[j]),
    decreases strikes.len(),
{
    let rest = strikes.drop_last();
    let all = kept(strikes, distances, pct);
    if j == strikes.len() - 1 {
        assert(all[all.len() - 1] == strikes[j]);
    } else {
        lemma_near_is_kept(rest, distances, pct, j);
        let part = kept(rest, distances, pct);
        let k = choose|k: int| 0 <= k < part.len() && part[k] == rest[j];
        assert(all[k] == strikes[j]);
    }
}

/// A percentage that is not negative selects ATM itself where it is listed.
pub proof fn law_band_keeps_atm(
    pct: Binary64,
    atm: Price,
    strikes: Seq<Price>,
    selected: Seq<Price>,
)
    requires
        selects(StrikeRange::AtmPercent { pct }, Some(atm), strikes, selected),
        (Binary64 { bits: 0 }).at_most(pct),
        strikes.contains(atm),
    ensures
        selected.contains(atm),
{
    let j = choose|j: int| 0 <= j < strikes.len() && strikes[j] == atm;
    if fixed_decimal(atm.raw, atm.precision).mantissa != 0 {
        let distances = choose|distances: Seq<Option<Binary64>>|
            are_relative_gaps(strikes, atm, distances) && selected == #[trigger] kept(
                strikes,
                distances,
                pct,
            );
        assert(distances[j] is Some);
        lemma_near_is_kept(strikes, distances, pct, j);
    }
}

/// Strikes that are all further away than the percentage are not kept.
proof fn lemma_far_is_not_kept(strikes: Seq<Price>, distances: Seq<Option<Binary64>>, pct: Binary64)
    requires
        forall|i: int|
            0 <= i < strikes.len() ==> (#[trigger] distances[i]) is Some
                && !distances[i]->0.at_most(pct),
    ensures
        kept(strikes, distances, pct).len() == 0,
    decreases strikes.len(),
{
    if strikes.len() > 0 {
        lemma_far_is_not_kept(strikes.drop_last(), distances, pct);
        assert(distances[strikes.len() - 1] is Some);
    }
}

/// A percentage that is below zero, or is not a number, selects nothing around a price other than
/// zero.
pub proof fn law_negative_band_is_empty(
    pct: Binary64,
    atm: Price,
    strikes: Seq<Price>,
    selected: Seq<Price>,
)
    requires
        selects(StrikeRange::AtmPercent { pct }, Some(atm), strikes, selected),
        !(Binary64 { bits: 0 }).at_most(pct),
        fixed_decimal(atm.raw, atm.precision).mantissa != 0,
    ensures
        selected.len() == 0,
{
    let distances = choose|distances: Seq<Option<Binary64>>|
        are_relative_gaps(strikes, atm, distances) && selected == #[trigger] kept(
            strikes,
            distances,
            pct,
        );
    assert forall|i: int| 0 <= i < strikes.len() implies (#[trigger] distances[i]) is Some
        && !distances[i]->0.at_most(pct) by {
        assert(is_relative_gap(strikes[i], atm, distances[i]->0));
    }
    lemma_far_is_not_kept(strikes, distances, pct);
}

/// On a ladder a relative range selects one run of neighboring strikes, for every ATM price, listed
/// or not. The run holds the strike nearest to ATM, the lower one of two that are equally near; as
/// many strikes before it as wanted, or all there are; and as many behind it as wanted, or all
/// there are.
pub proof fn law_relative_run(
    strikes: Seq<Price>,
    atm: Price,
    above: usize,
    below: usize,
    selected: Seq<Price>,
) -> (nearest: int)
    requires
        ascending(strikes),
        strikes.len() > 0,
        selects(
            StrikeRange::AtmRelative { strikes_above: above, strikes_below: below },
            Some(atm),
            strikes,
            selected,
        ),
    ensures
        0 <= nearest < strikes.len(),
        forall|j: int|
            0 <= j < strikes.len() ==> {
                let here = strikes[nearest].raw - atm.raw;
                let there = (#[trigger] strikes[j]).raw - atm.raw;
                &&& -there <= here <= there || there <= here <= -there
                &&& here == there || here == -there ==> strikes[nearest].raw <= strikes[j].raw
            },
        ({
            let before = if below <= nearest {
                below as int
            } else {
                nearest
            };
            let behind = if above <= strikes.len() - 1 - nearest {
                above as int
            } else {
                strikes.len() - 1 - nearest
            };
            &&& selected.len() == before + 1 + behind
            &&& forall|k: int|
                0 <= k < selected.len() ==> #[trigger] selected[k] == strikes[nearest - before + k]
        }),
{
    let nearest = anchor_of(strikes, atm.raw);
    law_anchor_on_a_ladder(strikes, atm.raw);
    assert forall|j: int| 0 <= j < strikes.len() implies {
        let here = strikes[nearest].raw - atm.raw;
        let there = (#[trigger] strikes[j]).raw - atm.raw;
        &&& -there <= here <= there || there <= here <= -there
        &&& here == there || here == -there ==> strikes[nearest].raw <= strikes[j].raw
    } by {
        law_anchor_is_nearest(strikes, atm.raw, nearest, j);
    }
    nearest
}

/// Without strikes, or without an ATM price, a relative range selects nothing.
pub proof fn law_relative_of_nothing(
    strikes: Seq<Price>,
    atm_price: Option<Price>,
    above: usize,
    below: usize,
    selected: Seq<Price>,
)
    requires
        strikes.len() == 0 || atm_price is None,
        selects(
            StrikeRange::AtmRelative { strikes_above: above, strikes_below: below },
            atm_price,
            strikes,
            selected,
        ),
    ensures
        selected.len() == 0,
{
}

/// Where what a filter keeps stood.
proof fn lemma_filtered_places(fixed: Seq<Price>, keep: spec_fn(Price) -> bool) -> (places: Seq<int>)
    ensures
        places.len() == fixed.filter(keep).len(),
        forall|k: int|
            0 <= k < places.len() ==> 0 <= #[trigger] places[k] < fixed.len() && fixed.filter(
                keep,
            )[k] == fixed[places[k]],
        forall|k: int, l: int| 0 <= k < l < places.len() ==> places[k] < places[l],
        forall|i: int| 0 <= i < fixed.len() ==> (places.contains(i) <==> keep(#[trigger] fixed[i])),
    decreases fixed.len(),
{
    reveal(Seq::filter);
    if fixed.len() == 0 {
        Seq::empty()
    } else {
        let rest = fixed.drop_last();
        let last = fixed.len() - 1;
        let before = lemma_filtered_places(rest, keep);
        let places = if keep(fixed.last()) {
            before.push(last)
        } else {
            before
        };
        assert forall|i: int| 0 <= i < fixed.len() implies (places.contains(i) <==> keep(
            #[trigger] fixed[i],
        )) by {
            if i < last {
                assert(rest[i] == fixed[i]);
            }
            if before.contains(i) {
                let k = choose|k: int| 0 <= k < before.len() && before[k] == i;
                assert(places[k] == i);
            }
            if places.contains(i) && i < last {
                let k = choose|k: int| 0 <= k < places.len() && places[k] == i;
                assert(before[k] == i);
            }
            if i == last {
                if keep(fixed.last()) {
                    assert(places[places.len() - 1] == last);
                } else if places.contains(last) {
                    let k = choose|k: int| 0 <= k < before.len() && before[k] == last;
                    assert(before[k] < rest.len());
                }
            }
        }
        assert forall|k: int| 0 <= k < places.len() implies 0 <= #[trigger] places[k] < fixed.len()
            && fixed.filter(keep)[k] == fixed[places[k]] by {
            if k < before.len() {
                assert(places[k] == before[k]);
                assert(rest[before[k]] == fixed[before[k]]);
            }
        }
        assert forall|k: int, l: int| 0 <= k < l < places.len() implies places[k] < places[l] by {
            assert(places[k] == before[k]);
            if l < before.len() {
                assert(places[l] == before[l]);
            }
        }
        places
    }
}

/// A fixed range selects, in their order, exactly those of its strikes that are listed by value; all
/// of them while nothing is listed. The ATM price does not matter.
pub proof fn law_fixed_selection(
    fixed: Vec<Price>,
    atm_price: Option<Price>,
    strikes: Seq<Price>,
    selected: Seq<Price>,
) -> (places: Seq<int>)
    requires
        selects(StrikeRange::Fixed(fixed), atm_price, strikes, selected),
    ensures
        strikes.len() == 0 ==> selected == fixed@,
        strikes.len() > 0 ==> {
            &&& selected.len() == places.len()
            &&& forall|k: int|
                0 <= k < places.len() ==> 0 <= #[trigger] places[k] < fixed@.len() && selected[k]
                    == fixed@[places[k]]
            &&& forall|k: int, l: int| 0 <= k < l < places.len() ==> places[k] < places[l]
            &&& forall|i: int|
                0 <= i < fixed@.len() ==> (places.contains(i) <==> exists|j: int|
                    0 <= j < strikes.len() && (#[trigger] strikes[j]).raw == (
                    #[trigger] fixed@[i]).raw)
        },
{
    let keep = |s: Price| lists(strikes, s.raw);
    let places = lemma_filtered_places(fixed@, keep);
    assert forall|i: int| 0 <= i < fixed@.len() implies (places.contains(i) <==> exists|j: int|
        0 <= j < strikes.len() && (#[trigger] strikes[j]).raw == (#[trigger] fixed@[i]).raw) by {
        assert(places.contains(i) <==> keep(fixed@[i]));
    }
    places
}

} // verus!
