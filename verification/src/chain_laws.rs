//! What holds of every snapshot of an option chain.

use vstd::prelude::*;

use crate::chain::{
    are_keys, data_at, data_at_strike, entered, first_index, greeks_in, is_ladder, ladder_precision,
    lemma_first_index, lemma_ladder_is_unique, lemma_table_is_finite, quote_in, refers_to,
    stepped, OptionChainSlice, OptionStrikeData, StrikeRow,
};
use crate::fixed::Price;
use crate::strike_laws::law_anchor_on_a_ladder;
use crate::strike_range::{
    anchor_of, ascending, closer_neighbor, fits_before, lists, selects, strictly_ascending,
    StrikeRange,
};

verus! {

/// What was entered at a strike is what the strike holds; every other strike holds what it held.
pub proof fn law_entered_data_is_found(
    rows: Map<i64, StrikeRow>,
    strike: Price,
    data: OptionStrikeData,
    raw: i64,
)
    ensures
        data_at(entered(rows, strike, data), strike.raw) == Some(data),
        raw != strike.raw ==> data_at(entered(rows, strike, data), raw) == data_at(rows, raw),
{
}

/// A removed strike holds nothing; every other strike holds what it held.
pub proof fn law_removed_data_is_gone(rows: Map<i64, StrikeRow>, strike: Price, raw: i64)
    ensures
        data_at(rows.remove(strike.raw), strike.raw) is None,
        raw != strike.raw ==> data_at(rows.remove(strike.raw), raw) == data_at(rows, raw),
{
}

/// Finitely many raw values can be put in ascending order.
proof fn lemma_ascending_order(
    raws: Set<i64>,
    calls: Map<i64, StrikeRow>,
    puts: Map<i64, StrikeRow>,
) -> (strikes: Seq<Price>)
    requires
        raws.finite(),
    ensures
        strictly_ascending(strikes),
        forall|raw: i64| #[trigger] lists(strikes, raw) <==> raws.contains(raw),
        forall|k: int|
            0 <= k < strikes.len() ==> (#[trigger] strikes[k]).precision == ladder_precision(
                calls,
                puts,
                strikes[k].raw,
            ),
    decreases raws.len(),
{
    if raws.len() == 0 {
        assert(forall|raw: i64| !raws.contains(raw)) by {
            assert(raws =~= Set::<i64>::empty());
        }
        Seq::empty()
    } else {
        let raw = raws.choose();
        let rest = lemma_ascending_order(raws.remove(raw), calls, puts);
        assert(!lists(rest, raw));
        let p = lemma_place(rest, raw);
        let strike = Price { raw, precision: ladder_precision(calls, puts, raw) };
        let strikes = rest.insert(p, strike);
        assert forall|i: int, j: int| 0 <= i < j < strikes.len() implies strikes[i].raw
            < strikes[j].raw by {
            let a = if i < p {
                i
            } else {
                i - 1
            };
            let b = if j < p {
                j
            } else {
                j - 1
            };
            if i != p {
                assert(strikes[i] == rest[a]);
            }
            if j != p {
                assert(strikes[j] == rest[b]);
            }
        }
        assert forall|r: i64| #[trigger] lists(strikes, r) <==> raws.contains(r) by {
            if lists(strikes, r) {
                let k = choose|k: int| 0 <= k < strikes.len() && strikes[k].raw == r;
                if k < p {
                    assert(rest[k].raw == r);
                    assert(lists(rest, r));
                } else if k > p {
                    assert(rest[k - 1].raw == r);
                    assert(lists(rest, r));
                }
            }
            if raws.contains(r) {
                if r == raw {
                    assert(strikes[p].raw == r);
                } else {
                    assert(lists(rest, r));
                    let k = choose|k: int| 0 <= k < rest.len() && rest[k].raw == r;
                    if k < p {
                        assert(strikes[k].raw == r);
                    } else {
                        assert(strikes[k + 1].raw == r);
                    }
                }
            }
        }
        assert forall|k: int| 0 <= k < strikes.len() implies (#[trigger] strikes[k]).precision
            == ladder_precision(calls, puts, strikes[k].raw) by {
            if k < p {
                assert(strikes[k] == rest[k]);
            } else if k > p {
                assert(strikes[k] == rest[k - 1]);
            }
        }
        strikes
    }
}

/// A value that is not among ascending strikes has a place between them.
proof fn lemma_place(strikes: Seq<Price>, raw: i64) -> (p: int)
    requires
        strictly_ascending(strikes),
        !lists(strikes, raw),
    ensures
        0 <= p <= strikes.len(),
        forall|i: int| 0 <= i < p ==> strikes[i].raw < raw,
        forall|i: int| p <= i < strikes.len() ==> raw < strikes[i].raw,
    decreases strikes.len(),
{
    if strikes.len() == 0 {
        0
    } else {
        let rest = strikes.drop_last();
        assert(strikes[strikes.len() - 1].raw != raw);
        assert(!lists(rest, raw)) by {
            if lists(rest, raw) {
                let k = choose|k: int| 0 <= k < rest.len() && rest[k].raw == raw;
                assert(strikes[k].raw == raw);
            }
        }
        if strikes.last().raw < raw {
            strikes.len() as int
        } else {
            let p = lemma_place(rest, raw);
            assert forall|i: int| 0 <= i < p implies strikes[i].raw < raw by {
                assert(rest[i].raw < raw);
            }
            assert forall|i: int| p <= i < strikes.len() implies raw < strikes[i].raw by {
                if i < rest.len() {
                    assert(raw < rest[i].raw);
                }
            }
            p
        }
    }
}

/// The quoted strikes of a snapshot are ascending, each of them once; they are the strikes that
/// have a call or a put.
pub proof fn law_ladder(slice: OptionChainSlice)
    ensures
        is_ladder(slice.calls@, slice.puts@, slice.ladder()),
{
    lemma_table_is_finite(slice.calls);
    lemma_table_is_finite(slice.puts);
    let raws = slice.calls@.dom().union(slice.puts@.dom());
    let strikes = lemma_ascending_order(raws, slice.calls@, slice.puts@);
    assert(is_ladder(slice.calls@, slice.puts@, strikes));
}

/// A snapshot is empty exactly when it has no quoted strike.
pub proof fn law_empty_means_no_strikes(slice: OptionChainSlice)
    ensures
        slice.ladder().len() == 0 <==> (slice.calls@ == Map::<i64, StrikeRow>::empty()
            && slice.puts@ == Map::<i64, StrikeRow>::empty()),
{
    law_ladder(slice);
    let ladder = slice.ladder();
    if ladder.len() == 0 {
        assert forall|raw: i64| !slice.calls@.contains_key(raw) && !slice.puts@.contains_key(raw) by {
            assert(!lists(ladder, raw));
        }
        assert(slice.calls@ =~= Map::<i64, StrikeRow>::empty());
        assert(slice.puts@ =~= Map::<i64, StrikeRow>::empty());
    } else {
        assert(lists(ladder, ladder[0].raw));
    }
}

/// There are as many quoted strikes as there are strikes with a call or a put: no fewer than
/// either side has, no more than both have together.
pub proof fn law_strike_count(slice: OptionChainSlice)
    ensures
        slice.ladder().len() == slice.calls@.dom().union(slice.puts@.dom()).len(),
        slice.calls@.dom().len() <= slice.ladder().len(),
        slice.puts@.dom().len() <= slice.ladder().len(),
        slice.ladder().len() <= slice.calls@.dom().len() + slice.puts@.dom().len(),
{
    law_ladder(slice);
    lemma_table_is_finite(slice.calls);
    lemma_table_is_finite(slice.puts);
    let ladder = slice.ladder();
    let calls = slice.calls@.dom();
    let puts = slice.puts@.dom();
    let all = calls.union(puts);
    let raws = ladder.map_values(|s: Price| s.raw);
    assert(raws.no_duplicates());
    assert(raws.to_set() =~= all) by {
        assert forall|raw: i64| raws.to_set().contains(raw) <==> all.contains(raw) by {
            if raws.contains(raw) {
                let k = choose|k: int| 0 <= k < raws.len() && raws[k] == raw;
                assert(ladder[k].raw == raw);
                assert(lists(ladder, raw));
            }
            if all.contains(raw) {
                assert(lists(ladder, raw));
                let k = choose|k: int| 0 <= k < ladder.len() && ladder[k].raw == raw;
                assert(raws[k] == raw);
            }
        }
    }
    raws.unique_seq_to_set();
    vstd::set_lib::lemma_len_subset(calls, all);
    vstd::set_lib::lemma_len_subset(puts, all);
    vstd::set_lib::lemma_len_union(calls, puts);
}

/// A step of zero places leads to the anchor.
pub proof fn law_zero_step_stays(strikes: Seq<Price>, atm: Price)
    requires
        lists(strikes, atm.raw),
        strikes.len() <= i32::MAX,
    ensures
        stepped(strikes, Some(atm), 0) matches Some(strike) && strike.raw == atm.raw,
{
    lemma_first_index(strikes, atm.raw);
}

/// On ascending strikes a positive step leads to a higher strike, a negative one to a lower
/// strike, and as many places lie between the two as the step says.
pub proof fn law_steps_follow_the_ladder(strikes: Seq<Price>, atm: Price, offset: i32, i: int, j: int)
    requires
        strictly_ascending(strikes),
        0 <= i < strikes.len(),
        strikes[i].raw == atm.raw,
        0 <= j < strikes.len(),
        stepped(strikes, Some(atm), offset) == Some(strikes[j]),
    ensures
        j - i == offset,
        offset > 0 ==> atm.raw < strikes[j].raw,
        offset < 0 ==> strikes[j].raw < atm.raw,
        offset == 0 ==> strikes[j].raw == atm.raw,
{
    lemma_first_index(strikes, atm.raw);
    assert(lists(strikes, atm.raw));
    let k = first_index(strikes, atm.raw)->0;
    assert(k == i);
    assert(strikes[i + offset].raw == strikes[j].raw);
}

/// Two steps one after the other lead where their sum leads.
pub proof fn law_steps_add_up(strikes: Seq<Price>, atm: Price, first: i32, second: i32, sum: i32)
    requires
        strictly_ascending(strikes),
        strikes.len() <= i32::MAX,
        sum == first + second,
        stepped(strikes, Some(atm), first) is Some,
    ensures
        stepped(strikes, stepped(strikes, Some(atm), first), second) == stepped(
            strikes,
            Some(atm),
            sum,
        ),
{
    lemma_first_index(strikes, atm.raw);
    let i = first_index(strikes, atm.raw)->0;
    let middle = strikes[i + first];
    lemma_first_index(strikes, middle.raw);
    assert(lists(strikes, middle.raw));
    let k = first_index(strikes, middle.raw)->0;
    assert(k == i + first);
}

/// Stepping back by the same number of places returns to the anchor.
pub proof fn law_stepping_back_returns(
    slice: OptionChainSlice,
    moved: OptionChainSlice,
    offset: i32,
    back: i32,
)
    requires
        stepped(slice.ladder(), slice.atm_strike, offset) is Some,
        moved == (OptionChainSlice {
            atm_strike: stepped(slice.ladder(), slice.atm_strike, offset),
            ..slice
        }),
        back == -offset,
    ensures
        slice.atm_strike is Some,
        stepped(moved.ladder(), moved.atm_strike, back) matches Some(strike) && strike.raw
            == slice.atm_strike->0.raw,
{
    law_ladder(slice);
    let ladder = slice.ladder();
    let atm = slice.atm_strike->0;
    lemma_first_index(ladder, atm.raw);
    let i = first_index(ladder, atm.raw)->0;
    let there = ladder[i + offset];
    lemma_first_index(ladder, there.raw);
    assert(lists(ladder, there.raw));
    assert(first_index(ladder, there.raw)->0 == i + offset);
}

/// No step moves back so far that it could not be undone.
pub proof fn law_the_furthest_step_leads_nowhere(strikes: Seq<Price>, anchor: Option<Price>)
    ensures
        stepped(strikes, anchor, i32::MIN) is None,
{
    if let Some(atm) = anchor {
        lemma_first_index(strikes, atm.raw);
    }
}

/// One place further is the next higher quoted strike: none lies between, be it quoted on one side
/// only.
pub proof fn law_next_step_is_the_next_strike(slice: OptionChainSlice, offset: i32, next: i32)
    requires
        next == offset + 1,
        stepped(slice.ladder(), slice.atm_strike, offset) is Some,
        stepped(slice.ladder(), slice.atm_strike, next) is Some,
    ensures
        ({
            let low = stepped(slice.ladder(), slice.atm_strike, offset)->0.raw;
            let high = stepped(slice.ladder(), slice.atm_strike, next)->0.raw;
            &&& low < high
            &&& forall|raw: i64|
                slice.calls@.contains_key(raw) || slice.puts@.contains_key(raw) ==> !(low < raw
                    < high)
        }),
{
    law_ladder(slice);
    let ladder = slice.ladder();
    let atm = slice.atm_strike->0;
    lemma_first_index(ladder, atm.raw);
    let i = first_index(ladder, atm.raw)->0;
    let low = ladder[i + offset].raw;
    let high = ladder[i + next].raw;
    assert forall|raw: i64|
        slice.calls@.contains_key(raw) || slice.puts@.contains_key(raw) implies !(low < raw
        < high) by {
        assert(lists(ladder, raw));
        let k = choose|k: int| 0 <= k < ladder.len() && ladder[k].raw == raw;
        if k <= i + offset {
            assert(ladder[k].raw <= ladder[i + offset].raw);
        } else {
            assert(ladder[i + next].raw <= ladder[k].raw);
        }
    }
}

/// Steps along the listed strikes go through the window that an ATM-relative range selects there:
/// the steps from `below` places down to `above` places up, in that order and without those that
/// lead past an end, are the selected strikes.
pub proof fn law_listed_steps_are_the_window(
    listed: Seq<Price>,
    atm: Price,
    above: usize,
    below: usize,
    selected: Seq<Price>,
)
    requires
        strictly_ascending(listed),
        listed.len() <= i32::MAX,
        lists(listed, atm.raw),
        above <= i32::MAX,
        below <= i32::MAX,
        selects(
            StrikeRange::AtmRelative { strikes_above: above, strikes_below: below },
            Some(atm),
            listed,
            selected,
        ),
    ensures
        ({
            let first = first_place(listed, atm, below as int);
            let past = past_place(listed, atm, above as int);
            &&& -below <= first <= 0 < past <= above + 1
            &&& selected.len() == past - first
            &&& forall|k: i32|
                first <= k < past ==> #[trigger] stepped(listed, Some(atm), k) == Some(
                    selected[k - first],
                )
            &&& forall|k: i32|
                -below <= k < first || past <= k <= above ==> #[trigger] stepped(
                    listed,
                    Some(atm),
                    k,
                ) is None
        }),
{
    lemma_first_index(listed, atm.raw);
    let i = first_index(listed, atm.raw)->0;
    assert(ascending(listed));
    law_anchor_on_a_ladder(listed, atm.raw);
    let anchor = anchor_of(listed, atm.raw);
    if listed[anchor].raw != atm.raw {
        let p = choose|p: int| #[trigger]
            fits_before(listed, atm.raw, p) && anchor == closer_neighbor(listed, atm.raw, p);
        assert(listed[i].raw == atm.raw);
    }
    assert(anchor == i);
}

/// The lowest step of `below` places or fewer that does not lead past the end.
pub open spec fn first_place(listed: Seq<Price>, atm: Price, below: int) -> int {
    let i = first_index(listed, atm.raw)->0;
    if below <= i {
        -below
    } else {
        -i
    }
}

/// The step behind the highest one of `above` places or fewer that does not lead past the end.
pub open spec fn past_place(listed: Seq<Price>, atm: Price, above: int) -> int {
    let i = first_index(listed, atm.raw)->0;
    if i + above < listed.len() {
        above + 1
    } else {
        listed.len() - i
    }
}

/// Which strikes are quoted does not move a step along the listed strikes: only the listed strikes
/// and the ATM strike count.
pub proof fn law_quotes_do_not_move_listed_steps(
    first: OptionChainSlice,
    second: OptionChainSlice,
    offset: i32,
)
    requires
        first.atm_strike == second.atm_strike,
        first.listed_strikes@ == second.listed_strikes@,
    ensures
        stepped(first.listed_strikes@, first.atm_strike, offset) == stepped(
            second.listed_strikes@,
            second.atm_strike,
            offset,
        ),
{
}

/// No step leads anywhere while ATM is unknown, or while it is not among the strikes.
pub proof fn law_no_step_without_anchor(strikes: Seq<Price>, anchor: Option<Price>, offset: i32)
    requires
        anchor matches Some(atm) ==> !lists(strikes, atm.raw),
    ensures
        stepped(strikes, anchor, offset) is None,
{
    if let Some(atm) = anchor {
        lemma_first_index(strikes, atm.raw);
    }
}

/// Where the side has no data at the strike that a step leads to, there is no data: the step does
/// not go on to the next strike.
pub proof fn law_missing_side_is_not_skipped(
    rows: Map<i64, StrikeRow>,
    strikes: Seq<Price>,
    anchor: Option<Price>,
    offset: i32,
)
    requires
        stepped(strikes, anchor, offset) matches Some(strike) ==> !rows.contains_key(strike.raw),
    ensures
        data_at_strike(rows, stepped(strikes, anchor, offset)) is None,
{
}

/// Where every listed strike is quoted and every quoted strike is listed, steps along either lead
/// to the same data.
pub proof fn law_dense_catalog_agrees(
    slice: OptionChainSlice,
    rows: Map<i64, StrikeRow>,
    offset: i32,
)
    requires
        strictly_ascending(slice.listed_strikes@),
        forall|raw: i64| #[trigger]
            lists(slice.listed_strikes@, raw) <==> lists(slice.ladder(), raw),
    ensures
        data_at_strike(rows, stepped(slice.listed_strikes@, slice.atm_strike, offset))
            == data_at_strike(rows, stepped(slice.ladder(), slice.atm_strike, offset)),
{
    law_ladder(slice);
    let listed = slice.listed_strikes@;
    let ladder = slice.ladder();
    lemma_same_values(listed, ladder);
    if let Some(atm) = slice.atm_strike {
        lemma_first_index(listed, atm.raw);
        lemma_first_index(ladder, atm.raw);
        if lists(listed, atm.raw) {
            let i = first_index(listed, atm.raw)->0;
            let j = first_index(ladder, atm.raw)->0;
            assert(listed[i].raw == ladder[i].raw);
            assert(i == j);
            if 0 <= i + offset < listed.len() {
                assert(listed[i + offset].raw == ladder[i + offset].raw);
            }
        }
    }
}

/// Ascending strikes of the same values stand at the same places.
proof fn lemma_same_values(first: Seq<Price>, second: Seq<Price>)
    requires
        strictly_ascending(first),
        strictly_ascending(second),
        forall|raw: i64| #[trigger] lists(first, raw) <==> lists(second, raw),
    ensures
        first.len() == second.len(),
        forall|k: int|
            0 <= k < first.len() ==> (#[trigger] first[k]).raw == (#[trigger] second[k]).raw,
{
    let level = |s: Price| Price { raw: s.raw, precision: 0 };
    let a = first.map_values(level);
    let b = second.map_values(level);
    let rows = Map::<i64, StrikeRow>::new(
        |raw: i64| lists(first, raw),
        |raw: i64| StrikeRow { precision: 0, data: arbitrary() },
    );
    assert forall|raw: i64| #[trigger] lists(a, raw) <==> lists(first, raw) by {
        if lists(a, raw) {
            let k = choose|k: int| 0 <= k < a.len() && a[k].raw == raw;
            assert(first[k].raw == raw);
        }
        if lists(first, raw) {
            let k = choose|k: int| 0 <= k < first.len() && first[k].raw == raw;
            assert(a[k].raw == raw);
        }
    }
    assert forall|raw: i64| #[trigger] lists(b, raw) <==> lists(second, raw) by {
        if lists(b, raw) {
            let k = choose|k: int| 0 <= k < b.len() && b[k].raw == raw;
            assert(second[k].raw == raw);
        }
        if lists(second, raw) {
            let k = choose|k: int| 0 <= k < second.len() && second[k].raw == raw;
            assert(b[k].raw == raw);
        }
    }
    assert forall|k: int| 0 <= k < a.len() implies (#[trigger] a[k]).precision == ladder_precision(
        rows,
        rows,
        a[k].raw,
    ) by {
        assert(lists(first, first[k].raw));
    }
    assert forall|k: int| 0 <= k < b.len() implies (#[trigger] b[k]).precision == ladder_precision(
        rows,
        rows,
        b[k].raw,
    ) by {
        assert(lists(second, second[k].raw));
    }
    assert(is_ladder(rows, rows, a));
    assert(is_ladder(rows, rows, b));
    lemma_ladder_is_unique(rows, rows, a, b);
    assert forall|k: int| 0 <= k < first.len() implies (#[trigger] first[k]).raw == (
    #[trigger] second[k]).raw by {
        assert(a[k].raw == first[k].raw);
        assert(b[k].raw == second[k].raw);
    }
}

/// From the first strike of the ATM value a step leads as many places on as it says, and nowhere
/// where there are not so many.
pub proof fn law_step_lands(strikes: Seq<Price>, atm: Price, offset: i32, i: int)
    requires
        strikes.len() <= i32::MAX,
        0 <= i < strikes.len(),
        strikes[i].raw == atm.raw,
        forall|k: int| 0 <= k < i ==> (#[trigger] strikes[k]).raw != atm.raw,
    ensures
        0 <= i + offset < strikes.len() ==> stepped(strikes, Some(atm), offset) == Some(
            strikes[i + offset],
        ),
        !(0 <= i + offset < strikes.len()) ==> stepped(strikes, Some(atm), offset) is None,
{
    lemma_first_index(strikes, atm.raw);
    assert(lists(strikes, atm.raw));
    let k = first_index(strikes, atm.raw)->0;
    assert(k == i) by {
        if k < i {
            assert(strikes[k].raw != atm.raw);
        }
    }
}

/// No step leads anywhere where no strike has the ATM value, or where ATM is unknown.
pub proof fn law_no_step_off_the_strikes(strikes: Seq<Price>, anchor: Option<Price>, offset: i32)
    requires
        forall|i: int|
            0 <= i < strikes.len() && anchor is Some ==> (#[trigger] strikes[i]).raw
                != anchor->0.raw,
    ensures
        stepped(strikes, anchor, offset) is None,
{
    if let Some(atm) = anchor {
        lemma_first_index(strikes, atm.raw);
    }
}

/// The quoted strikes ascend, are exactly those with a call or a put, and are shown as the call side
/// holds them, or where there is no call, as the put side does.
pub proof fn law_quoted_strikes(slice: OptionChainSlice)
    ensures
        forall|i: int, j: int|
            0 <= i < j < slice.ladder().len() ==> (#[trigger] slice.ladder()[i]).raw < (
            #[trigger] slice.ladder()[j]).raw,
        forall|i: int|
            0 <= i < slice.ladder().len() ==> {
                let strike = #[trigger] slice.ladder()[i];
                if slice.calls@.contains_key(strike.raw) {
                    strike.precision == slice.calls@[strike.raw].precision
                } else {
                    slice.puts@.contains_key(strike.raw) && strike.precision
                        == slice.puts@[strike.raw].precision
                }
            },
        forall|raw: i64|
            slice.calls@.contains_key(raw) || slice.puts@.contains_key(raw) ==> exists|i: int|
                0 <= i < slice.ladder().len() && (#[trigger] slice.ladder()[i]).raw == raw,
{
    law_ladder(slice);
    let ladder = slice.ladder();
    assert forall|i: int| 0 <= i < ladder.len() implies {
        let strike = #[trigger] ladder[i];
        if slice.calls@.contains_key(strike.raw) {
            strike.precision == slice.calls@[strike.raw].precision
        } else {
            slice.puts@.contains_key(strike.raw) && strike.precision
                == slice.puts@[strike.raw].precision
        }
    } by {
        assert(lists(ladder, ladder[i].raw));
    }
    assert forall|raw: i64|
        slice.calls@.contains_key(raw) || slice.puts@.contains_key(raw) implies exists|i: int|
        0 <= i < ladder.len() && (#[trigger] ladder[i]).raw == raw by {
        assert(lists(ladder, raw));
    }
}

/// A table gives the data of the row at a strike, the quote and the Greeks in it, and nothing where
/// there is no row.
pub proof fn law_rows_are_read(rows: Map<i64, StrikeRow>, strike: Price)
    ensures
        rows.contains_key(strike.raw) ==> {
            let data = rows[strike.raw].data;
            &&& data_at(rows, strike.raw) == Some(data)
            &&& data_at_strike(rows, Some(strike)) == Some(data)
            &&& quote_in(data_at(rows, strike.raw)) == Some(data.quote)
            &&& greeks_in(data_at(rows, strike.raw)) == data.greeks
        },
        !rows.contains_key(strike.raw) ==> {
            &&& data_at(rows, strike.raw) is None
            &&& data_at_strike(rows, Some(strike)) is None
            &&& quote_in(data_at(rows, strike.raw)) is None
            &&& greeks_in(data_at(rows, strike.raw)) is None
        },
        data_at_strike(rows, None) is None,
{
}

/// Entering data makes or replaces one row and no other. A strike that is there keeps its precision.
pub proof fn law_one_row_is_entered(
    rows: Map<i64, StrikeRow>,
    strike: Price,
    data: OptionStrikeData,
    raw: i64,
)
    ensures
        entered(rows, strike, data).contains_key(raw) <==> rows.contains_key(raw) || raw
            == strike.raw,
        raw != strike.raw && rows.contains_key(raw) ==> entered(rows, strike, data)[raw]
            == rows[raw],
        entered(rows, strike, data)[strike.raw].data == data,
        entered(rows, strike, data)[strike.raw].precision == if rows.contains_key(strike.raw) {
            rows[strike.raw].precision
        } else {
            strike.precision
        },
{
}

/// The strikes of a table ascend, are exactly those of its rows, and are shown as the rows hold them.
pub proof fn law_keys_ascend(rows: Map<i64, StrikeRow>, strikes: Seq<Price>)
    requires
        are_keys(rows, strikes),
    ensures
        forall|i: int, j: int|
            0 <= i < j < strikes.len() ==> (#[trigger] strikes[i]).raw < (#[trigger] strikes[j]).raw,
        forall|i: int|
            0 <= i < strikes.len() ==> {
                &&& rows.contains_key((#[trigger] strikes[i]).raw)
                &&& strikes[i].precision == rows[strikes[i].raw].precision
            },
        forall|raw: i64| #[trigger]
            rows.contains_key(raw) ==> exists|i: int|
                0 <= i < strikes.len() && (#[trigger] strikes[i]).raw == raw,
{
    assert forall|i: int| 0 <= i < strikes.len() implies rows.contains_key(
        (#[trigger] strikes[i]).raw,
    ) by {
        assert(lists(strikes, strikes[i].raw));
    }
    assert forall|raw: i64| #[trigger] rows.contains_key(raw) implies exists|i: int|
        0 <= i < strikes.len() && (#[trigger] strikes[i]).raw == raw by {
        assert(lists(strikes, raw));
    }
}

/// A reference is given exactly where there is a value, and it is to that value.
pub proof fn law_references<T>(reference: Option<&T>, value: Option<T>)
    ensures
        refers_to(reference, value) <==> {
            &&& reference is Some <==> value is Some
            &&& reference is Some ==> *reference->0 == value->0
        },
{
}

} // verus!
