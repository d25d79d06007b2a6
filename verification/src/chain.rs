//! Snapshots of an option chain.

use vstd::prelude::*;
use vstd::std_specs::iter::IteratorSpec;
use vstd::string::StringExecFns;

use std::collections::BTreeMap;

use crate::fixed::{Price, Quantity, UnixNanos};
use crate::greeks::{HasTsInit, OptionGreeks};
use crate::identifiers::{InstrumentId, OptionSeriesId};
use crate::strike_range::{lists, strictly_ascending};
use crate::text::{append_number, append_price, number_text, price_text};

verus! {

broadcast use vstd::std_specs::btree::group_btree_axioms;

/// The best bid and ask of an instrument.
#[derive(Clone, Debug, PartialEq, Eq)]
pub struct QuoteTick {
    /// The quoted instrument.
    pub instrument_id: InstrumentId,
    /// The best bid.
    pub bid_price: Price,
    /// The best ask.
    pub ask_price: Price,
    /// How much is bid for.
    pub bid_size: Quantity,
    /// How much is asked for.
    pub ask_size: Quantity,
    /// When the event occurred.
    pub ts_event: UnixNanos,
    /// When the instance was initialized.
    pub ts_init: UnixNanos,
}

/// The quote and the Greeks at one strike of a chain.
#[derive(Clone, Debug)]
pub struct OptionStrikeData {
    /// The latest quote at the strike.
    pub quote: QuoteTick,
    /// Exchange-provided Greeks, if there are any.
    pub greeks: Option<OptionGreeks>,
}

/// A row of a strike table.
#[derive(Clone, Debug)]
pub struct StrikeRow {
    /// The precision of the strike price.
    pub precision: u8,
    /// What is known at the strike.
    pub data: OptionStrikeData,
}

/// Data by strike price, in ascending order of the strikes.
///
/// The rows are keyed by the raw strike price; each keeps the precision of the price that it was
/// first entered at.
#[derive(Clone, Debug)]
pub struct StrikeTable {
    rows: BTreeMap<i64, StrikeRow>,
}

impl View for StrikeTable {
    type V = Map<i64, StrikeRow>;

    closed spec fn view(&self) -> Map<i64, StrikeRow> {
        self.rows@
    }
}

/// A table holds finitely many strikes.
pub proof fn lemma_table_is_finite(table: StrikeTable)
    ensures
        table@.dom().finite(),
{
}

/// What a table holds at a strike.
pub open spec fn data_at(rows: Map<i64, StrikeRow>, raw: i64) -> Option<OptionStrikeData> {
    if rows.contains_key(raw) {
        Some(rows[raw].data)
    } else {
        None
    }
}

/// A table after `data` was entered at `strike`: a strike that is already there keeps its
/// precision.
pub open spec fn entered(
    rows: Map<i64, StrikeRow>,
    strike: Price,
    data: OptionStrikeData,
) -> Map<i64, StrikeRow> {
    let precision = if rows.contains_key(strike.raw) {
        rows[strike.raw].precision
    } else {
        strike.precision
    };
    rows.insert(strike.raw, StrikeRow { precision, data })
}

/// Whether `strikes` are the strikes of a table, in ascending order.
pub open spec fn are_keys(rows: Map<i64, StrikeRow>, strikes: Seq<Price>) -> bool {
    &&& strictly_ascending(strikes)
    &&& forall|raw: i64| #[trigger] lists(strikes, raw) <==> rows.contains_key(raw)
    &&& forall|k: int|
        0 <= k < strikes.len() ==> (#[trigger] strikes[k]).precision == rows[strikes[k].raw].precision
}

/// Whether the reference is to the value, or neither is there.
pub open spec fn refers_to<T>(reference: Option<&T>, value: Option<T>) -> bool {
    match reference {
        Some(r) => value == Some(*r),
        None => value is None,
    }
}

impl StrikeTable {
    /// An empty table.
    pub fn new() -> (table: StrikeTable)
        ensures
            table@ == Map::<i64, StrikeRow>::empty(),
    {
        StrikeTable { rows: BTreeMap::new() }
    }

    /// The number of strikes.
    pub fn len(&self) -> (n: usize)
        ensures
            n == self@.dom().len(),
    {
        self.rows.len()
    }

    /// Whether there is no strike.
    pub fn is_empty(&self) -> (b: bool)
        ensures
            b == (self@ == Map::<i64, StrikeRow>::empty()),
    {
        let b = self.rows.is_empty();
        assert(b ==> self@ =~= Map::<i64, StrikeRow>::empty());
        b
    }

    /// The data at a strike.
    pub fn get(&self, strike: &Price) -> (data: Option<&OptionStrikeData>)
        ensures
            refers_to(data, data_at(self@, strike.raw)),
    {
        match self.rows.get(&strike.raw) {
            Some(row) => Some(&row.data),
            None => None,
        }
    }

    /// Enters data at a strike and returns what stood there before.
    pub fn insert(&mut self, strike: Price, data: OptionStrikeData) -> (before: Option<
        OptionStrikeData,
    >)
        ensures
            final(self)@ == entered(old(self)@, strike, data),
            before == data_at(old(self)@, strike.raw),
    {
        let precision: u8 = match self.rows.get(&strike.raw) {
            Some(row) => row.precision,
            None => strike.precision,
        };
        match self.rows.insert(strike.raw, StrikeRow { precision, data }) {
            Some(row) => Some(row.data),
            None => None,
        }
    }

    /// Removes a strike and returns what stood there.
    pub fn remove(&mut self, strike: &Price) -> (before: Option<OptionStrikeData>)
        ensures
            final(self)@ == old(self)@.remove(strike.raw),
            before == data_at(old(self)@, strike.raw),
    {
        match self.rows.remove(&strike.raw) {
            Some(row) => Some(row.data),
            None => None,
        }
    }

    /// The strikes in ascending order.
    pub fn keys(&self) -> (strikes: Vec<Price>)
        ensures
            are_keys(self@, strikes@),
            strikes@.len() == self@.dom().len(),
    {
        let mut strikes: Vec<Price> = Vec::new();
        let iter = self.rows.iter();
        let ghost items = iter.remaining();
        for entry in it: iter
            invariant
                it.seq() == items,
                strikes@.len() == it.index(),
                forall|k: int|
                    0 <= k < it.index() ==> (#[trigger] strikes@[k]).raw == *items[k].0
                        && strikes@[k].precision == items[k].1.precision,
        {
            let (raw, row) = entry;
            strikes.push(Price { raw: *raw, precision: row.precision });
        }
        proof {
            let raws = items.map_values(|kv: (&i64, &StrikeRow)| *kv.0);
            assert(vstd::std_specs::btree::increasing_seq(raws));
            assert forall|i: int, j: int| 0 <= i < j < strikes@.len() implies strikes@[i].raw
                < strikes@[j].raw by {
                assert(vstd::std_specs::cmp::OrdSpec::cmp_spec(&raws[i], &raws[j]) is Less);
                assert(raws[i] < raws[j]);
            }
            assert forall|raw: i64| #[trigger] lists(strikes@, raw) <==> self@.contains_key(raw) by {
                if lists(strikes@, raw) {
                    let k = choose|k: int| 0 <= k < strikes@.len() && strikes@[k].raw == raw;
                    assert(self@.contains_key(*items[k].0));
                }
                if self@.contains_key(raw) {
                    assert(items.contains((&raw, &self@[raw])));
                    let k = choose|k: int| 0 <= k < items.len() && items[k] == (&raw, &self@[raw]);
                    assert(strikes@[k].raw == raw);
                }
            }
            assert forall|k: int| 0 <= k < strikes@.len() implies (#[trigger] strikes@[k]).precision
                == self@[strikes@[k].raw].precision by {
                assert(self@[*items[k].0] == *items[k].1);
            }
        }
        strikes
    }
}

/// Whether `strikes` are the strikes of either table in ascending order. A strike of both tables
/// stands there once, as the calls hold it.
pub open spec fn is_ladder(
    calls: Map<i64, StrikeRow>,
    puts: Map<i64, StrikeRow>,
    strikes: Seq<Price>,
) -> bool {
    &&& strictly_ascending(strikes)
    &&& forall|raw: i64| #[trigger]
        lists(strikes, raw) <==> calls.contains_key(raw) || puts.contains_key(raw)
    &&& forall|k: int|
        0 <= k < strikes.len() ==> (#[trigger] strikes[k]).precision == ladder_precision(
            calls,
            puts,
            strikes[k].raw,
        )
}

/// The precision of a strike of either table.
pub open spec fn ladder_precision(
    calls: Map<i64, StrikeRow>,
    puts: Map<i64, StrikeRow>,
    raw: i64,
) -> u8 {
    if calls.contains_key(raw) {
        calls[raw].precision
    } else {
        puts[raw].precision
    }
}

/// There is only one ladder.
pub proof fn lemma_ladder_is_unique(
    calls: Map<i64, StrikeRow>,
    puts: Map<i64, StrikeRow>,
    first: Seq<Price>,
    second: Seq<Price>,
)
    requires
        is_ladder(calls, puts, first),
        is_ladder(calls, puts, second),
    ensures
        first == second,
{
    assert forall|k: int| 0 <= k < first.len() implies k < second.len() && first[k] == second[k] by {
        lemma_same_step(calls, puts, first, second, k);
    }
    if first.len() > 0 {
        lemma_same_step(calls, puts, first, second, first.len() - 1);
    }
    if second.len() > 0 {
        lemma_same_step(calls, puts, second, first, second.len() - 1);
    }
    assert(first =~= second);
}

/// Two ladders agree step by step.
proof fn lemma_same_step(
    calls: Map<i64, StrikeRow>,
    puts: Map<i64, StrikeRow>,
    first: Seq<Price>,
    second: Seq<Price>,
    k: int,
)
    requires
        is_ladder(calls, puts, first),
        is_ladder(calls, puts, second),
        0 <= k < first.len(),
    ensures
        k < second.len(),
        first[k] == second[k],
    decreases k,
{
    assert forall|i: int| 0 <= i < k implies i < second.len() && first[i] == second[i] by {
        lemma_same_step(calls, puts, first, second, i);
    }
    assert(lists(first, first[k].raw));
    assert(lists(second, first[k].raw));
    let m = choose|m: int| 0 <= m < second.len() && second[m].raw == first[k].raw;
    if m < k {
        assert(first[m] == second[m]);
    }
    assert(lists(second, second[k].raw));
    assert(lists(first, second[k].raw));
    let n = choose|n: int| 0 <= n < first.len() && first[n].raw == second[k].raw;
    if n < k {
        assert(first[n] == second[n]);
    }
}

/// Merges the strikes of two tables.
fn merge_strikes(
    calls: &Vec<Price>,
    puts: &Vec<Price>,
    Ghost(call_rows): Ghost<Map<i64, StrikeRow>>,
    Ghost(put_rows): Ghost<Map<i64, StrikeRow>>,
) -> (strikes: Vec<Price>)
    requires
        are_keys(call_rows, calls@),
        are_keys(put_rows, puts@),
    ensures
        is_ladder(call_rows, put_rows, strikes@),
{
    let mut strikes: Vec<Price> = Vec::new();
    let mut i: usize = 0;
    let mut j: usize = 0;
    while i < calls.len() || j < puts.len()
        invariant
            are_keys(call_rows, calls@),
            are_keys(put_rows, puts@),
            i <= calls@.len(),
            j <= puts@.len(),
            strictly_ascending(strikes@),
            forall|k: int, m: int|
                0 <= k < strikes@.len() && i <= m < calls@.len() ==> (#[trigger] strikes@[k]).raw < (
                #[trigger] calls@[m]).raw,
            forall|k: int, m: int|
                0 <= k < strikes@.len() && j <= m < puts@.len() ==> (#[trigger] strikes@[k]).raw < (
                #[trigger] puts@[m]).raw,
            forall|k: int|
                0 <= k < strikes@.len() ==> (call_rows.contains_key((#[trigger] strikes@[k]).raw)
                    || put_rows.contains_key(strikes@[k].raw)) && strikes@[k].precision
                    == ladder_precision(call_rows, put_rows, strikes@[k].raw),
            forall|m: int| 0 <= m < i ==> lists(strikes@, (#[trigger] calls@[m]).raw),
            forall|m: int| 0 <= m < j ==> lists(strikes@, (#[trigger] puts@[m]).raw),
        decreases calls.len() - i + puts.len() - j,
    {
        let ghost before = strikes@;
        let take_call = i < calls.len() && (j >= puts.len() || calls[i].raw <= puts[j].raw);
        let take_put = j < puts.len() && (i >= calls.len() || puts[j].raw <= calls[i].raw);
        proof {
            if i < calls@.len() {
                assert(lists(calls@, calls@[i as int].raw));
            }
            if j < puts@.len() {
                assert(lists(puts@, puts@[j as int].raw));
            }
        }
        if take_call {
            strikes.push(calls[i]);
        } else {
            proof {
                // A put strike below every call strike that is left is no call strike.
                let raw = puts@[j as int].raw;
                if call_rows.contains_key(raw) {
                    assert(lists(calls@, raw));
                    let m = choose|m: int| 0 <= m < calls@.len() && calls@[m].raw == raw;
                    if m < i {
                        assert(lists(strikes@, calls@[m].raw));
                        let k = choose|k: int| 0 <= k < strikes@.len() && strikes@[k].raw == raw;
                        assert(strikes@[k].raw < puts@[j as int].raw);
                    }
                }
            }
            strikes.push(puts[j]);
        }
        proof {
            assert forall|raw: i64| lists(before, raw) implies #[trigger] lists(strikes@, raw) by {
                let k = choose|k: int| 0 <= k < before.len() && before[k].raw == raw;
                assert(strikes@[k].raw == raw);
            }
            assert(strikes@[before.len() as int].raw == strikes@.last().raw);
            assert(lists(strikes@, strikes@.last().raw));
        }
        if take_call {
            i += 1;
        }
        if take_put {
            j += 1;
        }
    }
    proof {
        assert forall|raw: i64| #[trigger] lists(strikes@, raw) <==> call_rows.contains_key(raw)
            || put_rows.contains_key(raw) by {
            if call_rows.contains_key(raw) {
                assert(lists(calls@, raw));
                let m = choose|m: int| 0 <= m < calls@.len() && calls@[m].raw == raw;
                assert(lists(strikes@, calls@[m].raw));
            }
            if put_rows.contains_key(raw) {
                assert(lists(puts@, raw));
                let m = choose|m: int| 0 <= m < puts@.len() && puts@[m].raw == raw;
                assert(lists(strikes@, puts@[m].raw));
            }
        }
    }
    strikes
}

/// The index of the first strike of a value.
pub open spec fn first_index(strikes: Seq<Price>, raw: i64) -> Option<int>
    decreases strikes.len(),
{
    if strikes.len() == 0 {
        None
    } else {
        match first_index(strikes.drop_last(), raw) {
            Some(i) => Some(i),
            None => if strikes.last().raw == raw {
                Some(strikes.len() - 1)
            } else {
                None
            },
        }
    }
}

/// The strike `offset` places from the anchor along the strikes: nothing while the anchor is
/// unknown, is not among the strikes, or where the step leads past an end. Places are counted
/// with thirty-two bits.
pub open spec fn stepped(strikes: Seq<Price>, anchor: Option<Price>, offset: i32) -> Option<Price> {
    match anchor {
        None => None,
        Some(atm) => match first_index(strikes, atm.raw) {
            None => None,
            Some(i) => if i <= i32::MAX && 0 <= i + offset <= i32::MAX && i + offset
                < strikes.len() {
                Some(strikes[i + offset])
            } else {
                None
            },
        },
    }
}

/// The first index of a value is where it first occurs.
pub proof fn lemma_first_index(strikes: Seq<Price>, raw: i64)
    ensures
        first_index(strikes, raw) is Some <==> lists(strikes, raw),
        first_index(strikes, raw) matches Some(i) ==> {
            &&& 0 <= i < strikes.len()
            &&& strikes[i].raw == raw
            &&& forall|k: int| 0 <= k < i ==> strikes[k].raw != raw
        },
    decreases strikes.len(),
{
    if strikes.len() > 0 {
        let rest = strikes.drop_last();
        lemma_first_index(rest, raw);
        if lists(rest, raw) {
            let k = choose|k: int| 0 <= k < rest.len() && rest[k].raw == raw;
            assert(strikes[k].raw == raw);
            let i = first_index(rest, raw)->0;
            assert forall|k: int| 0 <= k < i implies strikes[k].raw != raw by {
                assert(rest[k].raw != raw);
            }
        } else {
            assert forall|k: int| 0 <= k < strikes.len() - 1 implies strikes[k].raw != raw by {
                assert(rest[k].raw == strikes[k].raw);
            }
            if strikes.last().raw == raw {
                assert(strikes[strikes.len() - 1].raw == raw);
            }
        }
    }
}

/// Steps along strikes from an anchor.
fn step(strikes: &[Price], anchor: Option<Price>, offset: i32) -> (strike: Option<Price>)
    ensures
        strike == stepped(strikes@, anchor, offset),
{
    let atm = match anchor {
        Some(atm) => atm,
        None => {
            return None;
        },
    };
    proof {
        lemma_first_index(strikes@, atm.raw);
    }
    let mut i: usize = 0;
    while i < strikes.len()
        invariant_except_break
            forall|k: int| 0 <= k < i ==> strikes@[k].raw != atm.raw,
        invariant
            i <= strikes@.len(),
        ensures
            forall|k: int| 0 <= k < i ==> strikes@[k].raw != atm.raw,
            i < strikes@.len() ==> strikes@[i as int].raw == atm.raw,
        decreases strikes.len() - i,
    {
        if strikes[i] == atm {
            break;
        }
        i += 1;
    }
    if i >= strikes.len() || i > i32::MAX as usize {
        return None;
    }
    match (i as i32).checked_add(offset) {
        Some(target) => {
            if target >= 0 && (target as usize) < strikes.len() {
                Some(strikes[target as usize])
            } else {
                None
            }
        },
        None => None,
    }
}

/// A point-in-time snapshot of the option chain of one series.
#[derive(Clone, Debug)]
pub struct OptionChainSlice {
    /// The option series.
    pub series_id: OptionSeriesId,
    /// The current ATM strike, if it is known.
    pub atm_strike: Option<Price>,
    /// The price that the chain is windowed around, if it is known.
    pub atm_price: Option<Price>,
    /// The instrument whose last trade sets ATM, where ATM follows trades.
    pub atm_instrument_id: Option<InstrumentId>,
    /// Call data by strike.
    pub calls: StrikeTable,
    /// Put data by strike.
    pub puts: StrikeTable,
    /// The listed strikes of the series: ascending, each of them once. Steps along the listed
    /// strikes go by index, so on strikes in another order they lead to other neighbors.
    pub listed_strikes: Vec<Price>,
    /// When the snapshot event occurred.
    pub ts_event: UnixNanos,
    /// When the instance was initialized.
    pub ts_init: UnixNanos,
}

/// How an optional price is shown.
pub open spec fn optional_price_text(price: Option<Price>) -> Seq<char> {
    match price {
        None => "None"@,
        Some(price) => "Some(Price("@ + price_text(price) + "))"@,
    }
}

/// The text of a snapshot.
pub open spec fn slice_text(slice: OptionChainSlice) -> Seq<char> {
    "OptionChainSlice("@ + slice.series_id.text() + ", atm="@ + optional_price_text(
        slice.atm_strike,
    ) + ", calls="@ + number_text(slice.calls@.dom().len()) + ", puts="@ + number_text(
        slice.puts@.dom().len(),
    ) + ")"@
}

/// The Greeks in the data at a strike.
pub open spec fn greeks_in(data: Option<OptionStrikeData>) -> Option<OptionGreeks> {
    match data {
        Some(d) => d.greeks,
        None => None,
    }
}

/// The quote in the data at a strike.
pub open spec fn quote_in(data: Option<OptionStrikeData>) -> Option<QuoteTick> {
    match data {
        Some(d) => Some(d.quote),
        None => None,
    }
}

/// What a table holds at a strike that may be unknown.
pub open spec fn data_at_strike(
    rows: Map<i64, StrikeRow>,
    strike: Option<Price>,
) -> Option<OptionStrikeData> {
    match strike {
        Some(strike) => data_at(rows, strike.raw),
        None => None,
    }
}

impl HasTsInit for OptionChainSlice {
    open spec fn spec_ts_init(&self) -> UnixNanos {
        self.ts_init
    }

    fn ts_init(&self) -> (t: UnixNanos) {
        self.ts_init
    }
}

impl OptionChainSlice {
    /// The strikes that are quoted, in ascending order.
    pub open spec fn ladder(self) -> Seq<Price> {
        choose|strikes: Seq<Price>| is_ladder(self.calls@, self.puts@, strikes)
    }

    /// Creates an empty snapshot of a series.
    pub fn new(series_id: OptionSeriesId) -> (slice: OptionChainSlice)
        ensures
            slice.series_id == series_id,
            slice.atm_strike is None,
            slice.atm_price is None,
            slice.atm_instrument_id is None,
            slice.calls@ == Map::<i64, StrikeRow>::empty(),
            slice.puts@ == Map::<i64, StrikeRow>::empty(),
            slice.listed_strikes@ == Seq::<Price>::empty(),
            slice.ts_event.nanos == 0,
            slice.ts_init.nanos == 0,
    {
        OptionChainSlice {
            series_id,
            atm_strike: None,
            atm_price: None,
            atm_instrument_id: None,
            calls: StrikeTable::new(),
            puts: StrikeTable::new(),
            listed_strikes: Vec::new(),
            ts_event: UnixNanos::default(),
            ts_init: UnixNanos::default(),
        }
    }

    /// One line that describes the snapshot.
    pub fn display(&self) -> (text: String)
        ensures
            text@ == slice_text(*self),
    {
        let mut text = String::new();
        text.append("OptionChainSlice(");
        self.series_id.append_to(&mut text);
        text.append(", atm=");
        match &self.atm_strike {
            Some(price) => {
                text.append("Some(Price(");
                append_price(&mut text, price);
                text.append("))");
            },
            None => {
                text.append("None");
            },
        }
        text.append(", calls=");
        append_number(&mut text, self.calls.len() as u128);
        text.append(", puts=");
        append_number(&mut text, self.puts.len() as u128);
        text.append(")");
        assert(text@ == slice_text(*self));
        text
    }

    /// The number of call strikes.
    pub fn call_count(&self) -> (n: usize)
        ensures
            n == self.calls@.dom().len(),
    {
        self.calls.len()
    }

    /// The number of put strikes.
    pub fn put_count(&self) -> (n: usize)
        ensures
            n == self.puts@.dom().len(),
    {
        self.puts.len()
    }

    /// The call data at a strike.
    pub fn get_call(&self, strike: &Price) -> (data: Option<&OptionStrikeData>)
        ensures
            refers_to(data, data_at(self.calls@, strike.raw)),
    {
        self.calls.get(strike)
    }

    /// The put data at a strike.
    pub fn get_put(&self, strike: &Price) -> (data: Option<&OptionStrikeData>)
        ensures
            refers_to(data, data_at(self.puts@, strike.raw)),
    {
        self.puts.get(strike)
    }

    /// The call quote at a strike.
    pub fn get_call_quote(&self, strike: &Price) -> (quote: Option<&QuoteTick>)
        ensures
            refers_to(quote, quote_in(data_at(self.calls@, strike.raw))),
    {
        match self.calls.get(strike) {
            Some(data) => Some(&data.quote),
            None => None,
        }
    }

    /// The call Greeks at a strike.
    pub fn get_call_greeks(&self, strike: &Price) -> (greeks: Option<&OptionGreeks>)
        ensures
            refers_to(greeks, greeks_in(data_at(self.calls@, strike.raw))),
    {
        match self.calls.get(strike) {
            Some(data) => data.greeks.as_ref(),
            None => None,
        }
    }

    /// The put quote at a strike.
    pub fn get_put_quote(&self, strike: &Price) -> (quote: Option<&QuoteTick>)
        ensures
            refers_to(quote, quote_in(data_at(self.puts@, strike.raw))),
    {
        match self.puts.get(strike) {
            Some(data) => Some(&data.quote),
            None => None,
        }
    }

    /// The put Greeks at a strike.
    pub fn get_put_greeks(&self, strike: &Price) -> (greeks: Option<&OptionGreeks>)
        ensures
            refers_to(greeks, greeks_in(data_at(self.puts@, strike.raw))),
    {
        match self.puts.get(strike) {
            Some(data) => data.greeks.as_ref(),
            None => None,
        }
    }

    /// The strikes that have a quoted call or put, in ascending order.
    ///
    /// These are not the listed strikes of the series: one that is not quoted is left out.
    pub fn strikes(&self) -> (strikes: Vec<Price>)
        ensures
            strikes@ == self.ladder(),
            is_ladder(self.calls@, self.puts@, strikes@),
    {
        let calls = self.calls.keys();
        let puts = self.puts.keys();
        let strikes = merge_strikes(&calls, &puts, Ghost(self.calls@), Ghost(self.puts@));
        proof {
            lemma_ladder_is_unique(self.calls@, self.puts@, strikes@, self.ladder());
        }
        strikes
    }

    /// The number of strikes that have a quoted call or put.
    pub fn strike_count(&self) -> (n: usize)
        ensures
            n == self.ladder().len(),
            is_ladder(self.calls@, self.puts@, self.ladder()),
    {
        self.strikes().len()
    }

    /// Whether the chain holds no data.
    pub fn is_empty(&self) -> (b: bool)
        ensures
            b == (self.calls@ == Map::<i64, StrikeRow>::empty() && self.puts@ == Map::<
                i64,
                StrikeRow,
            >::empty()),
    {
        self.calls.is_empty() && self.puts.is_empty()
    }

    /// The strike `offset` places from ATM along the quoted strikes.
    pub fn strike_at_atm_offset(&self, offset: i32) -> (strike: Option<Price>)
        ensures
            strike == stepped(self.ladder(), self.atm_strike, offset),
            is_ladder(self.calls@, self.puts@, self.ladder()),
    {
        let strikes = self.strikes();
        step(strikes.as_slice(), self.atm_strike, offset)
    }

    /// The call data `offset` quoted strikes from ATM.
    ///
    /// Zero is ATM, a positive offset leads to higher strikes. Nothing while ATM is unknown or is
    /// not quoted, where the step leads past an end, or where the strike has a put but no call.
    pub fn get_call_atm_offset(&self, offset: i32) -> (data: Option<&OptionStrikeData>)
        ensures
            refers_to(
                data,
                data_at_strike(self.calls@, stepped(self.ladder(), self.atm_strike, offset)),
            ),
            is_ladder(self.calls@, self.puts@, self.ladder()),
    {
        match self.strike_at_atm_offset(offset) {
            Some(strike) => self.get_call(&strike),
            None => None,
        }
    }

    /// The put data `offset` quoted strikes from ATM.
    ///
    /// Zero is ATM, a negative offset leads to lower strikes. Nothing while ATM is unknown or is
    /// not quoted, where the step leads past an end, or where the strike has a call but no put.
    pub fn get_put_atm_offset(&self, offset: i32) -> (data: Option<&OptionStrikeData>)
        ensures
            refers_to(
                data,
                data_at_strike(self.puts@, stepped(self.ladder(), self.atm_strike, offset)),
            ),
            is_ladder(self.calls@, self.puts@, self.ladder()),
    {
        match self.strike_at_atm_offset(offset) {
            Some(strike) => self.get_put(&strike),
            None => None,
        }
    }

    /// The strike `offset` places from ATM along the listed strikes.
    pub fn strike_at_listed_offset(&self, offset: i32) -> (strike: Option<Price>)
        ensures
            strike == stepped(self.listed_strikes@, self.atm_strike, offset),
    {
        step(self.listed_strikes.as_slice(), self.atm_strike, offset)
    }

    /// The call data `offset` listed strikes from ATM.
    ///
    /// Zero is ATM, a positive offset leads to higher strikes. Nothing while ATM is unknown or is
    /// not listed, where the step leads past an end, or where the strike has no call. A missing
    /// quote does not lead on to the next listed strike.
    pub fn get_call_listed_offset(&self, offset: i32) -> (data: Option<&OptionStrikeData>)
        ensures
            refers_to(
                data,
                data_at_strike(self.calls@, stepped(self.listed_strikes@, self.atm_strike, offset)),
            ),
    {
        match self.strike_at_listed_offset(offset) {
            Some(strike) => self.get_call(&strike),
            None => None,
        }
    }

    /// The put data `offset` listed strikes from ATM.
    ///
    /// As [`Self::get_call_listed_offset`], on the puts.
    pub fn get_put_listed_offset(&self, offset: i32) -> (data: Option<&OptionStrikeData>)
        ensures
            refers_to(
                data,
                data_at_strike(self.puts@, stepped(self.listed_strikes@, self.atm_strike, offset)),
            ),
    {
        match self.strike_at_listed_offset(offset) {
            Some(strike) => self.get_put(&strike),
            None => None,
        }
    }
}

} // verus!
