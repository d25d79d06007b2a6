//! What the sidecar reads from the node, and what it makes of it.

use vstd::prelude::*;

use crate::decimal::{decimal_sub, zero_view, Decimal, DecimalView};
use crate::fixed::{fixed_decimal, lemma_fixed_decimals_are_operands, lemma_pow10_table, Money};
use crate::strategy_id::{
    in_order, lemma_order_is_unique, lemma_order_of_names, names, precedes, StrategyId,
};

verus! {

/// Open risk: positions, open orders and orders in flight.
#[derive(Clone, Copy, Debug, PartialEq, Eq, Structural)]
pub struct OpenRisk {
    /// How many positions are open.
    pub positions: usize,
    /// How many orders are open.
    pub open_orders: usize,
    /// How many orders are in flight.
    pub inflight: usize,
}

impl OpenRisk {
    /// Whether there is any risk.
    pub open spec fn present(self) -> bool {
        self.positions + self.open_orders + self.inflight > 0
    }

    /// Whether there is any risk.
    pub fn is_open(&self) -> (b: bool)
        ensures
            b == self.present(),
    {
        self.positions > 0 || self.open_orders > 0 || self.inflight > 0
    }
}

/// What came of asking a strategy to stop.
#[derive(Clone, Copy, Debug, PartialEq, Eq, Structural)]
pub enum StopOutcome {
    /// The strategy is stopped.
    Stopped,
    /// The request was taken, but the strategy still runs.
    Deferred,
    /// The request was refused.
    Failed,
}

/// One line of a PnL report.
#[derive(Clone, Debug)]
pub struct PnlEntry {
    /// The currency.
    pub currency: String,
    /// The PnL in that currency.
    pub amount: Money,
}

/// The lines of a PnL report: currency and amount.
pub open spec fn pnl_lines(report: Option<Vec<PnlEntry>>) -> Option<Seq<(Seq<char>, Money)>> {
    match report {
        Some(entries) => Some(entries@.map_values(|e: PnlEntry| (e.currency@, e.amount))),
        None => None,
    }
}

/// The amount of the first line in a currency.
pub open spec fn amount_in(lines: Seq<(Seq<char>, Money)>, currency: Seq<char>) -> Option<Money>
    decreases lines.len(),
{
    if lines.len() == 0 {
        None
    } else if lines[0].0 == currency {
        Some(lines[0].1)
    } else {
        amount_in(lines.drop_first(), currency)
    }
}

/// Nothing at all.
pub open spec fn no_money() -> Money {
    Money { raw: 0, precision: 0 }
}

/// The account's PnL in a currency: unknown where there is no report or the report misses the
/// currency; zero where the report is empty.
pub open spec fn account_pnl_of(
    report: Option<Seq<(Seq<char>, Money)>>,
    currency: Seq<char>,
) -> Option<Money> {
    match report {
        None => None,
        Some(lines) => if lines.len() == 0 {
            Some(no_money())
        } else {
            amount_in(lines, currency)
        },
    }
}

/// The account's PnL in a currency.
pub fn account_pnl(report: &Option<Vec<PnlEntry>>, currency: &String) -> (pnl: Option<Money>)
    ensures
        pnl == account_pnl_of(pnl_lines(*report), currency@),
{
    let entries = match report {
        Some(entries) => entries,
        None => {
            return None;
        },
    };
    let ghost lines = pnl_lines(*report)->0;
    if entries.len() == 0 {
        return Some(Money { raw: 0, precision: 0 });
    }
    let mut i: usize = 0;
    assert(lines.skip(0) =~= lines);
    while i < entries.len()
        invariant
            i <= entries@.len(),
            lines == entries@.map_values(|e: PnlEntry| (e.currency@, e.amount)),
            pnl_lines(*report) == Some(lines),
            amount_in(lines, currency@) == amount_in(lines.skip(i as int), currency@),
        decreases entries.len() - i,
    {
        assert(lines.skip(i as int)[0] == (entries@[i as int].currency@, entries@[i as int].amount));
        if entries[i].currency == *currency {
            return Some(entries[i].amount);
        }
        assert(lines.skip(i as int).drop_first() =~= lines.skip(i + 1));
        i += 1;
    }
    None
}

/// The decimal of an amount of money.
pub open spec fn money_decimal(amount: Money) -> DecimalView {
    fixed_decimal(amount.raw, amount.precision)
}

/// What is compared with the bounds: the session's PnL, or the part of it since the day's anchor
/// where the bounds are daily. A day without an anchor counts from zero.
pub open spec fn watched_pnl_of(
    total: Money,
    reset_daily: bool,
    anchor: Option<Money>,
) -> DecimalView {
    if reset_daily {
        money_decimal(total).minus(
            match anchor {
                Some(anchor) => money_decimal(anchor),
                None => zero_view(),
            },
        )
    } else {
        money_decimal(total)
    }
}

/// What is compared with the bounds.
pub fn watched_pnl(total: &Money, reset_daily: bool, anchor: &Option<Money>) -> (pnl: Decimal)
    ensures
        pnl@ == watched_pnl_of(*total, reset_daily, *anchor),
{
    if !reset_daily {
        return total.as_decimal();
    }
    let base = match anchor {
        Some(anchor) => *anchor,
        None => Money { raw: 0, precision: 0 },
    };
    proof {
        lemma_fixed_decimals_are_operands(total.raw, total.precision, base.raw, base.precision);
        lemma_pow10_table();
    }
    decimal_sub(&total.as_decimal(), &base.as_decimal())
}

/// Whether a name is the sidecar's own.
pub open spec fn is_own_name(
    id: Seq<char>,
    own: Seq<char>,
    configured: Option<Seq<char>>,
) -> bool {
    id == own || configured == Some(id)
}

/// Whether `ids` are the strategies of `source` other than the sidecar, in order.
pub open spec fn are_candidates(
    source: Seq<Seq<char>>,
    own: Seq<char>,
    configured: Option<Seq<char>>,
    ids: Seq<Seq<char>>,
) -> bool {
    &&& in_order(ids)
    &&& forall|id: Seq<char>| #[trigger]
        ids.contains(id) <==> source.contains(id) && !is_own_name(id, own, configured)
}

/// The strategies of `source` other than the sidecar, in order, each of them once.
pub open spec fn candidates_of(
    source: Seq<Seq<char>>,
    own: Seq<char>,
    configured: Option<Seq<char>>,
) -> Seq<Seq<char>> {
    choose|ids: Seq<Seq<char>>| are_candidates(source, own, configured, ids)
}

/// A name that is entered at its place keeps the order.
proof fn lemma_entered(before: Seq<Seq<char>>, p: int, id: Seq<char>)
    requires
        in_order(before),
        0 <= p <= before.len(),
        forall|k: int| 0 <= k < p ==> precedes(#[trigger] before[k], id),
        p < before.len() ==> precedes(id, before[p]),
    ensures
        in_order(before.insert(p, id)),
        forall|x: Seq<char>| #[trigger]
            before.insert(p, id).contains(x) <==> before.contains(x) || x == id,
{
    let after = before.insert(p, id);
    assert forall|i: int, j: int| 0 <= i < j < after.len() implies precedes(
        #[trigger] after[i],
        #[trigger] after[j],
    ) by {
        if j == p {
            assert(after[i] == before[i]);
        } else if i == p {
            assert(after[j] == before[j - 1]);
            lemma_order_of_names(id, before[p], before[j - 1]);
            if p < j - 1 {
                assert(precedes(before[p], before[j - 1]));
            }
        } else {
            let a = if i < p {
                i
            } else {
                i - 1
            };
            let b = if j < p {
                j
            } else {
                j - 1
            };
            assert(after[i] == before[a]);
            assert(after[j] == before[b]);
        }
    }
    assert forall|x: Seq<char>| #[trigger] after.contains(x) <==> before.contains(x) || x
        == id by {
        if after.contains(x) {
            let k = choose|k: int| 0 <= k < after.len() && after[k] == x;
            if k < p {
                assert(before[k] == x);
            } else if k > p {
                assert(before[k - 1] == x);
            }
        }
        if before.contains(x) {
            let k = choose|k: int| 0 <= k < before.len() && before[k] == x;
            if k < p {
                assert(after[k] == x);
            } else {
                assert(after[k + 1] == x);
            }
        }
        assert(after[p] == id);
    }
}

/// A name that is not there has a place.
proof fn lemma_place(ids: Seq<Seq<char>>, id: Seq<char>) -> (p: int)
    requires
        in_order(ids),
        !ids.contains(id),
    ensures
        0 <= p <= ids.len(),
        forall|k: int| 0 <= k < p ==> precedes(#[trigger] ids[k], id),
        p < ids.len() ==> precedes(id, ids[p]),
    decreases ids.len(),
{
    if ids.len() == 0 {
        0
    } else {
        let front = ids.drop_last();
        assert forall|k: int| 0 <= k < front.len() implies front[k] == ids[k] by {}
        assert(!front.contains(id));
        let p = lemma_place(front, id);
        if p < front.len() {
            p
        } else {
            assert(ids.contains(ids.last()));
            lemma_order_of_names(id, ids.last(), id);
            if precedes(id, ids.last()) {
                p
            } else {
                assert forall|k: int| 0 <= k < ids.len() implies precedes(#[trigger] ids[k], id) by {
                    if k < front.len() {
                        assert(front[k] == ids[k]);
                    }
                }
                ids.len() as int
            }
        }
    }
}

/// The candidates are the strategies of `source` other than the sidecar, in order.
pub proof fn lemma_candidates(source: Seq<Seq<char>>, own: Seq<char>, configured: Option<Seq<char>>)
    ensures
        are_candidates(source, own, configured, candidates_of(source, own, configured)),
    decreases source.len(),
{
    if source.len() == 0 {
        assert(are_candidates(source, own, configured, Seq::<Seq<char>>::empty()));
    } else {
        let front = source.drop_last();
        let id = source.last();
        lemma_candidates(front, own, configured);
        let before = candidates_of(front, own, configured);
        assert forall|x: Seq<char>| #[trigger] source.contains(x) <==> front.contains(x) || x
            == id by {
            if source.contains(x) && x != id {
                let k = choose|k: int| 0 <= k < source.len() && source[k] == x;
                assert(front[k] == x);
            }
            if front.contains(x) {
                let k = choose|k: int| 0 <= k < front.len() && front[k] == x;
                assert(source[k] == x);
            }
        }
        if is_own_name(id, own, configured) || before.contains(id) {
            assert(are_candidates(source, own, configured, before));
        } else {
            let p = lemma_place(before, id);
            lemma_entered(before, p, id);
            assert(are_candidates(source, own, configured, before.insert(p, id)));
        }
    }
}

/// Enters a name at its place, if it is not there yet.
fn enter_in_order(ids: &mut Vec<StrategyId>, id: &StrategyId)
    requires
        in_order(names(old(ids)@)),
    ensures
        in_order(names(final(ids)@)),
        forall|x: Seq<char>| #[trigger]
            names(final(ids)@).contains(x) <==> names(old(ids)@).contains(x) || x == id@,
{
    let ghost before = names(ids@);
    let mut p: usize = 0;
    while p < ids.len() && ids[p].comes_before(id)
        invariant
            p <= ids@.len(),
            before == names(ids@),
            forall|k: int| 0 <= k < p ==> precedes(#[trigger] before[k], id@),
        decreases ids.len() - p,
    {
        assert(before[p as int] == ids@[p as int]@);
        p += 1;
    }
    if p < ids.len() {
        assert(before[p as int] == ids@[p as int]@);
        if ids[p].same(id) {
            assert(before.contains(id@));
            return;
        }
        proof {
            lemma_order_of_names(id@, before[p as int], id@);
        }
    }
    ids.insert(p, id.clone());
    proof {
        lemma_entered(before, p as int, id@);
        assert(names(ids@) =~= before.insert(p as int, id@));
    }
}

/// The view of an optional name.
pub open spec fn optional_name(id: Option<StrategyId>) -> Option<Seq<char>> {
    match id {
        Some(id) => Some(id@),
        None => None,
    }
}

/// The strategies of `source` other than the sidecar, in order, each of them once.
pub fn candidates(
    source: &Vec<StrategyId>,
    own: &StrategyId,
    configured: &Option<StrategyId>,
) -> (ids: Vec<StrategyId>)
    ensures
        names(ids@) == candidates_of(names(source@), own@, optional_name(*configured)),
        are_candidates(names(source@), own@, optional_name(*configured), names(ids@)),
{
    let mut ids: Vec<StrategyId> = Vec::new();
    let ghost all = names(source@);
    let ghost taken = optional_name(*configured);
    let mut i: usize = 0;
    assert(names(ids@) =~= Seq::empty());
    while i < source.len()
        invariant
            i <= source@.len(),
            all == names(source@),
            taken == optional_name(*configured),
            in_order(names(ids@)),
            forall|x: Seq<char>| #[trigger]
                names(ids@).contains(x) <==> all.take(i as int).contains(x) && !is_own_name(
                    x,
                    own@,
                    taken,
                ),
        decreases source.len() - i,
    {
        let id = &source[i];
        let ghost before = names(ids@);
        let mut own_name = id.same(own);
        if let Some(configured) = configured {
            if configured.same(id) {
                own_name = true;
            }
        }
        assert(own_name == is_own_name(id@, own@, taken));
        if !own_name {
            enter_in_order(&mut ids, id);
        }
        assert forall|x: Seq<char>| #[trigger] names(ids@).contains(x) <==> all.take(
            i + 1,
        ).contains(x) && !is_own_name(x, own@, taken) by {
            assert(before.contains(x) <==> all.take(i as int).contains(x) && !is_own_name(
                x,
                own@,
                taken,
            ));
            assert(all.take(i + 1).contains(x) <==> all.take(i as int).contains(x) || x == id@) by {
                let long = all.take(i + 1);
                let short = all.take(i as int);
                if long.contains(x) {
                    let k = choose|k: int| 0 <= k < long.len() && long[k] == x;
                    if k < i {
                        assert(short[k] == x);
                    }
                }
                if short.contains(x) {
                    let k = choose|k: int| 0 <= k < short.len() && short[k] == x;
                    assert(long[k] == x);
                }
                assert(long[i as int] == id@);
            }
        }
        i += 1;
    }
    proof {
        assert(all.take(i as int) =~= all);
        let chosen = candidates_of(all, own@, taken);
        assert(are_candidates(all, own@, taken, names(ids@)));
        assert forall|x: Seq<char>| #[trigger] names(ids@).contains(x) <==> chosen.contains(x) by {}
        lemma_order_is_unique(names(ids@), chosen);
    }
    ids
}

/// The names whose flag is set, in order.
pub open spec fn picked(ids: Seq<Seq<char>>, flags: Seq<bool>) -> Seq<Seq<char>>
    decreases ids.len(),
{
    if ids.len() == 0 {
        Seq::empty()
    } else {
        let before = picked(ids.drop_last(), flags);
        if flags[ids.len() - 1] {
            before.push(ids.last())
        } else {
            before
        }
    }
}

/// Which strategies have open risk.
pub open spec fn risk_flags(risk: Seq<OpenRisk>) -> Seq<bool> {
    risk.map_values(|r: OpenRisk| r.present())
}

/// Which strategies were stopped.
pub open spec fn stop_flags(outcomes: Seq<StopOutcome>) -> Seq<bool> {
    outcomes.map_values(|o: StopOutcome| o is Stopped)
}

/// Whether nothing has open risk.
pub open spec fn all_flat(risk: Seq<OpenRisk>) -> bool {
    forall|i: int| 0 <= i < risk.len() ==> !(#[trigger] risk[i]).present()
}

/// Picks the strategies that have open risk.
pub(crate) fn pick_at_risk(ids: &Vec<StrategyId>, risk: &Vec<OpenRisk>) -> (chosen: Vec<StrategyId>)
    requires
        ids@.len() == risk@.len(),
    ensures
        names(chosen@) == picked(names(ids@), risk_flags(risk@)),
{
    let mut chosen: Vec<StrategyId> = Vec::new();
    let mut i: usize = 0;
    let ghost all = names(ids@);
    let ghost flags = risk_flags(risk@);
    assert(names(chosen@) =~= picked(all.take(0), flags));
    while i < ids.len()
        invariant
            i <= ids@.len(),
            ids@.len() == risk@.len(),
            all == names(ids@),
            flags == risk_flags(risk@),
            names(chosen@) == picked(all.take(i as int), flags),
        decreases ids.len() - i,
    {
        assert(all.take(i + 1).drop_last() =~= all.take(i as int));
        assert(all.take(i + 1).last() == ids@[i as int]@);
        assert(flags[i as int] == risk@[i as int].present());
        let ghost before = chosen@;
        if risk[i].is_open() {
            chosen.push(ids[i].clone());
            assert(names(chosen@) =~= names(before).push(ids@[i as int]@));
        }
        i += 1;
    }
    assert(all.take(i as int) =~= all);
    chosen
}

/// Picks the strategies that were stopped.
pub(crate) fn pick_stopped(
    ids: &Vec<StrategyId>,
    outcomes: &Vec<StopOutcome>,
) -> (chosen: Vec<StrategyId>)
    requires
        ids@.len() == outcomes@.len(),
    ensures
        names(chosen@) == picked(names(ids@), stop_flags(outcomes@)),
{
    let mut chosen: Vec<StrategyId> = Vec::new();
    let mut i: usize = 0;
    let ghost all = names(ids@);
    let ghost flags = stop_flags(outcomes@);
    assert(names(chosen@) =~= picked(all.take(0), flags));
    while i < ids.len()
        invariant
            i <= ids@.len(),
            ids@.len() == outcomes@.len(),
            all == names(ids@),
            flags == stop_flags(outcomes@),
            names(chosen@) == picked(all.take(i as int), flags),
        decreases ids.len() - i,
    {
        assert(all.take(i + 1).drop_last() =~= all.take(i as int));
        assert(all.take(i + 1).last() == ids@[i as int]@);
        assert(flags[i as int] == (outcomes@[i as int] is Stopped));
        let ghost before = chosen@;
        if outcomes[i] == StopOutcome::Stopped {
            chosen.push(ids[i].clone());
            assert(names(chosen@) =~= names(before).push(ids@[i as int]@));
        }
        i += 1;
    }
    assert(all.take(i as int) =~= all);
    chosen
}

/// Whether nothing has open risk.
pub fn is_all_flat(risk: &Vec<OpenRisk>) -> (b: bool)
    ensures
        b == all_flat(risk@),
{
    let mut i: usize = 0;
    while i < risk.len()
        invariant
            i <= risk@.len(),
            forall|k: int| 0 <= k < i ==> !(#[trigger] risk@[k]).present(),
        decreases risk.len() - i,
    {
        if risk[i].is_open() {
            assert(risk@[i as int].present());
            return false;
        }
        i += 1;
    }
    true
}

} // verus!
