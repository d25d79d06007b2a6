//! What is compared with the bounds, in numbers.

use vstd::prelude::*;

use crate::decimal::{lemma_pow10_adds, lemma_pow10_grows, pow10, DecimalView};
use crate::fixed::{
    law_fixed_value, law_shown_difference, lemma_pow10_table, shows_all, Money,
};
use crate::user_pnl::config::ConfigView;
use crate::user_pnl::inputs::{
    all_flat, amount_in, money_decimal, pnl_lines, OpenRisk, PnlEntry,
};
use crate::user_pnl::model::{Setup, Sidecar, TripBound};

verus! {

/// A number with at most nine digits behind the point, in billionths.
pub open spec fn billionths(d: DecimalView) -> int {
    d.mantissa * pow10((9 - d.scale) as nat)
}

/// Whether `shown` is what is left of an amount of money, in billionths, where it is cut off toward
/// zero behind the digits of its precision.
pub open spec fn is_shown(shown: int, amount: Money) -> bool {
    let unit = if amount.precision < 9 {
        pow10((9 - amount.precision) as nat)
    } else {
        1
    };
    &&& amount.raw >= 0 ==> 0 <= shown <= amount.raw < shown + unit
    &&& amount.raw < 0 ==> shown - unit < amount.raw <= shown <= 0
    &&& shows_all(amount.raw, amount.precision) ==> shown == amount.raw
}

/// What is left of an amount of money.
proof fn lemma_shown(amount: Money) -> (shown: int)
    ensures
        is_shown(shown, amount),
        shown == billionths(money_decimal(amount)),
        money_decimal(amount).scale <= 9,
{
    law_fixed_value(amount.raw, amount.precision);
    billionths(money_decimal(amount))
}

/// Where the bounds are daily and the day has an anchor, what is compared with them is the session's
/// PnL less that anchor, whether it is above, at or below it. A day that still awaits its anchor
/// starts at zero, and one that has none counts from zero. Where the bounds are not daily, the
/// session's PnL itself is compared.
pub proof fn law_watched_in_numbers(setup: Setup, m: Sidecar, total: Money) -> (shown: (int, int))
    ensures
        is_shown(shown.0, total),
        m.day_anchor_pnl matches Some(anchor) ==> is_shown(shown.1, anchor),
        setup.watched(m, total).scale <= 9,
        billionths(setup.watched(m, total)) == (if !setup.config.reset_daily {
            shown.0
        } else if m.awaits_anchor {
            0
        } else if m.day_anchor_pnl is Some {
            shown.0 - shown.1
        } else {
            shown.0
        }),
{
    let whole: int = lemma_shown(total);
    assert(0 * pow10(9) == 0);
    if setup.config.reset_daily && m.awaits_anchor {
        law_shown_difference(total.raw, total.precision, total.raw, total.precision);
    }
    match m.day_anchor_pnl {
        Some(anchor) => {
            let base: int = lemma_shown(anchor);
            law_shown_difference(total.raw, total.precision, anchor.raw, anchor.precision);
            (whole, base)
        },
        None => (whole, 0),
    }
}

/// Where neither amount has digits behind those of its precision, what is compared with daily bounds
/// is the session's PnL less the day's anchor, to the billionth.
pub proof fn law_watched_since_the_anchor(setup: Setup, m: Sidecar, total: Money, anchor: Money)
    requires
        setup.config.reset_daily,
        !m.awaits_anchor,
        m.day_anchor_pnl == Some(anchor),
        shows_all(total.raw, total.precision),
        shows_all(anchor.raw, anchor.precision),
    ensures
        billionths(setup.watched(m, total)) == total.raw - anchor.raw,
{
    let shown = law_watched_in_numbers(setup, m, total);
}

/// A number is compared with a bound by their billionths.
proof fn lemma_compared_in_billionths(d: DecimalView, bound: DecimalView)
    requires
        d.scale <= 9,
    ensures
        d.at_most(bound) <==> billionths(d) * pow10(bound.scale) <= bound.mantissa * 1_000_000_000,
        bound.at_most(d) <==> bound.mantissa * 1_000_000_000 <= billionths(d) * pow10(bound.scale),
{
    let rest = pow10((9 - d.scale) as nat);
    let p = pow10(d.scale);
    let q = pow10(bound.scale);
    let a = d.mantissa;
    let b = bound.mantissa;
    lemma_pow10_grows(0, (9 - d.scale) as nat);
    lemma_pow10_adds(d.scale, (9 - d.scale) as nat);
    lemma_pow10_table();
    assert(p * rest == 1_000_000_000);
    assert((a * rest) * q == (a * q) * rest) by (nonlinear_arith);
    assert(b * 1_000_000_000 == (b * p) * rest) by (nonlinear_arith)
        requires
            p * rest == 1_000_000_000,
    ;
    assert(a * q <= b * p <==> (a * q) * rest <= (b * p) * rest) by (nonlinear_arith)
        requires
            rest >= 1,
    ;
    assert(b * p <= a * q <==> (b * p) * rest <= (a * q) * rest) by (nonlinear_arith)
        requires
            rest >= 1,
    ;
}

/// The loss bound trips at it and below it. The profit bound trips at it and above it, where the
/// loss bound does not. A PnL is inside where it is strictly between them.
pub proof fn law_bounds_in_numbers(config: ConfigView, pnl: DecimalView)
    requires
        pnl.scale <= 9,
    ensures
        ({
            let low = config.max_loss matches Some(bound) && billionths(pnl) * pow10(bound.scale)
                <= bound.mantissa * 1_000_000_000;
            let high = config.max_profit matches Some(bound) && billionths(pnl) * pow10(bound.scale)
                >= bound.mantissa * 1_000_000_000;
            &&& config.tripped(pnl) == Some(TripBound::MaxLoss) <==> low
            &&& config.tripped(pnl) == Some(TripBound::MaxProfit) <==> high && !low
            &&& config.tripped(pnl) is None <==> !high && !low
            &&& config.inside(pnl) <==> !high && !low
        }),
{
    if let Some(bound) = config.max_loss {
        lemma_compared_in_billionths(pnl, bound);
    }
    if let Some(bound) = config.max_profit {
        lemma_compared_in_billionths(pnl, bound);
    }
}

/// What a report says of the account: its first line in the currency counts. A report without such a
/// line says nothing, unless it is empty, which says zero.
pub proof fn law_first_line_counts(
    setup: Setup,
    lines: Seq<(Seq<char>, Money)>,
    k: int,
)
    ensures
        0 <= k < lines.len() && lines[k].0 == setup.config.currency && (forall|i: int|
            0 <= i < k ==> (#[trigger] lines[i]).0 != setup.config.currency) ==> setup.total(
            Some(lines),
        ) == Some(lines[k].1),
        lines.len() > 0 && (forall|i: int|
            0 <= i < lines.len() ==> (#[trigger] lines[i]).0 != setup.config.currency)
            ==> setup.total(Some(lines)) is None,
        lines.len() == 0 ==> setup.total(Some(lines)) == Some(Money { raw: 0, precision: 0 }),
        setup.total(None) is None,
{
    let currency = setup.config.currency;
    if 0 <= k < lines.len() && lines[k].0 == currency && (forall|i: int|
        0 <= i < k ==> (#[trigger] lines[i]).0 != currency) {
        lemma_first_line(lines, currency, k);
    }
    if forall|i: int| 0 <= i < lines.len() ==> (#[trigger] lines[i]).0 != currency {
        lemma_no_line(lines, currency);
    }
}

/// The first line in a currency is found.
proof fn lemma_first_line(lines: Seq<(Seq<char>, Money)>, currency: Seq<char>, k: int)
    requires
        0 <= k < lines.len(),
        lines[k].0 == currency,
        forall|i: int| 0 <= i < k ==> (#[trigger] lines[i]).0 != currency,
    ensures
        amount_in(lines, currency) == Some(lines[k].1),
    decreases k,
{
    if k > 0 {
        let rest = lines.drop_first();
        assert forall|i: int| 0 <= i < k - 1 implies (#[trigger] rest[i]).0 != currency by {
            assert(rest[i] == lines[i + 1]);
        }
        assert(lines[0].0 != currency);
        lemma_first_line(rest, currency, k - 1);
    }
}

/// Where there is no line in a currency, none is found.
proof fn lemma_no_line(lines: Seq<(Seq<char>, Money)>, currency: Seq<char>)
    requires
        forall|i: int| 0 <= i < lines.len() ==> (#[trigger] lines[i]).0 != currency,
    ensures
        amount_in(lines, currency) is None,
    decreases lines.len(),
{
    if lines.len() > 0 {
        let rest = lines.drop_first();
        assert forall|i: int| 0 <= i < rest.len() implies (#[trigger] rest[i]).0 != currency by {
            assert(rest[i] == lines[i + 1]);
        }
        lemma_no_line(rest, currency);
    }
}

/// A report trips a bound where the PnL since the day's anchor, or where the bounds are not daily the
/// session's PnL, is at or past that bound. The loss bound comes first.
pub proof fn law_trip_in_numbers(
    setup: Setup,
    m: Sidecar,
    report: Option<Seq<(Seq<char>, Money)>>,
    total: Money,
)
    requires
        setup.total(report) == Some(total),
        shows_all(total.raw, total.precision),
        m.day_anchor_pnl matches Some(anchor) ==> shows_all(anchor.raw, anchor.precision),
    ensures
        ({
            let pnl: int = if !setup.config.reset_daily {
                total.raw as int
            } else if m.awaits_anchor {
                0
            } else if m.day_anchor_pnl is Some {
                total.raw - m.day_anchor_pnl->0.raw
            } else {
                total.raw as int
            };
            let low = setup.config.max_loss matches Some(bound) && pnl * pow10(bound.scale)
                <= bound.mantissa * 1_000_000_000;
            let high = setup.config.max_profit matches Some(bound) && pnl * pow10(bound.scale)
                >= bound.mantissa * 1_000_000_000;
            &&& setup.tripped(m, report) == Some(TripBound::MaxLoss) <==> low
            &&& setup.tripped(m, report) == Some(TripBound::MaxProfit) <==> high && !low
            &&& setup.tripped(m, report) is None <==> !high && !low
            &&& setup.config.inside(setup.watched(m, total)) <==> !high && !low
        }),
{
    let shown = law_watched_in_numbers(setup, m, total);
    law_bounds_in_numbers(setup.config, setup.watched(m, total));
}

/// A report that is missing, or has no line in the currency, trips nothing.
pub proof fn law_unknown_trips_nothing(
    setup: Setup,
    m: Sidecar,
    report: Option<Seq<(Seq<char>, Money)>>,
)
    requires
        setup.total(report) is None,
    ensures
        setup.tripped(m, report) is None,
{
}

/// A report is read line by line, each with its currency and its amount. A missing report stays
/// missing.
pub proof fn law_report_is_read(report: Option<Vec<PnlEntry>>)
    ensures
        report is None ==> pnl_lines(report) is None,
        report matches Some(entries) ==> {
            let lines = pnl_lines(report)->0;
            &&& pnl_lines(report) is Some
            &&& lines.len() == entries@.len()
            &&& forall|i: int|
                0 <= i < lines.len() ==> (#[trigger] lines[i]).0 == entries@[i].currency@
                    && lines[i].1 == entries@[i].amount
        },
{
}

/// Something is open where there is a position, an open order or an order in flight. All is flat
/// where there is none of them anywhere.
pub proof fn law_open_risk(risk: Seq<OpenRisk>, one: OpenRisk)
    ensures
        one.present() <==> one.positions > 0 || one.open_orders > 0 || one.inflight > 0,
        all_flat(risk) <==> forall|i: int|
            0 <= i < risk.len() ==> (#[trigger] risk[i]).positions == 0 && risk[i].open_orders == 0
                && risk[i].inflight == 0,
{
    if all_flat(risk) {
        assert forall|i: int| 0 <= i < risk.len() implies (#[trigger] risk[i]).positions == 0
            && risk[i].open_orders == 0 && risk[i].inflight == 0 by {
            assert(!risk[i].present());
        }
    }
    if forall|i: int|
        0 <= i < risk.len() ==> (#[trigger] risk[i]).positions == 0 && risk[i].open_orders == 0
            && risk[i].inflight == 0 {
        assert forall|i: int| 0 <= i < risk.len() implies !(#[trigger] risk[i]).present() by {
            assert(risk[i].positions == 0);
        }
    }
}

} // verus!
