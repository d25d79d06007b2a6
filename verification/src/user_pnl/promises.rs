//! What can be relied on, whatever the check starts from.

use vstd::prelude::*;

use crate::calendar::date_at;
use crate::fixed::UnixNanos;
use crate::strategy_id::{lemma_order_of_names, precedes};
use crate::user_pnl::checks::{demands, finished, handled, opens_window, Node};
use crate::user_pnl::inputs::lemma_candidates;
use crate::user_pnl::model::{fresh, reset, Demand, Setup, Sidecar, TradingState, TripBound};
use crate::user_pnl::whole_checks::{
    asks_again, at_risk, exit_requests, halt_requests, in_new_window, law_flatten_check_ends,
    law_flatten_check_goes_on, law_flatten_check_starts, law_handled, law_new_day_check_goes_on,
    law_trip_check_ends, minds, nothing_open,
};

verus! {

/// What strategies are asked to exit.
proof fn lemma_asked_to_exit(setup: Setup, node: Node, name: Seq<char>)
    ensures
        ({
            let ids = handled(setup, node);
            let open = ids.filter(|name: Seq<char>| at_risk(node, name));
            &&& open.contains(name) <==> minds(setup, node, name) && at_risk(node, name)
            &&& ids.contains(name) <==> minds(setup, node, name)
        }),
{
    law_handled(setup, node);
    let ids = handled(setup, node);
    let wanted = |name: Seq<char>| at_risk(node, name);
    lemma_filter_keeps(ids, wanted, name);
}

/// A filter keeps what has the property.
proof fn lemma_filter_keeps(
    ids: Seq<Seq<char>>,
    wanted: spec_fn(Seq<char>) -> bool,
    name: Seq<char>,
)
    ensures
        ids.filter(wanted).contains(name) <==> ids.contains(name) && wanted(name),
    decreases ids.len(),
{
    reveal(Seq::filter);
    if ids.len() > 0 {
        let front = ids.drop_last();
        let kept = ids.filter(wanted);
        lemma_filter_keeps(front, wanted, name);
        assert(ids =~= front.push(ids.last()));
        let before = front.filter(wanted);
        if ids.contains(name) && name != ids.last() {
            let k = choose|k: int| 0 <= k < ids.len() && ids[k] == name;
            assert(front[k] == name);
        }
        if front.contains(name) {
            let k = choose|k: int| 0 <= k < front.len() && front[k] == name;
            assert(ids[k] == name);
        }
        assert(ids[ids.len() - 1] == ids.last());
        if kept.contains(name) && !before.contains(name) {
            let k = choose|k: int| 0 <= k < kept.len() && kept[k] == name;
            if k < before.len() {
                assert(before[k] == name);
            }
        }
        if before.contains(name) {
            let k = choose|k: int| 0 <= k < before.len() && before[k] == name;
            assert(kept[k] == name);
        }
        if wanted(ids.last()) {
            assert(kept[kept.len() - 1] == ids.last());
        }
    }
}

/// Where exits are asked for and some strategy is to exit, one request names all that are to.
proof fn lemma_exits_are_requested(setup: Setup, node: Node, initial: bool, name: Seq<char>) -> (k:
    int)
    requires
        setup.attached,
        minds(setup, node, name),
        setup.config.skip_flat_strategies ==> at_risk(node, name),
    ensures
        0 <= k < exit_requests(setup, node, initial).len(),
        exit_requests(setup, node, initial)[k] == (Demand::ExitStrategies {
            ids: if setup.config.skip_flat_strategies {
                handled(setup, node).filter(|name: Seq<char>| at_risk(node, name))
            } else {
                handled(setup, node)
            },
            initial,
        }),
{
    lemma_asked_to_exit(setup, node, name);
    exit_requests(setup, node, initial).len() - 1
}

/// While a flatten runs and the interval has passed since exits were last asked for, every check asks
/// again, in the same window or as the first of a new one. One request names exactly the strategies
/// that the sidecar looks after, or where flat ones are skipped, those of them that have a position,
/// an open order or an order in flight.
pub proof fn law_exits_are_asked_for_until_flat(
    setup: Setup,
    m: Sidecar,
    now: UnixNanos,
    node: Node,
    name: Seq<char>,
) -> (request: (int, Seq<Seq<char>>))
    requires
        setup.attached,
        m.stage is Ready,
        m.state is Flattening,
        m.last_exit_request matches Some(last) ==> now.nanos >= last.nanos
            + setup.config.flatten_redrive_ms * 1_000_000,
        setup.config.managed.len() == 0 ==> node.registered.contains(name),
        setup.config.managed.len() > 0 ==> setup.config.managed.contains(name),
        name != setup.own,
        setup.config.strategy_id != Some(name),
        setup.config.skip_flat_strategies ==> (node.risk)(name).positions > 0 || (node.risk)(
            name,
        ).open_orders > 0 || (node.risk)(name).inflight > 0,
    ensures
        0 <= request.0 < demands(setup, setup.begun(m, now), now, node).len(),
        demands(setup, setup.begun(m, now), now, node)[request.0] == (Demand::ExitStrategies {
            ids: request.1,
            initial: false,
        }),
        request.1.contains(name),
        request.1.no_duplicates(),
        forall|other: Seq<char>| #[trigger]
            request.1.contains(other) <==> {
                &&& if setup.config.managed.len() == 0 {
                    node.registered.contains(other)
                } else {
                    setup.config.managed.contains(other)
                }
                &&& other != setup.own
                &&& setup.config.strategy_id != Some(other)
                &&& setup.config.skip_flat_strategies ==> (node.risk)(other).positions > 0 || (
                node.risk)(other).open_orders > 0 || (node.risk)(other).inflight > 0
            },
{
    let all = demands(setup, setup.begun(m, now), now, node);
    let exits = exit_requests(setup, node, false);
    let k: int = lemma_exits_are_requested(setup, node, false, name);
    let ids = exits[k]->ExitStrategies_ids;
    assert forall|other: Seq<char>| #[trigger]
        ids.contains(other) <==> minds(setup, node, other) && (setup.config.skip_flat_strategies
            ==> at_risk(node, other)) by {
        lemma_asked_to_exit(setup, node, other);
    }
    lemma_asked_once(setup, node);
    if opens_window(setup, m, now) {
        let next = in_new_window(setup, m, now, node.report);
        law_new_day_check_goes_on(setup, m, now, node);
        let rest = law_flatten_check_starts(setup, next, now, node);
        assert(asks_again(setup, next, now));
        assert(all[1 + k] == exits[k]);
        (1 + k, ids)
    } else {
        let rest = law_flatten_check_starts(setup, m, now, node);
        assert(asks_again(setup, m, now));
        assert(all[k] == exits[k]);
        (k, ids)
    }
}

/// No strategy is asked twice.
proof fn lemma_asked_once(setup: Setup, node: Node)
    ensures
        handled(setup, node).no_duplicates(),
        handled(setup, node).filter(|name: Seq<char>| at_risk(node, name)).no_duplicates(),
{
    law_handled(setup, node);
    lemma_filter_repeats_nothing(
        handled(setup, node),
        |name: Seq<char>| at_risk(node, name),
    );
}

/// A filter repeats nothing.
proof fn lemma_filter_repeats_nothing(ids: Seq<Seq<char>>, wanted: spec_fn(Seq<char>) -> bool)
    requires
        ids.no_duplicates(),
    ensures
        ids.filter(wanted).no_duplicates(),
    decreases ids.len(),
{
    reveal(Seq::filter);
    if ids.len() > 0 {
        let front = ids.drop_last();
        let before = front.filter(wanted);
        lemma_filter_repeats_nothing(front, wanted);
        lemma_filter_keeps(front, wanted, ids.last());
        assert forall|k: int| 0 <= k < before.len() implies before[k] != ids.last() by {
            if before[k] == ids.last() {
                assert(front.contains(ids.last()));
            }
        }
    }
}

/// While a flatten runs and something is open, no check asks for exits before the interval has passed
/// since they were last asked for.
pub proof fn law_no_exits_before_the_interval(
    setup: Setup,
    m: Sidecar,
    now: UnixNanos,
    node: Node,
    last: UnixNanos,
)
    requires
        m.stage is Ready,
        m.state is Flattening,
        m.last_exit_request == Some(last),
        now.nanos < last.nanos + setup.config.flatten_redrive_ms * 1_000_000,
        setup.config.flatten_redrive_ms > 0,
        !nothing_open(setup, node),
    ensures
        forall|k: int|
            0 <= k < demands(setup, setup.begun(m, now), now, node).len() ==> !((#[trigger] demands(
                setup,
                setup.begun(m, now),
                now,
                node,
            )[k]) is ExitStrategies),
{
    if opens_window(setup, m, now) {
        let next = in_new_window(setup, m, now, node.report);
        law_new_day_check_goes_on(setup, m, now, node);
        law_flatten_check_goes_on(setup, next, now, node);
        assert(!asks_again(setup, next, now));
    } else {
        law_flatten_check_goes_on(setup, m, now, node);
        assert(!asks_again(setup, m, now));
    }
}

/// What a halt asks for last.
proof fn lemma_halted_last(setup: Setup, node: Node)
    requires
        setup.attached,
    ensures
        halt_requests(setup, node).len() > 0,
        halt_requests(setup, node).last() == Demand::SetTradingState(TradingState::Halted),
{
}

/// A flatten that ends on the day of its trip halts by the flag of its own bound. One that the profit
/// bound tripped halts exactly where `halt_day_on_max_profit` is set, whatever `halt_day_on_max_loss`
/// is, and one that the loss bound tripped exactly where `halt_day_on_max_loss` is set, whatever
/// `halt_day_on_max_profit` is. Otherwise trading is active again.
pub proof fn law_a_bound_halts_by_its_own_flag(
    setup: Setup,
    m: Sidecar,
    now: UnixNanos,
    node: Node,
)
    requires
        m.stage is Ready,
        m.state is Flattening,
        setup.config.reset_daily ==> m.session_date == Some(date_at(now)) && m.trip_date == Some(
            date_at(now),
        ),
        nothing_open(setup, node),
    ensures
        ({
            let done = finished(setup, setup.begun(m, now), now, node);
            let asked = demands(setup, setup.begun(m, now), now, node);
            &&& m.trip_bound == Some(TripBound::MaxProfit) ==> {
                &&& done.state is Halted <==> setup.config.halt_day_on_max_profit
                &&& done.state is Idle <==> !setup.config.halt_day_on_max_profit
                &&& done.waiting_to_rearm || setup.config.halt_day_on_max_profit
                &&& setup.attached ==> asked.len() > 0 && asked.last() == Demand::SetTradingState(
                    if setup.config.halt_day_on_max_profit {
                        TradingState::Halted
                    } else {
                        TradingState::Active
                    },
                )
            }
            &&& m.trip_bound == Some(TripBound::MaxLoss) ==> {
                &&& done.state is Halted <==> setup.config.halt_day_on_max_loss
                &&& done.state is Idle <==> !setup.config.halt_day_on_max_loss
                &&& done.waiting_to_rearm || setup.config.halt_day_on_max_loss
                &&& setup.attached ==> asked.len() > 0 && asked.last() == Demand::SetTradingState(
                    if setup.config.halt_day_on_max_loss {
                        TradingState::Halted
                    } else {
                        TradingState::Active
                    },
                )
            }
        }),
{
    law_flatten_check_ends(setup, m, now, node);
    if setup.attached {
        lemma_halted_last(setup, node);
    }
}

/// A check of an armed sidecar that finds PnL past a bound and nothing open halts by the flag of that
/// bound: past the profit bound exactly where `halt_day_on_max_profit` is set, past the loss bound
/// exactly where `halt_day_on_max_loss` is set.
pub proof fn law_a_trip_halts_by_its_own_flag(setup: Setup, m: Sidecar, now: UnixNanos, node: Node)
    requires
        m.stage is Ready,
        m.state is Idle,
        !m.waiting_to_rearm,
        setup.config.reset_daily ==> m.session_date is None || m.session_date == Some(date_at(now)),
        nothing_open(setup, node),
    ensures
        ({
            let done = finished(setup, setup.begun(m, now), now, node);
            let asked = demands(setup, setup.begun(m, now), now, node);
            &&& setup.tripped(m, node.report) == Some(TripBound::MaxProfit) ==> {
                &&& done.trip_bound == Some(TripBound::MaxProfit)
                &&& done.state is Halted <==> setup.config.halt_day_on_max_profit
                &&& done.state is Idle <==> !setup.config.halt_day_on_max_profit
                &&& setup.attached ==> asked.len() > 0 && asked.last() == Demand::SetTradingState(
                    if setup.config.halt_day_on_max_profit {
                        TradingState::Halted
                    } else {
                        TradingState::Active
                    },
                )
            }
            &&& setup.tripped(m, node.report) == Some(TripBound::MaxLoss) ==> {
                &&& done.trip_bound == Some(TripBound::MaxLoss)
                &&& done.state is Halted <==> setup.config.halt_day_on_max_loss
                &&& done.state is Idle <==> !setup.config.halt_day_on_max_loss
                &&& setup.attached ==> asked.len() > 0 && asked.last() == Demand::SetTradingState(
                    if setup.config.halt_day_on_max_loss {
                        TradingState::Halted
                    } else {
                        TradingState::Active
                    },
                )
            }
        }),
{
    if let Some(bound) = setup.tripped(m, node.report) {
        law_trip_check_ends(setup, m, now, node, bound);
    }
    if setup.attached {
        lemma_halted_last(setup, node);
    }
}

/// Of a list of strategies the sidecar handles all but itself, each of them once, in the order of
/// their names.
pub proof fn law_candidates(setup: Setup, source: Seq<Seq<char>>, name: Seq<char>)
    ensures
        setup.candidates(source).contains(name) <==> source.contains(name) && name != setup.own
            && setup.config.strategy_id != Some(name),
        setup.candidates(source).no_duplicates(),
        forall|i: int, j: int|
            0 <= i < j < setup.candidates(source).len() ==> precedes(
                #[trigger] setup.candidates(source)[i],
                #[trigger] setup.candidates(source)[j],
            ),
{
    lemma_candidates(source, setup.own, setup.config.strategy_id);
    let ids = setup.candidates(source);
    assert forall|i: int, j: int| 0 <= i < ids.len() && 0 <= j < ids.len() && i != j implies ids[i]
        != ids[j] by {
        lemma_order_of_names(ids[i], ids[i], ids[i]);
        if i < j {
            assert(precedes(ids[i], ids[j]));
        } else {
            assert(precedes(ids[j], ids[i]));
        }
    }
}

/// A sidecar that is stopped forgets its latch and what it had to do, and keeps its daily window.
pub proof fn law_stop_keeps_the_window(m: Sidecar)
    ensures
        ({
            let after = reset(m);
            &&& after.state is Idle
            &&& after.stage is Ready
            &&& after.trip_bound is None
            &&& after.trip_date is None
            &&& !after.waiting_to_rearm
            &&& after.stopped_for_halt.len() == 0
            &&& after.flatten_started is None
            &&& after.last_exit_request is None
            &&& !after.flatten_timed_out
            &&& !after.latched_halted
            &&& after.session_date == m.session_date
            &&& after.day_anchor_pnl == m.day_anchor_pnl
            &&& after.awaits_anchor == m.awaits_anchor
            &&& after.warned_missing_pnl == m.warned_missing_pnl
        }),
{
}

/// A new sidecar watches, is armed, and has no window yet.
pub proof fn law_new_sidecar_watches()
    ensures
        ({
            let m = fresh();
            &&& m.state is Idle
            &&& m.stage is Ready
            &&& m.session_date is None
            &&& m.day_anchor_pnl is None
            &&& !m.awaits_anchor
            &&& m.trip_bound is None
            &&& m.trip_date is None
            &&& !m.waiting_to_rearm
            &&& m.stopped_for_halt.len() == 0
            &&& m.flatten_started is None
            &&& m.last_exit_request is None
            &&& !m.flatten_timed_out
            &&& !m.latched_halted
            &&& !m.warned_missing_pnl
        }),
{
}

} // verus!
