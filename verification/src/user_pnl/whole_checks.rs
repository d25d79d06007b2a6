//! Everything that a whole check asks for, in order, and the state in which it leaves the sidecar.

use vstd::prelude::*;

use crate::calendar::{date_at, CivilDate};
use crate::fixed::{Money, UnixNanos};
use crate::strategy_id::{lemma_order_of_names, precedes};
use crate::user_pnl::checks::{
    demands, finished, handled, in_window, lemma_stepped, opens_window, Node,
};
use crate::user_pnl::config::ScopeView;
use crate::user_pnl::inputs::{
    all_flat, lemma_candidates, picked, risk_flags, stop_flags, StopOutcome,
};
use crate::user_pnl::model::{
    Cause, Demand, Setup, Sidecar, Stage, TradingState, TripBound, UserPnLState,
};

verus! {

/// Whether the sidecar looks after a strategy: it is on the list of managed strategies, or where that
/// list is empty, registered on the node, and it is not the sidecar itself.
pub open spec fn minds(setup: Setup, node: Node, name: Seq<char>) -> bool {
    &&& if setup.config.managed.len() == 0 {
        node.registered.contains(name)
    } else {
        setup.config.managed.contains(name)
    }
    &&& name != setup.own
    &&& setup.config.strategy_id != Some(name)
}

/// Whether a strategy has a position, an open order or an order in flight.
pub open spec fn at_risk(node: Node, name: Seq<char>) -> bool {
    ||| (node.risk)(name).positions > 0
    ||| (node.risk)(name).open_orders > 0
    ||| (node.risk)(name).inflight > 0
}

/// Whether nothing is open that a flatten waits for: with the strategies on the list of managed ones,
/// or where that list is empty, at the venue or account.
pub open spec fn nothing_open(setup: Setup, node: Node) -> bool {
    if setup.config.managed.len() == 0 {
        &&& node.venue_risk.positions == 0
        &&& node.venue_risk.open_orders == 0
        &&& node.venue_risk.inflight == 0
    } else {
        forall|name: Seq<char>| minds(setup, node, name) ==> !#[trigger] at_risk(node, name)
    }
}

/// What is watched.
pub open spec fn watched_scope(setup: Setup) -> ScopeView {
    ScopeView { venue: setup.config.venue, account_id: setup.config.account_id }
}

/// The request for the PnL.
pub open spec fn pnl_request(setup: Setup) -> Seq<Demand> {
    seq![
        Demand::ReadPnl {
            scope: watched_scope(setup),
            currency: setup.config.currency,
            unrealized_only: setup.config.use_unrealized_only,
        },
    ]
}

/// The request for a trading state, where a node is attached.
pub open spec fn state_request(setup: Setup, state: TradingState) -> Seq<Demand> {
    if setup.attached {
        seq![Demand::SetTradingState(state)]
    } else {
        Seq::empty()
    }
}

/// The request for the registered strategies, where there is no list of managed ones.
pub open spec fn list_request(setup: Setup) -> Seq<Demand> {
    if setup.config.managed.len() == 0 {
        seq![Demand::ListStrategies]
    } else {
        Seq::empty()
    }
}

/// The request for the open risk of strategies.
pub open spec fn risk_request(setup: Setup, ids: Seq<Seq<char>>) -> Seq<Demand> {
    if ids.len() > 0 {
        seq![Demand::CountRisk { scope: watched_scope(setup), ids }]
    } else {
        Seq::empty()
    }
}

/// The request that strategies exit.
pub open spec fn exit_request(ids: Seq<Seq<char>>, initial: bool) -> Seq<Demand> {
    if ids.len() > 0 {
        seq![Demand::ExitStrategies { ids, initial }]
    } else {
        Seq::empty()
    }
}

/// The request that strategies stop.
pub open spec fn stop_request(ids: Seq<Seq<char>>) -> Seq<Demand> {
    if ids.len() > 0 {
        seq![Demand::StopStrategies(ids)]
    } else {
        Seq::empty()
    }
}

/// What is asked for to have strategies exit: all that the sidecar looks after, or where flat ones
/// are skipped, those of them that have open risk.
pub open spec fn exit_requests(setup: Setup, node: Node, initial: bool) -> Seq<Demand> {
    let ids = handled(setup, node);
    if !setup.attached {
        Seq::empty()
    } else if setup.config.skip_flat_strategies {
        list_request(setup) + risk_request(setup, ids) + exit_request(
            ids.filter(|name: Seq<char>| at_risk(node, name)),
            initial,
        )
    } else {
        list_request(setup) + exit_request(ids, initial)
    }
}

/// What is asked for to know whether anything is still open.
pub open spec fn flat_requests(setup: Setup, node: Node) -> Seq<Demand> {
    if setup.config.managed.len() == 0 {
        seq![Demand::CountVenueRisk(watched_scope(setup))]
    } else {
        risk_request(setup, handled(setup, node))
    }
}

/// What is asked for to stop the strategies and halt trading.
pub open spec fn halt_requests(setup: Setup, node: Node) -> Seq<Demand> {
    if setup.attached {
        list_request(setup) + stop_request(handled(setup, node)) + state_request(
            setup,
            TradingState::Halted,
        )
    } else {
        Seq::empty()
    }
}

/// The strategies that a halt stops: those that report to be stopped.
pub open spec fn stopped_by_halt(setup: Setup, m: Sidecar, node: Node) -> Seq<Seq<char>> {
    if setup.attached {
        handled(setup, node).filter(|name: Seq<char>| (node.stop)(name) == StopOutcome::Stopped)
    } else {
        m.stopped_for_halt
    }
}

/// Whether the bound that tripped halts the day.
pub open spec fn flag_of(setup: Setup, bound: Option<TripBound>) -> bool {
    match bound {
        Some(TripBound::MaxLoss) => setup.config.halt_day_on_max_loss,
        Some(TripBound::MaxProfit) => setup.config.halt_day_on_max_profit,
        None => true,
    }
}

/// Whether so many milliseconds have passed since an instant. None have where the clock was set back.
pub open spec fn have_passed(since: UnixNanos, ms: u64, now: UnixNanos) -> bool {
    now.nanos >= since.nanos + ms * 1_000_000 || ms == 0
}

/// The window of a check.
pub open spec fn window_of(setup: Setup, m: Sidecar, now: UnixNanos) -> Option<CivilDate> {
    if setup.config.reset_daily {
        Some(date_at(now))
    } else {
        m.session_date
    }
}

/// The strategies that the sidecar handles are those that it looks after, each of them once, in the
/// order of their names.
pub proof fn law_handled(setup: Setup, node: Node)
    ensures
        forall|name: Seq<char>| #[trigger]
            handled(setup, node).contains(name) <==> minds(setup, node, name),
        forall|i: int, j: int|
            0 <= i < j < handled(setup, node).len() ==> precedes(
                #[trigger] handled(setup, node)[i],
                #[trigger] handled(setup, node)[j],
            ),
        handled(setup, node).no_duplicates(),
{
    let source = if setup.config.managed.len() == 0 {
        node.registered
    } else {
        setup.config.managed
    };
    lemma_candidates(source, setup.own, setup.config.strategy_id);
    let ids = handled(setup, node);
    assert forall|i: int, j: int| 0 <= i < ids.len() && 0 <= j < ids.len() && i != j implies ids[i]
        != ids[j] by {
        lemma_order_of_names(ids[i], ids[i], ids[i]);
        if i < j {
            assert(precedes(ids[i], ids[j]));
        } else {
            assert(precedes(ids[j], ids[i]));
        }
    }
}

/// What is picked out by the flags of a property is what has it.
proof fn lemma_picked_is_filtered(
    ids: Seq<Seq<char>>,
    flags: Seq<bool>,
    wanted: spec_fn(Seq<char>) -> bool,
)
    requires
        flags.len() >= ids.len(),
        forall|i: int| 0 <= i < ids.len() ==> #[trigger] flags[i] == wanted(ids[i]),
    ensures
        picked(ids, flags) == ids.filter(wanted),
    decreases ids.len(),
{
    reveal(Seq::filter);
    if ids.len() > 0 {
        let front = ids.drop_last();
        assert forall|i: int| 0 <= i < front.len() implies #[trigger] flags[i] == wanted(
            front[i],
        ) by {
            assert(front[i] == ids[i]);
        }
        lemma_picked_is_filtered(front, flags, wanted);
        assert(flags[ids.len() - 1] == wanted(ids.last()));
    } else {
        assert(picked(ids, flags) =~= ids.filter(wanted));
    }
}

/// The strategies with open risk are those that are found to have it.
proof fn lemma_open_are_picked(node: Node, ids: Seq<Seq<char>>)
    ensures
        picked(ids, risk_flags(ids.map_values(node.risk))) == ids.filter(
            |name: Seq<char>| at_risk(node, name),
        ),
{
    let flags = risk_flags(ids.map_values(node.risk));
    let wanted = |name: Seq<char>| at_risk(node, name);
    assert forall|i: int| 0 <= i < ids.len() implies #[trigger] flags[i] == wanted(ids[i]) by {
        assert(ids.map_values(node.risk)[i] == (node.risk)(ids[i]));
    }
    lemma_picked_is_filtered(ids, flags, wanted);
}

/// The strategies that are stopped are those that report it.
proof fn lemma_stopped_are_picked(node: Node, ids: Seq<Seq<char>>)
    ensures
        picked(ids, stop_flags(ids.map_values(node.stop))) == ids.filter(
            |name: Seq<char>| (node.stop)(name) == StopOutcome::Stopped,
        ),
{
    let flags = stop_flags(ids.map_values(node.stop));
    let wanted = |name: Seq<char>| (node.stop)(name) == StopOutcome::Stopped;
    assert forall|i: int| 0 <= i < ids.len() implies #[trigger] flags[i] == wanted(ids[i]) by {
        assert(ids.map_values(node.stop)[i] == (node.stop)(ids[i]));
    }
    lemma_picked_is_filtered(ids, flags, wanted);
}

/// Whether a check comes from one place to another by asking for `asked`.
#[verifier::opaque]
spec fn leads(
    setup: Setup,
    m: Sidecar,
    now: UnixNanos,
    node: Node,
    asked: Seq<Demand>,
    next: Sidecar,
) -> bool {
    &&& demands(setup, m, now, node) == asked + demands(setup, next, now, node)
    &&& finished(setup, m, now, node) == finished(setup, next, now, node)
}

/// Where nothing is asked for, a check stays where it is.
proof fn lemma_leads_nowhere(setup: Setup, m: Sidecar, now: UnixNanos, node: Node)
    ensures
        leads(setup, m, now, node, Seq::empty(), m),
{
    reveal(leads);
    assert(Seq::<Demand>::empty() + demands(setup, m, now, node) =~= demands(setup, m, now, node));
}

/// One reply leads one place on.
proof fn lemma_leads_once(setup: Setup, m: Sidecar, now: UnixNanos, node: Node)
    requires
        !(m.stage is Ready),
    ensures
        leads(
            setup,
            m,
            now,
            node,
            seq![setup.demand(m.stage)],
            setup.answered(m, now, node.reply(setup.demand(m.stage))),
        ),
{
    reveal(leads);
    lemma_stepped(setup, m, now, node);
}

/// What is asked for on the way is put together.
proof fn lemma_leads_on(
    setup: Setup,
    m: Sidecar,
    now: UnixNanos,
    node: Node,
    first: Seq<Demand>,
    next: Sidecar,
    second: Seq<Demand>,
    last: Sidecar,
)
    requires
        leads(setup, m, now, node, first, next),
        leads(setup, next, now, node, second, last),
    ensures
        leads(setup, m, now, node, first + second, last),
{
    reveal(leads);
    let rest = demands(setup, last, now, node);
    assert(first + (second + rest) =~= (first + second) + rest);
}

/// A check that has come to its end has asked for what was asked for on the way.
proof fn lemma_leads_to_the_end(
    setup: Setup,
    m: Sidecar,
    now: UnixNanos,
    node: Node,
    asked: Seq<Demand>,
    next: Sidecar,
)
    requires
        leads(setup, m, now, node, asked, next),
        next.stage is Ready,
    ensures
        demands(setup, m, now, node) == asked,
        finished(setup, m, now, node) == next,
{
    reveal(leads);
    assert(asked + Seq::<Demand>::empty() =~= asked);
}

/// Where a flatten goes does not depend on the stage that it comes from.
proof fn lemma_stage_is_replaced(
    setup: Setup,
    m: Sidecar,
    stage: Stage,
    now: UnixNanos,
    cause: Cause,
)
    ensures
        ({
            let other = Sidecar { stage, ..m };
            &&& setup.stops_wanted(other) == setup.stops_wanted(m)
            &&& setup.released(other, now) == setup.released(m, now)
            &&& setup.flat(other, now) == setup.flat(m, now)
            &&& setup.flat_wanted(other, now) == setup.flat_wanted(m, now)
            &&& setup.exits_over(other, now, cause) == setup.exits_over(m, now, cause)
            &&& setup.exits_asked(other, now, cause) == setup.exits_asked(m, now, cause)
        }),
{
    let other = Sidecar { stage, ..m };
    assert(setup.stops_wanted(other) == setup.stops_wanted(m));
    assert(setup.released(other, now) == setup.released(m, now));
    assert(setup.flat(other, now) == setup.flat(m, now));
    assert(setup.flat_wanted(other, now) == setup.flat_wanted(m, now));
}

/// Asking the strategies that are known to be the ones to ask.
proof fn lemma_asks_them(
    setup: Setup,
    m: Sidecar,
    now: UnixNanos,
    node: Node,
    cause: Cause,
    ids: Seq<Seq<char>>,
)
    ensures
        leads(
            setup,
            setup.exits_of(m, now, cause, ids),
            now,
            node,
            exit_request(ids, !(cause is Redrive)),
            setup.exits_asked(m, now, cause),
        ),
{
    let at = setup.exits_of(m, now, cause, ids);
    if ids.len() > 0 {
        lemma_leads_once(setup, at, now, node);
        lemma_stage_is_replaced(setup, m, at.stage, now, cause);
    } else {
        lemma_leads_nowhere(setup, at, now, node);
    }
}

/// Asking those of the strategies that are to be asked.
proof fn lemma_asks_among(
    setup: Setup,
    m: Sidecar,
    now: UnixNanos,
    node: Node,
    cause: Cause,
    ids: Seq<Seq<char>>,
)
    ensures
        setup.config.skip_flat_strategies ==> leads(
            setup,
            setup.exits_among(m, now, cause, ids),
            now,
            node,
            risk_request(setup, ids) + exit_request(
                ids.filter(|name: Seq<char>| at_risk(node, name)),
                !(cause is Redrive),
            ),
            setup.exits_asked(m, now, cause),
        ),
        !setup.config.skip_flat_strategies ==> leads(
            setup,
            setup.exits_among(m, now, cause, ids),
            now,
            node,
            exit_request(ids, !(cause is Redrive)),
            setup.exits_asked(m, now, cause),
        ),
{
    let at = setup.exits_among(m, now, cause, ids);
    let done = setup.exits_asked(m, now, cause);
    let initial = !(cause is Redrive);
    let open = ids.filter(|name: Seq<char>| at_risk(node, name));
    lemma_open_are_picked(node, ids);
    if setup.config.skip_flat_strategies {
        let next = setup.exits_of(m, now, cause, open);
        lemma_asks_them(setup, m, now, node, cause, open);
        if ids.len() > 0 {
            lemma_leads_once(setup, at, now, node);
            lemma_stage_is_replaced(setup, m, at.stage, now, cause);
            let stepped = setup.exits_of(at, now, cause, open);
            assert(setup.answered(at, now, node.reply(setup.demand(at.stage))) == stepped);
            assert(stepped == next);
            lemma_leads_on(
                setup,
                at,
                now,
                node,
                risk_request(setup, ids),
                next,
                exit_request(open, initial),
                done,
            );
        } else {
            assert(open =~= ids) by {
                reveal(Seq::filter);
            }
            assert(risk_request(setup, ids) + exit_request(open, initial) =~= exit_request(
                open,
                initial,
            ));
        }
    } else {
        lemma_asks_them(setup, m, now, node, cause, ids);
    }
}

/// Asking for exits, from the lookup of the strategies on.
proof fn lemma_asks(setup: Setup, m: Sidecar, now: UnixNanos, node: Node, cause: Cause)
    requires
        setup.attached,
    ensures
        leads(
            setup,
            setup.exits_wanted(m, now, cause),
            now,
            node,
            exit_requests(setup, node, !(cause is Redrive)),
            setup.exits_asked(m, now, cause),
        ),
{
    let at = setup.exits_wanted(m, now, cause);
    let ids = handled(setup, node);
    let done = setup.exits_asked(m, now, cause);
    let initial = !(cause is Redrive);
    let rest = if setup.config.skip_flat_strategies {
        risk_request(setup, ids) + exit_request(
            ids.filter(|name: Seq<char>| at_risk(node, name)),
            initial,
        )
    } else {
        exit_request(ids, initial)
    };
    assert(exit_requests(setup, node, initial) =~= list_request(setup) + rest);
    lemma_asks_among(setup, m, now, node, cause, ids);
    if setup.handles_all() {
        let next = setup.exits_among(m, now, cause, ids);
        lemma_leads_once(setup, at, now, node);
        lemma_stage_is_replaced(setup, m, at.stage, now, cause);
        let stepped = setup.exits_among(at, now, cause, ids);
        assert(setup.answered(at, now, node.reply(setup.demand(at.stage))) == stepped);
        assert(setup.exits_of(at, now, cause, ids) == setup.exits_of(m, now, cause, ids));
        assert(stepped == next);
        lemma_leads_on(setup, at, now, node, list_request(setup), next, rest, done);
    } else {
        assert(list_request(setup) + rest =~= rest);
    }
}

/// What is open is what the flat check looks at.
proof fn lemma_nothing_open(setup: Setup, node: Node)
    ensures
        setup.handles_all() ==> (nothing_open(setup, node) <==> all_flat(seq![node.venue_risk])),
        !setup.handles_all() ==> (nothing_open(setup, node) <==> all_flat(
            handled(setup, node).map_values(node.risk),
        )),
{
    law_handled(setup, node);
    let ids = handled(setup, node);
    let risk = ids.map_values(node.risk);
    if setup.handles_all() {
        assert(seq![node.venue_risk][0] == node.venue_risk);
    } else {
        if nothing_open(setup, node) {
            assert forall|i: int| 0 <= i < risk.len() implies !(#[trigger] risk[i]).present() by {
                assert(ids.contains(ids[i]));
                assert(!at_risk(node, ids[i]));
            }
        }
        if all_flat(risk) {
            assert forall|name: Seq<char>| minds(setup, node, name) implies !#[trigger] at_risk(
                node,
                name,
            ) by {
                assert(ids.contains(name));
                let i = choose|i: int| 0 <= i < ids.len() && ids[i] == name;
                assert(!risk[i].present());
            }
        }
    }
}

/// The flat check.
proof fn lemma_looks_whether_flat(setup: Setup, m: Sidecar, now: UnixNanos, node: Node)
    ensures
        leads(
            setup,
            setup.flat_wanted(m, now),
            now,
            node,
            flat_requests(setup, node),
            if nothing_open(setup, node) {
                setup.flat(m, now)
            } else {
                Sidecar { stage: Stage::Ready, ..m }
            },
        ),
{
    let at = setup.flat_wanted(m, now);
    lemma_nothing_open(setup, node);
    if at.stage is FlatVenue || at.stage is FlatManaged {
        lemma_stage_is_replaced(setup, m, at.stage, now, Cause::Trip);
    }
    if setup.handles_all() || handled(setup, node).len() > 0 {
        lemma_leads_once(setup, at, now, node);
    } else {
        lemma_leads_nowhere(setup, at, now, node);
    }
}

/// The sidecar in a halt.
pub open spec fn in_halt(setup: Setup, m: Sidecar, node: Node) -> Sidecar {
    Sidecar {
        state: UserPnLState::Halted,
        stopped_for_halt: stopped_by_halt(setup, m, node),
        latched_halted: true,
        flatten_started: None,
        last_exit_request: None,
        flatten_timed_out: false,
        stage: Stage::Ready,
        ..m
    }
}

/// The sidecar after a flatten that did not end in a halt.
pub open spec fn let_go(m: Sidecar, waiting_to_rearm: bool) -> Sidecar {
    Sidecar {
        state: UserPnLState::Idle,
        waiting_to_rearm,
        flatten_started: None,
        last_exit_request: None,
        flatten_timed_out: false,
        stage: Stage::Ready,
        ..m
    }
}

/// Stopping strategies that are known.
proof fn lemma_stops_them(setup: Setup, m: Sidecar, now: UnixNanos, node: Node)
    requires
        setup.attached,
        m.stopped_for_halt == Seq::<Seq<char>>::empty(),
    ensures
        leads(
            setup,
            setup.stops_of(m, handled(setup, node)),
            now,
            node,
            stop_request(handled(setup, node)) + state_request(setup, TradingState::Halted),
            in_halt(setup, m, node),
        ),
{
    let ids = handled(setup, node);
    let at = setup.stops_of(m, ids);
    let done = in_halt(setup, m, node);
    let stopped = stopped_by_halt(setup, m, node);
    lemma_stopped_are_picked(node, ids);
    let halting = setup.halted(Sidecar { stopped_for_halt: stopped, ..m });
    lemma_leads_once(setup, halting, now, node);
    assert(setup.answered(halting, now, node.reply(setup.demand(halting.stage))) == done);
    if ids.len() > 0 {
        lemma_leads_once(setup, at, now, node);
        assert(setup.answered(at, now, node.reply(setup.demand(at.stage))) == halting);
        lemma_leads_on(
            setup,
            at,
            now,
            node,
            stop_request(ids),
            halting,
            state_request(setup, TradingState::Halted),
            done,
        );
    } else {
        assert(stopped =~= Seq::empty()) by {
            reveal(Seq::filter);
        }
        assert(at == halting);
        assert(stop_request(ids) + state_request(setup, TradingState::Halted) =~= state_request(
            setup,
            TradingState::Halted,
        ));
    }
}

/// Stopping strategies and halting trading.
proof fn lemma_halts_the_day(setup: Setup, m: Sidecar, now: UnixNanos, node: Node)
    ensures
        leads(
            setup,
            setup.stops_wanted(m),
            now,
            node,
            halt_requests(setup, node),
            in_halt(setup, m, node),
        ),
{
    let at = setup.stops_wanted(m);
    let done = in_halt(setup, m, node);
    if !setup.attached {
        assert(at == done);
        lemma_leads_nowhere(setup, at, now, node);
    } else {
        let ids = handled(setup, node);
        let rest = stop_request(ids) + state_request(setup, TradingState::Halted);
        let cleared = Sidecar { stopped_for_halt: Seq::empty(), ..m };
        assert(halt_requests(setup, node) =~= list_request(setup) + rest);
        if setup.handles_all() {
            lemma_stops_them(setup, at, now, node);
            lemma_leads_once(setup, at, now, node);
            let next = setup.stops_of(at, ids);
            assert(setup.answered(at, now, node.reply(setup.demand(at.stage))) == next);
            assert(in_halt(setup, at, node) == done);
            lemma_leads_on(setup, at, now, node, list_request(setup), next, rest, done);
        } else {
            lemma_stops_them(setup, cleared, now, node);
            assert(in_halt(setup, cleared, node) == done);
            assert(list_request(setup) + rest =~= rest);
        }
    }
}

/// Making trading active again.
proof fn lemma_lets_go(setup: Setup, m: Sidecar, now: UnixNanos, node: Node)
    ensures
        leads(
            setup,
            setup.released(m, now),
            now,
            node,
            state_request(setup, TradingState::Active),
            let_go(m, !(setup.config.reset_daily && m.trip_date != Some(date_at(now)))),
        ),
{
    let at = setup.released(m, now);
    if setup.attached {
        lemma_leads_once(setup, at, now, node);
    } else {
        lemma_leads_nowhere(setup, at, now, node);
    }
}

/// Whether exits are asked for by a check of a flatten: a node is attached, and exits were not asked
/// for before or the interval has passed since.
pub open spec fn asks_again(setup: Setup, m: Sidecar, now: UnixNanos) -> bool {
    &&& setup.attached
    &&& m.last_exit_request matches Some(last) ==> have_passed(
        last,
        setup.config.flatten_redrive_ms,
        now,
    )
}

/// What a check of a flatten asks for up to the flat check.
pub open spec fn flatten_requests(
    setup: Setup,
    m: Sidecar,
    now: UnixNanos,
    node: Node,
) -> Seq<Demand> {
    if asks_again(setup, m, now) {
        exit_requests(setup, node, false) + flat_requests(setup, node)
    } else {
        flat_requests(setup, node)
    }
}

/// A flatten at the flat check.
pub open spec fn still_flattening(setup: Setup, m: Sidecar, now: UnixNanos) -> Sidecar {
    Sidecar {
        session_date: window_of(setup, m, now),
        last_exit_request: if asks_again(setup, m, now) {
            Some(now)
        } else {
            m.last_exit_request
        },
        flatten_timed_out: m.flatten_timed_out || (m.flatten_started matches Some(started)
            && have_passed(started, setup.config.flatten_timeout_ms, now)),
        stage: Stage::Ready,
        ..m
    }
}

/// A check of a flatten comes to the flat check.
proof fn lemma_flatten_is_checked(setup: Setup, m: Sidecar, now: UnixNanos, node: Node)
    requires
        m.stage is Ready,
        m.state is Flattening,
        in_window(setup, m, now),
    ensures
        leads(
            setup,
            setup.begun(m, now),
            now,
            node,
            flatten_requests(setup, m, now, node),
            if nothing_open(setup, node) {
                setup.flat(still_flattening(setup, m, now), now)
            } else {
                still_flattening(setup, m, now)
            },
        ),
{
    let begun = setup.begun(m, now);
    let dated = Sidecar { session_date: window_of(setup, m, now), ..m };
    let there = still_flattening(setup, m, now);
    let last = if nothing_open(setup, node) {
        setup.flat(there, now)
    } else {
        there
    };
    assert(begun == setup.flattening(dated, now));
    assert(asks_again(setup, m, now) == (setup.redrives(dated, now) && setup.attached));
    lemma_looks_whether_flat(setup, there, now, node);
    let next = setup.flat_wanted(there, now);
    if asks_again(setup, m, now) {
        lemma_asks(setup, dated, now, node, Cause::Redrive);
        assert(setup.exits_asked(dated, now, Cause::Redrive) == next);
        lemma_leads_on(
            setup,
            begun,
            now,
            node,
            exit_requests(setup, node, false),
            next,
            flat_requests(setup, node),
            last,
        );
    } else {
        assert(setup.exits_over(dated, now, Cause::Redrive) == next);
    }
}

/// Every check of a flatten asks for exits again where the interval has passed, and looks whether
/// anything is open, before it does anything else.
pub proof fn law_flatten_check_starts(setup: Setup, m: Sidecar, now: UnixNanos, node: Node) -> (rest:
    Seq<Demand>)
    requires
        m.stage is Ready,
        m.state is Flattening,
        in_window(setup, m, now),
    ensures
        demands(setup, setup.begun(m, now), now, node) == flatten_requests(setup, m, now, node)
            + rest,
{
    reveal(leads);
    lemma_flatten_is_checked(setup, m, now, node);
    let next = if nothing_open(setup, node) {
        setup.flat(still_flattening(setup, m, now), now)
    } else {
        still_flattening(setup, m, now)
    };
    demands(setup, next, now, node)
}

/// While something is open, a check of a flatten asks for exits again where the interval has passed,
/// looks whether anything is open, and ends. A flatten that has run for longer than its timeout is
/// marked as stuck.
pub proof fn law_flatten_check_goes_on(setup: Setup, m: Sidecar, now: UnixNanos, node: Node)
    requires
        m.stage is Ready,
        m.state is Flattening,
        in_window(setup, m, now),
        !nothing_open(setup, node),
    ensures
        demands(setup, setup.begun(m, now), now, node) == flatten_requests(setup, m, now, node),
        finished(setup, setup.begun(m, now), now, node) == still_flattening(setup, m, now),
{
    lemma_flatten_is_checked(setup, m, now, node);
    lemma_leads_to_the_end(
        setup,
        setup.begun(m, now),
        now,
        node,
        flatten_requests(setup, m, now, node),
        still_flattening(setup, m, now),
    );
}

/// Once nothing is open, a check of a flatten ends it. In the window of the trip it halts where the
/// flag of the bound that tripped is set, and where it is not, makes trading active and waits for PnL
/// to recover.
pub proof fn law_flatten_check_ends(setup: Setup, m: Sidecar, now: UnixNanos, node: Node)
    requires
        m.stage is Ready,
        m.state is Flattening,
        in_window(setup, m, now),
        setup.config.reset_daily ==> m.trip_date == Some(date_at(now)),
        nothing_open(setup, node),
    ensures
        ({
            let dated = Sidecar { session_date: window_of(setup, m, now), ..m };
            let before = flatten_requests(setup, m, now, node);
            let asked = demands(setup, setup.begun(m, now), now, node);
            let done = finished(setup, setup.begun(m, now), now, node);
            if flag_of(setup, m.trip_bound) {
                &&& asked == before + halt_requests(setup, node)
                &&& done == in_halt(setup, dated, node)
            } else {
                &&& asked == before + state_request(setup, TradingState::Active)
                &&& done == let_go(dated, true)
            }
        }),
{
    let begun = setup.begun(m, now);
    let dated = Sidecar { session_date: window_of(setup, m, now), ..m };
    let there = still_flattening(setup, m, now);
    let before = flatten_requests(setup, m, now, node);
    let next = setup.flat(there, now);
    lemma_flatten_is_checked(setup, m, now, node);
    let (after, done) = if flag_of(setup, m.trip_bound) {
        lemma_halts_the_day(setup, there, now, node);
        (halt_requests(setup, node), in_halt(setup, dated, node))
    } else {
        lemma_lets_go(setup, there, now, node);
        (state_request(setup, TradingState::Active), let_go(dated, true))
    };
    assert(leads(setup, next, now, node, after, done)) by {
        assert(in_halt(setup, there, node) == in_halt(setup, dated, node));
        assert(let_go(there, true) == let_go(dated, true));
    }
    lemma_leads_on(setup, begun, now, node, before, next, after, done);
    lemma_leads_to_the_end(setup, begun, now, node, before + after, done);
}

/// A sidecar that has read a report in its window: an anchor that is awaited is taken from it.
pub open spec fn has_read(
    setup: Setup,
    m: Sidecar,
    now: UnixNanos,
    report: Option<Seq<(Seq<char>, Money)>>,
) -> Sidecar {
    let total = setup.total(report);
    Sidecar {
        session_date: window_of(setup, m, now),
        warned_missing_pnl: report is None,
        day_anchor_pnl: if m.awaits_anchor && total is Some {
            total
        } else {
            m.day_anchor_pnl
        },
        awaits_anchor: m.awaits_anchor && total is None,
        stage: Stage::Ready,
        ..m
    }
}

/// A sidecar whose bound has tripped now.
pub open spec fn has_tripped(
    setup: Setup,
    m: Sidecar,
    now: UnixNanos,
    bound: TripBound,
) -> Sidecar {
    Sidecar {
        state: UserPnLState::Flattening,
        trip_bound: Some(bound),
        trip_date: Some(date_at(now)),
        waiting_to_rearm: false,
        flatten_started: Some(now),
        flatten_timed_out: false,
        last_exit_request: if setup.attached {
            Some(now)
        } else {
            m.last_exit_request
        },
        stage: Stage::Ready,
        ..m
    }
}

/// A trip has trading reduced and then strategies asked to exit, for the first time.
proof fn lemma_trip_is_acted_on(
    setup: Setup,
    m: Sidecar,
    now: UnixNanos,
    node: Node,
    bound: TripBound,
    cause: Cause,
)
    requires
        !(cause is Redrive),
    ensures
        leads(
            setup,
            setup.trip(m, bound, now, cause),
            now,
            node,
            state_request(setup, TradingState::Reducing) + exit_requests(setup, node, true),
            setup.exits_over(has_tripped(setup, m, now, bound), now, cause),
        ),
{
    let at = setup.trip(m, bound, now, cause);
    let there = has_tripped(setup, m, now, bound);
    let reducing = state_request(setup, TradingState::Reducing);
    let exits = exit_requests(setup, node, true);
    let last = setup.exits_over(there, now, cause);
    if setup.attached {
        let next = setup.exits_wanted(at, now, cause);
        lemma_leads_once(setup, at, now, node);
        assert(setup.answered(at, now, node.reply(setup.demand(at.stage))) == next);
        lemma_asks(setup, at, now, node, cause);
        lemma_stage_is_replaced(
            setup,
            Sidecar { last_exit_request: Some(now), ..at },
            Stage::Ready,
            now,
            cause,
        );
        assert(setup.exits_asked(at, now, cause) == last);
        lemma_leads_on(setup, at, now, node, reducing, next, exits, last);
    } else {
        lemma_stage_is_replaced(
            setup,
            Sidecar { stage: m.stage, ..there },
            Stage::Ready,
            now,
            cause,
        );
        assert(at == last);
        assert(reducing + exits =~= Seq::empty());
        lemma_leads_nowhere(setup, at, now, node);
    }
}

/// Once nothing is open on a later day than that of the trip, a check reads the new day's PnL. Where
/// that trips nothing, trading is active again and the sidecar armed: the trip does not carry over.
pub proof fn law_late_flatten_check_releases(setup: Setup, m: Sidecar, now: UnixNanos, node: Node)
    requires
        m.stage is Ready,
        m.state is Flattening,
        in_window(setup, m, now),
        setup.config.reset_daily,
        m.trip_date != Some(date_at(now)),
        nothing_open(setup, node),
        setup.tripped(m, node.report) is None,
    ensures
        demands(setup, setup.begun(m, now), now, node) == flatten_requests(setup, m, now, node)
            + pnl_request(setup) + state_request(setup, TradingState::Active),
        finished(setup, setup.begun(m, now), now, node) == let_go(
            has_read(setup, m, now, node.report),
            false,
        ),
{
    let begun = setup.begun(m, now);
    let there = still_flattening(setup, m, now);
    let before = flatten_requests(setup, m, now, node);
    let at = setup.flat(there, now);
    lemma_flatten_is_checked(setup, m, now, node);
    lemma_leads_once(setup, at, now, node);
    assert(seq![setup.demand(at.stage)] == pnl_request(setup));
    let noted = setup.noted(at, node.report);
    let next = setup.released(noted, now);
    assert(setup.answered(at, now, node.reply(setup.demand(at.stage))) == next);
    lemma_leads_on(setup, begun, now, node, before, at, pnl_request(setup), next);
    lemma_lets_go(setup, noted, now, node);
    let done = let_go(has_read(setup, m, now, node.report), false);
    assert(let_go(noted, false) == done);
    let active = state_request(setup, TradingState::Active);
    lemma_leads_on(setup, begun, now, node, before + pnl_request(setup), next, active, done);
    lemma_leads_to_the_end(setup, begun, now, node, before + pnl_request(setup) + active, done);
}

/// A trip of a new day on which a flatten ended halts or releases at once.
proof fn lemma_late_trip_settles(
    setup: Setup,
    m: Sidecar,
    now: UnixNanos,
    node: Node,
    bound: TripBound,
)
    ensures
        ({
            let there = has_tripped(setup, m, now, bound);
            let at = setup.exits_over(there, now, Cause::Retrip);
            if flag_of(setup, Some(bound)) {
                leads(setup, at, now, node, halt_requests(setup, node), in_halt(setup, there, node))
            } else {
                leads(
                    setup,
                    at,
                    now,
                    node,
                    state_request(setup, TradingState::Active),
                    let_go(there, true),
                )
            }
        }),
{
    let there = has_tripped(setup, m, now, bound);
    lemma_halts_the_day(setup, there, now, node);
    lemma_lets_go(setup, there, now, node);
}

/// Where the new day is past a bound, the same check trips again: it has trading reduced and exits
/// asked for, and at once halts where the flag of the new bound is set, and where it is not, makes
/// trading active and waits for PnL to recover.
pub proof fn law_late_flatten_check_trips_again(
    setup: Setup,
    m: Sidecar,
    now: UnixNanos,
    node: Node,
    bound: TripBound,
)
    requires
        m.stage is Ready,
        m.state is Flattening,
        in_window(setup, m, now),
        setup.config.reset_daily,
        m.trip_date != Some(date_at(now)),
        nothing_open(setup, node),
        setup.tripped(m, node.report) == Some(bound),
    ensures
        ({
            let before = flatten_requests(setup, m, now, node) + pnl_request(setup) + state_request(
                setup,
                TradingState::Reducing,
            ) + exit_requests(setup, node, true);
            let there = has_tripped(setup, has_read(setup, m, now, node.report), now, bound);
            let asked = demands(setup, setup.begun(m, now), now, node);
            let done = finished(setup, setup.begun(m, now), now, node);
            if flag_of(setup, Some(bound)) {
                &&& asked == before + halt_requests(setup, node)
                &&& done == in_halt(setup, there, node)
            } else {
                &&& asked == before + state_request(setup, TradingState::Active)
                &&& done == let_go(there, true)
            }
        }),
{
    let begun = setup.begun(m, now);
    let start = still_flattening(setup, m, now);
    let first = flatten_requests(setup, m, now, node);
    let reading = pnl_request(setup);
    let at = setup.flat(start, now);
    lemma_flatten_is_checked(setup, m, now, node);
    lemma_leads_once(setup, at, now, node);
    assert(seq![setup.demand(at.stage)] == reading);
    let noted = setup.noted(at, node.report);
    let tripping = setup.trip(noted, bound, now, Cause::Retrip);
    assert(setup.answered(at, now, node.reply(setup.demand(at.stage))) == tripping);
    lemma_leads_on(setup, begun, now, node, first, at, reading, tripping);
    lemma_trip_is_acted_on(setup, noted, now, node, bound, Cause::Retrip);
    let acting = state_request(setup, TradingState::Reducing) + exit_requests(setup, node, true);
    let there = has_tripped(setup, noted, now, bound);
    let settling = setup.exits_over(there, now, Cause::Retrip);
    lemma_leads_on(setup, begun, now, node, first + reading, tripping, acting, settling);
    lemma_late_trip_settles(setup, noted, now, node, bound);
    let shown = has_tripped(setup, has_read(setup, m, now, node.report), now, bound);
    assert(in_halt(setup, there, node) == in_halt(setup, shown, node));
    assert(let_go(there, true) == let_go(shown, true));
    let before = first + reading + acting;
    assert(before =~= first + reading + state_request(setup, TradingState::Reducing)
        + exit_requests(setup, node, true));
    let (after, done) = if flag_of(setup, Some(bound)) {
        (halt_requests(setup, node), in_halt(setup, shown, node))
    } else {
        (state_request(setup, TradingState::Active), let_go(shown, true))
    };
    lemma_leads_on(setup, begun, now, node, before, settling, after, done);
    lemma_leads_to_the_end(setup, begun, now, node, before + after, done);
}

/// A check of a sidecar that watches reads the PnL.
proof fn lemma_idle_is_checked(setup: Setup, m: Sidecar, now: UnixNanos, node: Node)
    requires
        m.stage is Ready,
        m.state is Idle,
        in_window(setup, m, now),
    ensures
        leads(
            setup,
            setup.begun(m, now),
            now,
            node,
            pnl_request(setup),
            setup.sampled(
                Sidecar { session_date: window_of(setup, m, now), stage: Stage::IdlePnl, ..m },
                now,
                node.report,
            ),
        ),
{
    let begun = setup.begun(m, now);
    assert(begun == (Sidecar {
        session_date: window_of(setup, m, now),
        stage: Stage::IdlePnl,
        ..m
    }));
    lemma_leads_once(setup, begun, now, node);
    assert(seq![setup.demand(begun.stage)] == pnl_request(setup));
}

/// A check of a sidecar that watches asks for nothing but the PnL where that is not known, where it
/// trips no bound, and where the sidecar still waits for it to recover. A PnL that trips no bound
/// ends that wait, and no other does.
pub proof fn law_idle_check_is_quiet(setup: Setup, m: Sidecar, now: UnixNanos, node: Node)
    requires
        m.stage is Ready,
        m.state is Idle,
        in_window(setup, m, now),
        m.waiting_to_rearm || setup.tripped(m, node.report) is None,
    ensures
        demands(setup, setup.begun(m, now), now, node) == pnl_request(setup),
        finished(setup, setup.begun(m, now), now, node) == (Sidecar {
            waiting_to_rearm: m.waiting_to_rearm && (setup.total(node.report) is None
                || setup.tripped(m, node.report) is Some),
            ..has_read(setup, m, now, node.report)
        }),
{
    let begun = setup.begun(m, now);
    lemma_idle_is_checked(setup, m, now, node);
    let done = Sidecar {
        waiting_to_rearm: m.waiting_to_rearm && (setup.total(node.report) is None || setup.tripped(
            m,
            node.report,
        ) is Some),
        ..has_read(setup, m, now, node.report)
    };
    let at = Sidecar { session_date: window_of(setup, m, now), stage: Stage::IdlePnl, ..m };
    assert(setup.sampled(at, now, node.report) == done);
    lemma_leads_to_the_end(setup, begun, now, node, pnl_request(setup), done);
}

/// What a check asks for that trips a bound, up to the flat check.
pub open spec fn trip_requests(setup: Setup, node: Node) -> Seq<Demand> {
    pnl_request(setup) + state_request(setup, TradingState::Reducing) + exit_requests(
        setup,
        node,
        true,
    ) + flat_requests(setup, node)
}

/// A check that trips a bound comes to the flat check.
proof fn lemma_idle_trips(setup: Setup, m: Sidecar, now: UnixNanos, node: Node, bound: TripBound)
    requires
        m.stage is Ready,
        m.state is Idle,
        !m.waiting_to_rearm,
        in_window(setup, m, now),
        setup.tripped(m, node.report) == Some(bound),
    ensures
        ({
            let there = has_tripped(setup, has_read(setup, m, now, node.report), now, bound);
            leads(
                setup,
                setup.begun(m, now),
                now,
                node,
                trip_requests(setup, node),
                if nothing_open(setup, node) {
                    setup.flat(there, now)
                } else {
                    there
                },
            )
        }),
{
    let begun = setup.begun(m, now);
    lemma_idle_is_checked(setup, m, now, node);
    let at = Sidecar { session_date: window_of(setup, m, now), stage: Stage::IdlePnl, ..m };
    let noted = Sidecar { waiting_to_rearm: false, ..setup.noted(at, node.report) };
    let tripping = setup.trip(noted, bound, now, Cause::Trip);
    assert(setup.sampled(at, now, node.report) == tripping);
    lemma_trip_is_acted_on(setup, noted, now, node, bound, Cause::Trip);
    let there = has_tripped(setup, noted, now, bound);
    assert(there == has_tripped(setup, has_read(setup, m, now, node.report), now, bound));
    let next = setup.flat_wanted(there, now);
    assert(setup.exits_over(there, now, Cause::Trip) == next);
    let acting = state_request(setup, TradingState::Reducing) + exit_requests(setup, node, true);
    lemma_leads_on(setup, begun, now, node, pnl_request(setup), tripping, acting, next);
    lemma_looks_whether_flat(setup, there, now, node);
    let last = if nothing_open(setup, node) {
        setup.flat(there, now)
    } else {
        there
    };
    lemma_leads_on(
        setup,
        begun,
        now,
        node,
        pnl_request(setup) + acting,
        next,
        flat_requests(setup, node),
        last,
    );
    assert(pnl_request(setup) + acting + flat_requests(setup, node) =~= trip_requests(setup, node));
}

/// A check of an armed sidecar that finds PnL past a bound has trading reduced and exits asked for,
/// and looks whether anything is open. While something is, the sidecar is left flattening.
pub proof fn law_trip_check_flattens(
    setup: Setup,
    m: Sidecar,
    now: UnixNanos,
    node: Node,
    bound: TripBound,
)
    requires
        m.stage is Ready,
        m.state is Idle,
        !m.waiting_to_rearm,
        in_window(setup, m, now),
        setup.tripped(m, node.report) == Some(bound),
        !nothing_open(setup, node),
    ensures
        demands(setup, setup.begun(m, now), now, node) == trip_requests(setup, node),
        finished(setup, setup.begun(m, now), now, node) == has_tripped(
            setup,
            has_read(setup, m, now, node.report),
            now,
            bound,
        ),
{
    lemma_idle_trips(setup, m, now, node, bound);
    lemma_leads_to_the_end(
        setup,
        setup.begun(m, now),
        now,
        node,
        trip_requests(setup, node),
        has_tripped(setup, has_read(setup, m, now, node.report), now, bound),
    );
}

/// Where nothing is open, the same check halts where the flag of the bound is set, and where it is
/// not, makes trading active and waits for PnL to recover.
pub proof fn law_trip_check_ends(
    setup: Setup,
    m: Sidecar,
    now: UnixNanos,
    node: Node,
    bound: TripBound,
)
    requires
        m.stage is Ready,
        m.state is Idle,
        !m.waiting_to_rearm,
        in_window(setup, m, now),
        setup.tripped(m, node.report) == Some(bound),
        nothing_open(setup, node),
    ensures
        ({
            let there = has_tripped(setup, has_read(setup, m, now, node.report), now, bound);
            let asked = demands(setup, setup.begun(m, now), now, node);
            let done = finished(setup, setup.begun(m, now), now, node);
            if flag_of(setup, Some(bound)) {
                &&& asked == trip_requests(setup, node) + halt_requests(setup, node)
                &&& done == in_halt(setup, there, node)
            } else {
                &&& asked == trip_requests(setup, node) + state_request(setup, TradingState::Active)
                &&& done == let_go(there, true)
            }
        }),
{
    let begun = setup.begun(m, now);
    let there = has_tripped(setup, has_read(setup, m, now, node.report), now, bound);
    let next = setup.flat(there, now);
    lemma_idle_trips(setup, m, now, node, bound);
    lemma_halts_the_day(setup, there, now, node);
    lemma_lets_go(setup, there, now, node);
    let (after, done) = if flag_of(setup, Some(bound)) {
        (halt_requests(setup, node), in_halt(setup, there, node))
    } else {
        (state_request(setup, TradingState::Active), let_go(there, true))
    };
    let before = trip_requests(setup, node);
    lemma_leads_on(setup, begun, now, node, before, next, after, done);
    lemma_leads_to_the_end(setup, begun, now, node, before + after, done);
}

/// In the window of a halt a check asks for nothing.
pub proof fn law_halted_check_asks_for_nothing(setup: Setup, m: Sidecar, now: UnixNanos, node: Node)
    requires
        m.stage is Ready,
        m.state is Halted,
        in_window(setup, m, now),
    ensures
        demands(setup, setup.begun(m, now), now, node) == Seq::<Demand>::empty(),
        finished(setup, setup.begun(m, now), now, node) == (Sidecar {
            session_date: window_of(setup, m, now),
            ..m
        }),
{
}

/// A sidecar in a window that began with a report: the report's PnL is its anchor, and where that is
/// not known, an anchor is awaited.
pub open spec fn in_new_window(
    setup: Setup,
    m: Sidecar,
    now: UnixNanos,
    report: Option<Seq<(Seq<char>, Money)>>,
) -> Sidecar {
    Sidecar {
        session_date: Some(date_at(now)),
        day_anchor_pnl: setup.total(report),
        awaits_anchor: setup.total(report) is None,
        warned_missing_pnl: report is None,
        ..m
    }
}

/// What a check does in its window does not depend on the stage before it.
proof fn lemma_check_replaces_the_stage(setup: Setup, m: Sidecar, stage: Stage, now: UnixNanos)
    ensures
        setup.checked(Sidecar { stage, ..m }, now) == setup.checked(m, now),
{
    let other = Sidecar { stage, ..m };
    let timed = setup.timed_out(m, now);
    lemma_stage_is_replaced(setup, m, stage, now, Cause::Redrive);
    lemma_stage_is_replaced(setup, timed, stage, now, Cause::Redrive);
    if m.state is Flattening {
        let ids = setup.candidates(setup.config.managed);
        assert(setup.exits_of(other, now, Cause::Redrive, ids) == setup.exits_of(
            m,
            now,
            Cause::Redrive,
            ids,
        ));
        assert(setup.flattening(other, now) == setup.flattening(m, now));
    }
}

/// The first check of a new day reads the PnL that the day starts from. A flatten then goes on, and a
/// sidecar that watches goes on watching, as a check in the new window would have it.
pub proof fn law_new_day_check_goes_on(setup: Setup, m: Sidecar, now: UnixNanos, node: Node)
    requires
        m.stage is Ready,
        opens_window(setup, m, now),
        m.state is Flattening || (m.state is Idle && m.stopped_for_halt.len() == 0),
    ensures
        ({
            let next = setup.begun(in_new_window(setup, m, now, node.report), now);
            &&& demands(setup, setup.begun(m, now), now, node) == pnl_request(setup) + demands(
                setup,
                next,
                now,
                node,
            )
            &&& finished(setup, setup.begun(m, now), now, node) == finished(setup, next, now, node)
        }),
{
    let begun = setup.begun(m, now);
    lemma_leads_once(setup, begun, now, node);
    assert(seq![setup.demand(begun.stage)] == pnl_request(setup));
    let anchored = setup.anchored(begun, node.report);
    lemma_check_replaces_the_stage(
        setup,
        in_new_window(setup, m, now, node.report),
        anchored.stage,
        now,
    );
    assert(setup.answered(begun, now, node.reply(setup.demand(begun.stage))) == setup.begun(
        in_new_window(setup, m, now, node.report),
        now,
    ));
    reveal(leads);
}

/// A sidecar that starts anew, armed and with nothing to start.
pub open spec fn rearmed(m: Sidecar) -> Sidecar {
    Sidecar {
        state: UserPnLState::Idle,
        trip_bound: None,
        trip_date: None,
        waiting_to_rearm: false,
        stopped_for_halt: Seq::empty(),
        flatten_started: None,
        last_exit_request: None,
        flatten_timed_out: false,
        latched_halted: false,
        ..m
    }
}

/// What ends a halt: trading is made active where the sidecar had it halted, and the strategies that
/// were stopped are started.
pub open spec fn restart_requests(setup: Setup, m: Sidecar) -> Seq<Demand> {
    (if m.latched_halted {
        state_request(setup, TradingState::Active)
    } else {
        Seq::empty()
    }) + (if setup.attached && m.stopped_for_halt.len() > 0 {
        seq![Demand::StartStrategies(m.stopped_for_halt)]
    } else {
        Seq::empty()
    })
}

/// Starting the strategies that a halt stopped.
proof fn lemma_restarts(setup: Setup, m: Sidecar, now: UnixNanos, node: Node)
    requires
        m.state is Idle,
    ensures
        leads(
            setup,
            setup.restarted(m, now),
            now,
            node,
            if m.stopped_for_halt.len() > 0 {
                seq![Demand::StartStrategies(m.stopped_for_halt)]
            } else {
                Seq::empty()
            },
            Sidecar { stopped_for_halt: Seq::empty(), stage: Stage::IdlePnl, ..m },
        ),
{
    let at = setup.restarted(m, now);
    if m.stopped_for_halt.len() > 0 {
        lemma_leads_once(setup, at, now, node);
    } else {
        assert(m.stopped_for_halt =~= Seq::empty());
        lemma_leads_nowhere(setup, at, now, node);
    }
}

/// The first check of a new day ends a halt. It reads the PnL that the day starts from, has trading
/// made active where the sidecar had it halted, has those strategies started that the halt stopped,
/// and goes on as a check of an armed sidecar in the new window.
pub proof fn law_new_day_check_rearms(setup: Setup, m: Sidecar, now: UnixNanos, node: Node)
    requires
        m.stage is Ready,
        opens_window(setup, m, now),
        m.state is Halted || (m.state is Idle && m.stopped_for_halt.len() > 0),
    ensures
        ({
            let next = setup.begun(rearmed(in_new_window(setup, m, now, node.report)), now);
            &&& demands(setup, setup.begun(m, now), now, node) == pnl_request(setup)
                + restart_requests(setup, m) + demands(setup, next, now, node)
            &&& finished(setup, setup.begun(m, now), now, node) == finished(setup, next, now, node)
        }),
{
    let begun = setup.begun(m, now);
    let anchored = setup.anchored(begun, node.report);
    let at = setup.rolled(anchored, now);
    let next = setup.begun(rearmed(in_new_window(setup, m, now, node.report)), now);
    lemma_leads_once(setup, begun, now, node);
    assert(seq![setup.demand(begun.stage)] == pnl_request(setup));
    assert(setup.answered(begun, now, node.reply(setup.demand(begun.stage))) == at);
    let starting = Sidecar { stopped_for_halt: m.stopped_for_halt, ..rearmed(anchored) };
    let starts: Seq<Demand> = if m.stopped_for_halt.len() > 0 {
        seq![Demand::StartStrategies(m.stopped_for_halt)]
    } else {
        Seq::empty()
    };
    lemma_restarts(setup, starting, now, node);
    assert(next == (Sidecar { stopped_for_halt: Seq::empty(), stage: Stage::IdlePnl, ..starting }));
    if !setup.attached {
        assert(restart_requests(setup, m) =~= Seq::empty());
        assert(at == next);
        lemma_leads_nowhere(setup, at, now, node);
    } else if m.latched_halted {
        lemma_leads_once(setup, at, now, node);
        lemma_restarts(setup, at, now, node);
        let activated = setup.restarted(at, now);
        assert(setup.answered(at, now, node.reply(setup.demand(at.stage))) == activated);
        lemma_leads_on(
            setup,
            at,
            now,
            node,
            state_request(setup, TradingState::Active),
            activated,
            starts,
            next,
        );
    } else {
        assert(at == setup.restarted(starting, now));
        assert(restart_requests(setup, m) =~= starts);
    }
    lemma_leads_on(
        setup,
        begun,
        now,
        node,
        pnl_request(setup),
        at,
        restart_requests(setup, m),
        next,
    );
    reveal(leads);
}

/// A check that is already running is not started again.
pub proof fn law_running_check_goes_on(setup: Setup, m: Sidecar, now: UnixNanos)
    requires
        !(m.stage is Ready),
    ensures
        setup.begun(m, now) == m,
{
}

} // verus!
