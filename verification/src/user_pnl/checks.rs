//! What a whole check comes to on a node that holds still.

use vstd::prelude::*;

use crate::calendar::date_at;
use crate::fixed::{Money, UnixNanos};
use crate::user_pnl::inputs::{
    all_flat, picked, risk_flags, stop_flags, watched_pnl_of, OpenRisk, StopOutcome,
};
use crate::user_pnl::laws::{fits, law_every_check_ends, manages_none, replies_left};
use crate::user_pnl::model::{Answer, Cause, Demand, Setup, Sidecar, Stage, TradingState};

verus! {

/// A node that does not change while a check runs.
pub struct Node {
    /// The PnL in each currency, where it is known.
    pub report: Option<Seq<(Seq<char>, Money)>>,
    /// The registered strategies.
    pub registered: Seq<Seq<char>>,
    /// The open risk of the venue or account.
    pub venue_risk: OpenRisk,
    /// The open risk of each strategy.
    pub risk: spec_fn(Seq<char>) -> OpenRisk,
    /// What comes of asking each strategy to stop.
    pub stop: spec_fn(Seq<char>) -> StopOutcome,
}

impl Node {
    /// The reply to a request.
    pub open spec fn reply(self, demand: Demand) -> Answer {
        match demand {
            Demand::Nothing => Answer::Done,
            Demand::ReadPnl { .. } => Answer::Pnl(self.report),
            Demand::SetTradingState(_) => Answer::Done,
            Demand::ListStrategies => Answer::Strategies(self.registered),
            Demand::CountVenueRisk(_) => Answer::Risk(seq![self.venue_risk]),
            Demand::CountRisk { ids, .. } => Answer::Risk(ids.map_values(self.risk)),
            Demand::ExitStrategies { .. } => Answer::Done,
            Demand::StopStrategies(ids) => Answer::Stopped(ids.map_values(self.stop)),
            Demand::StartStrategies(_) => Answer::Done,
        }
    }
}

/// The sidecar after the node's reply to its request.
#[verifier::opaque]
pub open spec fn stepped(setup: Setup, m: Sidecar, now: UnixNanos, node: Node) -> Sidecar {
    setup.answered(m, now, node.reply(setup.demand(m.stage)))
}

/// What the node's reply leads to.
pub(crate) proof fn lemma_stepped(setup: Setup, m: Sidecar, now: UnixNanos, node: Node)
    ensures
        stepped(setup, m, now, node) == setup.answered(
            m,
            now,
            node.reply(setup.demand(m.stage)),
        ),
{
    reveal(stepped);
}

/// The node's reply brings a check nearer to its end.
proof fn lemma_step_comes_nearer(setup: Setup, m: Sidecar, now: UnixNanos, node: Node)
    requires
        !(m.stage is Ready),
    ensures
        replies_left(stepped(setup, m, now, node).stage) < replies_left(m.stage),
{
    let answer = node.reply(setup.demand(m.stage));
    assert(fits(m.stage, answer));
    law_every_check_ends(setup, m, now, answer);
    lemma_stepped(setup, m, now, node);
}

/// The sidecar at the end of a check.
pub open spec fn finished(setup: Setup, m: Sidecar, now: UnixNanos, node: Node) -> Sidecar
    decreases replies_left(m.stage),
    via finished_comes_nearer
{
    if m.stage is Ready {
        m
    } else {
        finished(setup, stepped(setup, m, now, node), now, node)
    }
}

#[via_fn]
proof fn finished_comes_nearer(setup: Setup, m: Sidecar, now: UnixNanos, node: Node) {
    if !(m.stage is Ready) {
        lemma_step_comes_nearer(setup, m, now, node);
    }
}

/// What the sidecar asks for in a check, in order.
pub open spec fn demands(setup: Setup, m: Sidecar, now: UnixNanos, node: Node) -> Seq<Demand>
    decreases replies_left(m.stage),
    via demands_come_nearer
{
    if m.stage is Ready {
        Seq::empty()
    } else {
        seq![setup.demand(m.stage)] + demands(setup, stepped(setup, m, now, node), now, node)
    }
}

#[via_fn]
proof fn demands_come_nearer(setup: Setup, m: Sidecar, now: UnixNanos, node: Node) {
    if !(m.stage is Ready) {
        lemma_step_comes_nearer(setup, m, now, node);
    }
}

/// The trading states that are set by requests, in order.
pub open spec fn published(demands: Seq<Demand>) -> Seq<TradingState>
    decreases demands.len(),
{
    if demands.len() == 0 {
        Seq::empty()
    } else {
        match demands[0] {
            Demand::SetTradingState(state) => seq![state] + published(demands.drop_first()),
            _ => published(demands.drop_first()),
        }
    }
}

/// One step of a check.
proof fn lemma_step(setup: Setup, m: Sidecar, now: UnixNanos, node: Node)
    requires
        !(m.stage is Ready),
    ensures
        ({
            let next = stepped(setup, m, now, node);
            let rest = published(demands(setup, next, now, node));
            &&& finished(setup, m, now, node) == finished(setup, next, now, node)
            &&& published(demands(setup, m, now, node)) == match setup.demand(m.stage) {
                Demand::SetTradingState(state) => seq![state] + rest,
                _ => rest,
            }
        }),
{
    let next = stepped(setup, m, now, node);
    let all = demands(setup, m, now, node);
    assert(all.drop_first() =~= demands(setup, next, now, node));
    assert(all[0] == setup.demand(m.stage));
}

/// A check always ends.
pub proof fn law_a_check_ends(setup: Setup, m: Sidecar, now: UnixNanos, node: Node)
    ensures
        finished(setup, m, now, node).stage is Ready,
    decreases replies_left(m.stage),
{
    if !(m.stage is Ready) {
        lemma_step_comes_nearer(setup, m, now, node);
        law_a_check_ends(setup, stepped(setup, m, now, node), now, node);
    }
}

/// Whether a check now is in the sidecar's daily window, or is the first one of the run.
pub open spec fn in_window(setup: Setup, m: Sidecar, now: UnixNanos) -> bool {
    !setup.config.reset_daily || m.session_date is None || m.session_date == Some(date_at(now))
}

/// Whether a check now is the first one of a new daily window.
pub open spec fn opens_window(setup: Setup, m: Sidecar, now: UnixNanos) -> bool {
    setup.config.reset_daily && m.session_date is Some && m.session_date != Some(date_at(now))
}

/// Whether a new day that starts at zero is inside the bounds, where its PnL is known at all.
pub open spec fn starts_inside(setup: Setup, node: Node) -> bool {
    setup.total(node.report) matches Some(total) ==> setup.config.inside(
        watched_pnl_of(total, true, Some(total)),
    )
}

/// A check of an armed sidecar whose PnL is unknown or inside the bounds asks for the PnL alone.
pub proof fn law_quiet_check(setup: Setup, m: Sidecar, now: UnixNanos, node: Node)
    requires
        m.stage is Ready,
        m.state is Idle,
        !m.waiting_to_rearm,
        in_window(setup, m, now),
        setup.tripped(m, node.report) is None,
    ensures
        ({
            let begun = setup.begun(m, now);
            let done = finished(setup, begun, now, node);
            &&& done.state is Idle
            &&& !done.waiting_to_rearm
            &&& published(demands(setup, begun, now, node)) == Seq::<TradingState>::empty()
        }),
{
    lemma_watches(setup, setup.begun(m, now), now, node);
}

/// The strategies that the sidecar handles on a node.
pub open spec fn handled(setup: Setup, node: Node) -> Seq<Seq<char>> {
    if setup.handles_all() {
        setup.candidates(node.registered)
    } else {
        setup.candidates(setup.config.managed)
    }
}

/// Whether nothing is open that the sidecar waits for: at the venue or account, or where there is a
/// list of managed strategies, with those.
pub open spec fn is_flat(setup: Setup, node: Node) -> bool {
    if setup.handles_all() {
        !node.venue_risk.present()
    } else {
        let ids = setup.candidates(setup.config.managed);
        forall|i: int| 0 <= i < ids.len() ==> !((node.risk)(#[trigger] ids[i])).present()
    }
}

/// Whether a flatten is on its way to the flat check.
spec fn flattens(setup: Setup, m: Sidecar) -> bool {
    &&& m.state is Flattening
    &&& match m.stage {
        Stage::TripReducing(cause) => !(cause is Retrip),
        Stage::ExitIds(cause) => !(cause is Retrip),
        Stage::ExitRisk(cause, _) => !(cause is Retrip),
        Stage::Exiting(cause, _) => !(cause is Retrip),
        Stage::FlatVenue => setup.handles_all(),
        Stage::FlatManaged(ids) => !setup.handles_all() && ids == setup.candidates(
            setup.config.managed,
        ),
        _ => false,
    }
}

/// Whether a flatten goes on with nothing of its trip changed.
spec fn goes_on(setup: Setup, m: Sidecar, next: Sidecar) -> bool {
    &&& flattens(setup, next)
    &&& !(next.stage is TripReducing)
    &&& next.trip_bound == m.trip_bound
    &&& next.trip_date == m.trip_date
    &&& next.day_anchor_pnl == m.day_anchor_pnl
    &&& next.awaits_anchor == m.awaits_anchor
    &&& next.stopped_for_halt == m.stopped_for_halt
}

/// After the exits a flatten comes to the flat check.
proof fn lemma_goes_on_after_exits(setup: Setup, m: Sidecar, now: UnixNanos, cause: Cause)
    requires
        m.state is Flattening,
        !(cause is Retrip),
        !manages_none(setup),
    ensures
        goes_on(setup, m, setup.exits_over(m, now, cause)),
        goes_on(setup, m, setup.exits_asked(m, now, cause)),
{
}

/// Asking for exits is part of a flatten.
proof fn lemma_goes_on_with_exits(
    setup: Setup,
    m: Sidecar,
    now: UnixNanos,
    cause: Cause,
    ids: Seq<Seq<char>>,
)
    requires
        m.state is Flattening,
        !(cause is Retrip),
        !manages_none(setup),
    ensures
        goes_on(setup, m, setup.exits_of(m, now, cause, ids)),
        goes_on(setup, m, setup.exits_among(m, now, cause, ids)),
{
    lemma_goes_on_after_exits(setup, m, now, cause);
}

/// Every step of a flatten leads on to the flat check.
proof fn lemma_flatten_goes_on(setup: Setup, m: Sidecar, now: UnixNanos, node: Node)
    requires
        flattens(setup, m),
        !manages_none(setup),
        !(m.stage is FlatVenue),
        !(m.stage is FlatManaged),
    ensures
        goes_on(setup, m, stepped(setup, m, now, node)),
{
    lemma_stepped(setup, m, now, node);
    match m.stage {
        Stage::TripReducing(cause) => {
            lemma_goes_on_with_exits(
                setup,
                m,
                now,
                cause,
                setup.candidates(setup.config.managed),
            );
        },
        Stage::ExitIds(cause) => {
            lemma_goes_on_with_exits(setup, m, now, cause, setup.candidates(node.registered));
        },
        Stage::ExitRisk(cause, ids) => {
            let flags = risk_flags(ids.map_values(node.risk));
            lemma_goes_on_with_exits(setup, m, now, cause, picked(ids, flags));
        },
        Stage::Exiting(cause, _) => {
            lemma_goes_on_after_exits(setup, m, now, cause);
        },
        _ => {},
    }
}

/// A flatten comes to the flat check without setting a trading state other than reducing.
proof fn lemma_comes_to_flat_check(setup: Setup, m: Sidecar, now: UnixNanos, node: Node) -> (at:
    Sidecar)
    requires
        flattens(setup, m),
        !manages_none(setup),
    ensures
        flattens(setup, at),
        at.stage is FlatVenue || at.stage is FlatManaged,
        at.trip_bound == m.trip_bound,
        at.trip_date == m.trip_date,
        at.day_anchor_pnl == m.day_anchor_pnl,
        at.awaits_anchor == m.awaits_anchor,
        at.stopped_for_halt == m.stopped_for_halt,
        finished(setup, m, now, node) == finished(setup, at, now, node),
        published(demands(setup, m, now, node)) == (if m.stage is TripReducing {
            seq![TradingState::Reducing]
        } else {
            Seq::empty()
        }) + published(demands(setup, at, now, node)),
    decreases replies_left(m.stage),
{
    if m.stage is FlatVenue || m.stage is FlatManaged {
        assert(Seq::<TradingState>::empty() + published(demands(setup, m, now, node))
            =~= published(demands(setup, m, now, node)));
        m
    } else {
        let next = stepped(setup, m, now, node);
        lemma_step_comes_nearer(setup, m, now, node);
        lemma_step(setup, m, now, node);
        lemma_flatten_goes_on(setup, m, now, node);
        let at = lemma_comes_to_flat_check(setup, next, now, node);
        assert(published(demands(setup, next, now, node)) =~= published(
            demands(setup, at, now, node),
        ));
        at
    }
}

/// The last request of a halt.
proof fn lemma_halts(setup: Setup, m: Sidecar, now: UnixNanos, node: Node)
    requires
        m.stage is HaltSet,
    ensures
        finished(setup, m, now, node) == (Sidecar { stage: Stage::Ready, ..m }),
        published(demands(setup, m, now, node)) == seq![TradingState::Halted],
{
    lemma_stepped(setup, m, now, node);
    lemma_step(setup, m, now, node);
    let done = stepped(setup, m, now, node);
    assert(done == (Sidecar { stage: Stage::Ready, ..m }));
    assert(demands(setup, done, now, node) =~= Seq::empty());
    assert(seq![TradingState::Halted] + Seq::<TradingState>::empty() =~= seq![
        TradingState::Halted,
    ]);
}

/// What stopping the strategies comes to.
spec fn ends_halted(
    setup: Setup,
    m: Sidecar,
    now: UnixNanos,
    node: Node,
    ids: Seq<Seq<char>>,
) -> bool {
    let done = finished(setup, m, now, node);
    &&& done.state is Halted
    &&& done.trip_bound == m.trip_bound
    &&& done.stopped_for_halt == picked(ids, stop_flags(ids.map_values(node.stop)))
    &&& published(demands(setup, m, now, node)) == seq![TradingState::Halted]
}

/// Strategies that are stopped, and then trading is halted.
proof fn lemma_stops(setup: Setup, m: Sidecar, now: UnixNanos, node: Node, ids: Seq<Seq<char>>)
    requires
        setup.attached,
        m.stopped_for_halt == Seq::<Seq<char>>::empty(),
    ensures
        ends_halted(setup, setup.stops_of(m, ids), now, node, ids),
{
    let next = setup.stops_of(m, ids);
    if ids.len() > 0 {
        let outcomes = ids.map_values(node.stop);
        lemma_step(setup, next, now, node);
        lemma_stepped(setup, next, now, node);
        let halting = stepped(setup, next, now, node);
        assert(halting.stopped_for_halt == picked(ids, stop_flags(outcomes)));
        assert(halting.stage is HaltSet);
        lemma_halts(setup, halting, now, node);
    } else {
        assert(picked(ids, stop_flags(ids.map_values(node.stop))) =~= Seq::<Seq<char>>::empty());
        lemma_halts(setup, next, now, node);
    }
}

/// Strategies that are looked up and stopped.
proof fn lemma_stops_wanted(setup: Setup, m: Sidecar, now: UnixNanos, node: Node)
    requires
        setup.attached,
    ensures
        ends_halted(setup, setup.stops_wanted(m), now, node, handled(setup, node)),
{
    let ids = handled(setup, node);
    let next = setup.stops_wanted(m);
    let cleared = Sidecar { stopped_for_halt: Seq::empty(), ..m };
    if setup.handles_all() {
        lemma_step(setup, next, now, node);
        lemma_stepped(setup, next, now, node);
        assert(stepped(setup, next, now, node) == setup.stops_of(next, ids));
        lemma_stops(setup, next, now, node, ids);
    } else {
        lemma_stops(setup, cleared, now, node, ids);
    }
}

/// Once nothing is open and the day halts, strategies are stopped and trading is halted.
proof fn lemma_ends_in_a_halt(setup: Setup, m: Sidecar, now: UnixNanos, node: Node)
    requires
        setup.attached,
        flattens(setup, m),
        m.stage is FlatVenue || m.stage is FlatManaged,
        is_flat(setup, node),
        setup.halts(m, now),
    ensures
        ends_halted(setup, m, now, node, handled(setup, node)),
{
    lemma_step(setup, m, now, node);
    lemma_flat_check_is_met(setup, m, now, node);
    assert(setup.flat(m, now) == setup.stops_wanted(m));
    lemma_stops_wanted(setup, m, now, node);
}

/// While something is open the flat check ends the check, and the flatten goes on.
proof fn lemma_ends_flattening(setup: Setup, m: Sidecar, now: UnixNanos, node: Node)
    requires
        flattens(setup, m),
        m.stage is FlatVenue || m.stage is FlatManaged,
        !is_flat(setup, node),
    ensures
        ({
            let done = finished(setup, m, now, node);
            &&& done.state is Flattening
            &&& done.trip_bound == m.trip_bound
            &&& done.trip_date == m.trip_date
            &&& published(demands(setup, m, now, node)) == Seq::<TradingState>::empty()
        }),
{
    lemma_stepped(setup, m, now, node);
    let answer = node.reply(setup.demand(m.stage));
    let risk = answer->Risk_0;
    if setup.handles_all() {
        assert(risk[0].present());
    } else {
        let ids = setup.candidates(setup.config.managed);
        let i = choose|i: int|
            0 <= i < ids.len() && ((node.risk)(#[trigger] ids[i])).present();
        assert(risk[i] == (node.risk)(ids[i]));
        assert(risk[i].present());
    }
    lemma_step(setup, m, now, node);
    let done = stepped(setup, m, now, node);
    assert(done.stage is Ready);
    assert(demands(setup, done, now, node) =~= Seq::empty());
}

/// A check of an armed sidecar that finds PnL past a bound trips it.
proof fn lemma_trips(setup: Setup, m: Sidecar, now: UnixNanos, node: Node) -> (at: Sidecar)
    requires
        setup.attached,
        m.stage is Ready,
        m.state is Idle,
        !m.waiting_to_rearm,
        in_window(setup, m, now),
        setup.tripped(m, node.report) is Some,
    ensures
        flattens(setup, at),
        at.stage is TripReducing,
        at.trip_bound == setup.tripped(m, node.report),
        at.trip_date == Some(date_at(now)),
        at.stopped_for_halt == m.stopped_for_halt,
        finished(setup, setup.begun(m, now), now, node) == finished(setup, at, now, node),
        published(demands(setup, setup.begun(m, now), now, node)) == published(
            demands(setup, at, now, node),
        ),
{
    let begun = setup.begun(m, now);
    lemma_step(setup, begun, now, node);
    lemma_stepped(setup, begun, now, node);
    stepped(setup, begun, now, node)
}

/// A report that nothing is open ends the flat check.
proof fn lemma_flat_check_is_met(setup: Setup, m: Sidecar, now: UnixNanos, node: Node)
    requires
        flattens(setup, m),
        m.stage is FlatVenue || m.stage is FlatManaged,
        is_flat(setup, node),
    ensures
        stepped(setup, m, now, node) == setup.flat(m, now),
{
    lemma_stepped(setup, m, now, node);
    assert(all_flat(node.reply(setup.demand(m.stage))->Risk_0));
}

/// Where an armed sidecar finds PnL past a bound that halts the day, and nothing is open, one check
/// has trading reduced, the strategies stopped and trading halted. It remembers those that were
/// stopped.
pub proof fn law_breach_with_flat_books_halts(setup: Setup, m: Sidecar, now: UnixNanos, node: Node)
    requires
        setup.attached,
        !manages_none(setup),
        m.stage is Ready,
        m.state is Idle,
        !m.waiting_to_rearm,
        in_window(setup, m, now),
        setup.tripped(m, node.report) is Some,
        setup.config.halts_on(setup.tripped(m, node.report)->0),
        is_flat(setup, node),
    ensures
        ({
            let begun = setup.begun(m, now);
            let done = finished(setup, begun, now, node);
            let ids = handled(setup, node);
            &&& done.state is Halted
            &&& done.trip_bound == setup.tripped(m, node.report)
            &&& done.stopped_for_halt == picked(ids, stop_flags(ids.map_values(node.stop)))
            &&& published(demands(setup, begun, now, node)) == seq![
                TradingState::Reducing,
                TradingState::Halted,
            ]
        }),
{
    let tripped = lemma_trips(setup, m, now, node);
    let at = lemma_comes_to_flat_check(setup, tripped, now, node);
    lemma_ends_in_a_halt(setup, at, now, node);
    assert(seq![TradingState::Reducing] + seq![TradingState::Halted] =~= seq![
        TradingState::Reducing,
        TradingState::Halted,
    ]);
}

/// Where something is open, the same check has trading reduced and leaves the sidecar flattening.
pub proof fn law_breach_with_open_books_flattens(
    setup: Setup,
    m: Sidecar,
    now: UnixNanos,
    node: Node,
)
    requires
        setup.attached,
        !manages_none(setup),
        m.stage is Ready,
        m.state is Idle,
        !m.waiting_to_rearm,
        in_window(setup, m, now),
        setup.tripped(m, node.report) is Some,
        !is_flat(setup, node),
    ensures
        ({
            let begun = setup.begun(m, now);
            let done = finished(setup, begun, now, node);
            &&& done.state is Flattening
            &&& done.trip_bound == setup.tripped(m, node.report)
            &&& done.trip_date == Some(date_at(now))
            &&& published(demands(setup, begun, now, node)) == seq![TradingState::Reducing]
        }),
{
    let tripped = lemma_trips(setup, m, now, node);
    let at = lemma_comes_to_flat_check(setup, tripped, now, node);
    lemma_ends_flattening(setup, at, now, node);
    assert(seq![TradingState::Reducing] + Seq::<TradingState>::empty() =~= seq![
        TradingState::Reducing,
    ]);
}

/// While something is open, every later check leaves the sidecar flattening and sets no trading
/// state, however long that takes and whether or not the day has changed.
pub proof fn law_open_books_keep_flattening(setup: Setup, m: Sidecar, now: UnixNanos, node: Node)
    requires
        setup.attached,
        !manages_none(setup),
        m.stage is Ready,
        m.state is Flattening,
        !is_flat(setup, node),
    ensures
        ({
            let begun = setup.begun(m, now);
            let done = finished(setup, begun, now, node);
            &&& done.state is Flattening
            &&& done.trip_bound == m.trip_bound
            &&& done.trip_date == m.trip_date
            &&& published(demands(setup, begun, now, node)) == Seq::<TradingState>::empty()
        }),
{
    let begun = setup.begun(m, now);
    let checked = if begun.stage is RollPnl {
        lemma_step(setup, begun, now, node);
        lemma_stepped(setup, begun, now, node);
        stepped(setup, begun, now, node)
    } else {
        begun
    };
    assert(flattens(setup, checked) && !(checked.stage is TripReducing));
    let at = lemma_comes_to_flat_check(setup, checked, now, node);
    lemma_ends_flattening(setup, at, now, node);
    assert(Seq::<TradingState>::empty() + Seq::<TradingState>::empty() =~= Seq::empty());
}

/// Once nothing is open any more on the day of the trip, a check has the strategies stopped and
/// trading halted, where the bound halts the day.
pub proof fn law_flat_books_end_a_flatten(setup: Setup, m: Sidecar, now: UnixNanos, node: Node)
    requires
        setup.attached,
        !manages_none(setup),
        m.stage is Ready,
        m.state is Flattening,
        in_window(setup, m, now),
        setup.halts(m, now),
        is_flat(setup, node),
    ensures
        ({
            let begun = setup.begun(m, now);
            let done = finished(setup, begun, now, node);
            let ids = handled(setup, node);
            &&& done.state is Halted
            &&& done.stopped_for_halt == picked(ids, stop_flags(ids.map_values(node.stop)))
            &&& published(demands(setup, begun, now, node)) == seq![TradingState::Halted]
        }),
{
    let begun = setup.begun(m, now);
    lemma_begins_flattening(setup, m, now);
    let at = lemma_comes_to_flat_check(setup, begun, now, node);
    lemma_ends_in_a_halt(setup, at, now, node);
    assert(Seq::<TradingState>::empty() + seq![TradingState::Halted] =~= seq![
        TradingState::Halted,
    ]);
}

/// A check of a flatten starts on its way to the flat check.
proof fn lemma_begins_flattening(setup: Setup, m: Sidecar, now: UnixNanos)
    requires
        setup.attached,
        !manages_none(setup),
        m.stage is Ready,
        m.state is Flattening,
        in_window(setup, m, now),
    ensures
        flattens(setup, setup.begun(m, now)),
        !(setup.begun(m, now).stage is TripReducing),
        setup.begun(m, now).trip_bound == m.trip_bound,
        setup.begun(m, now).trip_date == m.trip_date,
        setup.begun(m, now).day_anchor_pnl == m.day_anchor_pnl,
        setup.begun(m, now).awaits_anchor == m.awaits_anchor,
{
}

/// A flatten that ends on a later day than that of its trip comes to look at the new day's PnL.
proof fn lemma_comes_to_resampling(setup: Setup, m: Sidecar, now: UnixNanos, node: Node) -> (at:
    Sidecar)
    requires
        !manages_none(setup),
        flattens(setup, m),
        !(m.stage is TripReducing),
        setup.config.reset_daily,
        m.trip_date != Some(date_at(now)),
        is_flat(setup, node),
    ensures
        at.stage is RetripPnl,
        at.state is Flattening,
        at.trip_date == m.trip_date,
        at.day_anchor_pnl == m.day_anchor_pnl,
        at.awaits_anchor == m.awaits_anchor,
        finished(setup, m, now, node) == finished(setup, at, now, node),
        published(demands(setup, m, now, node)) == published(demands(setup, at, now, node)),
{
    let flat = lemma_comes_to_flat_check(setup, m, now, node);
    lemma_step(setup, flat, now, node);
    lemma_flat_check_is_met(setup, flat, now, node);
    let at = stepped(setup, flat, now, node);
    assert(at == (Sidecar { stage: Stage::RetripPnl, ..flat }));
    assert(Seq::<TradingState>::empty() + published(demands(setup, flat, now, node)) =~= published(
        demands(setup, at, now, node),
    ));
    at
}

/// The first check of a new day anchors the day and goes on with the flatten.
proof fn lemma_rolls_while_flattening(setup: Setup, m: Sidecar, now: UnixNanos, node: Node) -> (at:
    Sidecar)
    requires
        setup.attached,
        !manages_none(setup),
        m.stage is Ready,
        m.state is Flattening,
        opens_window(setup, m, now),
    ensures
        flattens(setup, at),
        !(at.stage is TripReducing),
        at.trip_date == m.trip_date,
        at.day_anchor_pnl == setup.total(node.report),
        at.awaits_anchor == (setup.total(node.report) is None),
        finished(setup, setup.begun(m, now), now, node) == finished(setup, at, now, node),
        published(demands(setup, setup.begun(m, now), now, node)) == published(
            demands(setup, at, now, node),
        ),
{
    let begun = setup.begun(m, now);
    lemma_step(setup, begun, now, node);
    lemma_stepped(setup, begun, now, node);
    stepped(setup, begun, now, node)
}

/// The last request of a release.
proof fn lemma_releases(setup: Setup, m: Sidecar, now: UnixNanos, node: Node)
    requires
        m.stage is ReleaseSet,
    ensures
        finished(setup, m, now, node) == (Sidecar { stage: Stage::Ready, ..m }),
        published(demands(setup, m, now, node)) == seq![TradingState::Active],
{
    lemma_stepped(setup, m, now, node);
    lemma_step(setup, m, now, node);
    let done = stepped(setup, m, now, node);
    assert(done == (Sidecar { stage: Stage::Ready, ..m }));
    assert(demands(setup, done, now, node) =~= Seq::empty());
    assert(seq![TradingState::Active] + Seq::<TradingState>::empty() =~= seq![
        TradingState::Active,
    ]);
}

/// A new day whose PnL is unknown or inside the bounds is released.
proof fn lemma_resampling_releases(setup: Setup, m: Sidecar, now: UnixNanos, node: Node)
    requires
        setup.attached,
        setup.config.reset_daily,
        m.stage is RetripPnl,
        m.trip_date != Some(date_at(now)),
        setup.tripped(m, node.report) is None,
    ensures
        finished(setup, m, now, node).state is Idle,
        !finished(setup, m, now, node).waiting_to_rearm,
        published(demands(setup, m, now, node)) == seq![TradingState::Active],
{
    lemma_step(setup, m, now, node);
    lemma_stepped(setup, m, now, node);
    let releasing = stepped(setup, m, now, node);
    assert(releasing == setup.released(setup.noted(m, node.report), now));
    lemma_releases(setup, releasing, now, node);
}

/// Once nothing is open any more on a later day than that of the trip, a check makes trading active
/// and leaves the sidecar armed, where the new day's PnL is unknown or inside the bounds.
pub proof fn law_flat_books_on_a_new_day_release(
    setup: Setup,
    m: Sidecar,
    now: UnixNanos,
    node: Node,
)
    requires
        setup.attached,
        !manages_none(setup),
        m.stage is Ready,
        m.state is Flattening,
        setup.config.reset_daily,
        m.session_date == Some(date_at(now)),
        m.trip_date != Some(date_at(now)),
        is_flat(setup, node),
        setup.tripped(m, node.report) is None,
    ensures
        ({
            let begun = setup.begun(m, now);
            let done = finished(setup, begun, now, node);
            &&& done.state is Idle
            &&& !done.waiting_to_rearm
            &&& published(demands(setup, begun, now, node)) == seq![TradingState::Active]
        }),
{
    lemma_begins_flattening(setup, m, now);
    let at = lemma_comes_to_resampling(setup, setup.begun(m, now), now, node);
    assert(setup.tripped(at, node.report) == setup.tripped(m, node.report));
    lemma_resampling_releases(setup, at, now, node);
}

/// Where the bound does not halt the day, a check that finds PnL past it and nothing open has
/// trading reduced and made active again. The sidecar then waits for PnL to recover.
pub proof fn law_breach_without_halt_releases(setup: Setup, m: Sidecar, now: UnixNanos, node: Node)
    requires
        setup.attached,
        !manages_none(setup),
        m.stage is Ready,
        m.state is Idle,
        !m.waiting_to_rearm,
        in_window(setup, m, now),
        setup.tripped(m, node.report) is Some,
        !setup.config.halts_on(setup.tripped(m, node.report)->0),
        is_flat(setup, node),
    ensures
        ({
            let begun = setup.begun(m, now);
            let done = finished(setup, begun, now, node);
            &&& done.state is Idle
            &&& done.waiting_to_rearm
            &&& done.stopped_for_halt == m.stopped_for_halt
            &&& published(demands(setup, begun, now, node)) == seq![
                TradingState::Reducing,
                TradingState::Active,
            ]
        }),
{
    let tripped = lemma_trips(setup, m, now, node);
    let flat = lemma_comes_to_flat_check(setup, tripped, now, node);
    lemma_step(setup, flat, now, node);
    lemma_flat_check_is_met(setup, flat, now, node);
    let releasing = setup.released(flat, now);
    assert(setup.flat(flat, now) == releasing);
    lemma_releases(setup, releasing, now, node);
    assert(seq![TradingState::Reducing] + seq![TradingState::Active] =~= seq![
        TradingState::Reducing,
        TradingState::Active,
    ]);
}

/// Whether a trip of a new day, on which an old flatten ended, is being settled.
spec fn settles(m: Sidecar) -> bool {
    &&& m.state is Flattening
    &&& match m.stage {
        Stage::TripReducing(cause) => cause is Retrip,
        Stage::ExitIds(cause) => cause is Retrip,
        Stage::ExitRisk(cause, _) => cause is Retrip,
        Stage::Exiting(cause, _) => cause is Retrip,
        _ => false,
    }
}

/// Such a trip ends in a halt where its bound halts the day.
proof fn lemma_settles_in_a_halt(setup: Setup, m: Sidecar, now: UnixNanos, node: Node)
    requires
        setup.attached,
        settles(m),
        setup.halts(m, now),
    ensures
        finished(setup, m, now, node).state is Halted,
        published(demands(setup, m, now, node)) == (if m.stage is TripReducing {
            seq![TradingState::Reducing]
        } else {
            Seq::empty()
        }) + seq![TradingState::Halted],
    decreases replies_left(m.stage),
{
    lemma_stepped(setup, m, now, node);
    let next = stepped(setup, m, now, node);
    assert(fits(m.stage, node.reply(setup.demand(m.stage))));
    lemma_step_comes_nearer(setup, m, now, node);
    lemma_step(setup, m, now, node);
    let asked = Sidecar { last_exit_request: Some(now), ..m };
    assert(Seq::<TradingState>::empty() + seq![TradingState::Halted] =~= seq![
        TradingState::Halted,
    ]);
    if settles(next) {
        assert(!(next.stage is TripReducing));
        assert(setup.halts(next, now));
        lemma_settles_in_a_halt(setup, next, now, node);
    } else {
        assert(setup.halts(asked, now));
        assert(next == setup.stops_wanted(asked));
        lemma_stops_wanted(setup, asked, now, node);
    }
}

/// A new day past a bound that halts it is halted.
proof fn lemma_resampling_halts(setup: Setup, m: Sidecar, now: UnixNanos, node: Node)
    requires
        setup.attached,
        m.stage is RetripPnl,
        setup.tripped(m, node.report) is Some,
        setup.config.halts_on(setup.tripped(m, node.report)->0),
    ensures
        finished(setup, m, now, node).state is Halted,
        published(demands(setup, m, now, node)) == seq![
            TradingState::Reducing,
            TradingState::Halted,
        ],
{
    lemma_step(setup, m, now, node);
    lemma_stepped(setup, m, now, node);
    let tripped = stepped(setup, m, now, node);
    assert(settles(tripped) && tripped.stage is TripReducing && setup.halts(tripped, now));
    lemma_settles_in_a_halt(setup, tripped, now, node);
    assert(seq![TradingState::Reducing] + seq![TradingState::Halted] =~= seq![
        TradingState::Reducing,
        TradingState::Halted,
    ]);
}

/// Where the new day is already past a bound that halts it, the same check has trading reduced and
/// then halted. It does not make trading active.
pub proof fn law_breached_new_day_publishes_no_active(
    setup: Setup,
    m: Sidecar,
    now: UnixNanos,
    node: Node,
)
    requires
        setup.attached,
        !manages_none(setup),
        m.stage is Ready,
        m.state is Flattening,
        setup.config.reset_daily,
        m.session_date == Some(date_at(now)),
        m.trip_date != Some(date_at(now)),
        is_flat(setup, node),
        setup.tripped(m, node.report) is Some,
        setup.config.halts_on(setup.tripped(m, node.report)->0),
    ensures
        ({
            let begun = setup.begun(m, now);
            &&& finished(setup, begun, now, node).state is Halted
            &&& published(demands(setup, begun, now, node)) == seq![
                TradingState::Reducing,
                TradingState::Halted,
            ]
        }),
{
    lemma_begins_flattening(setup, m, now);
    let at = lemma_comes_to_resampling(setup, setup.begun(m, now), now, node);
    assert(setup.tripped(at, node.report) == setup.tripped(m, node.report));
    lemma_resampling_halts(setup, at, now, node);
}

/// Where the first check of a new day finds nothing open any more, it makes trading active and
/// leaves the sidecar armed: the new day starts at zero, and the trip does not carry over.
pub proof fn law_first_check_of_a_new_day_releases(
    setup: Setup,
    m: Sidecar,
    now: UnixNanos,
    node: Node,
)
    requires
        setup.attached,
        !manages_none(setup),
        m.stage is Ready,
        m.state is Flattening,
        opens_window(setup, m, now),
        m.trip_date != Some(date_at(now)),
        is_flat(setup, node),
        starts_inside(setup, node),
    ensures
        ({
            let begun = setup.begun(m, now);
            let done = finished(setup, begun, now, node);
            &&& done.state is Idle
            &&& !done.waiting_to_rearm
            &&& published(demands(setup, begun, now, node)) == seq![TradingState::Active]
        }),
{
    let rolled = lemma_rolls_while_flattening(setup, m, now, node);
    let at = lemma_comes_to_resampling(setup, rolled, now, node);
    assert(setup.tripped(at, node.report) is None);
    lemma_resampling_releases(setup, at, now, node);
}

/// Where a day at zero is past a bound that halts it, which only a bound of zero can be, that check
/// has trading reduced and then halted.
pub proof fn law_first_check_of_a_breached_new_day_halts(
    setup: Setup,
    m: Sidecar,
    now: UnixNanos,
    node: Node,
    total: Money,
)
    requires
        setup.attached,
        !manages_none(setup),
        m.stage is Ready,
        m.state is Flattening,
        opens_window(setup, m, now),
        m.trip_date != Some(date_at(now)),
        is_flat(setup, node),
        setup.total(node.report) == Some(total),
        setup.config.tripped(watched_pnl_of(total, true, Some(total))) matches Some(bound)
            && setup.config.halts_on(bound),
    ensures
        ({
            let begun = setup.begun(m, now);
            &&& finished(setup, begun, now, node).state is Halted
            &&& published(demands(setup, begun, now, node)) == seq![
                TradingState::Reducing,
                TradingState::Halted,
            ]
        }),
{
    let rolled = lemma_rolls_while_flattening(setup, m, now, node);
    let at = lemma_comes_to_resampling(setup, rolled, now, node);
    assert(setup.tripped(at, node.report) == setup.config.tripped(
        watched_pnl_of(total, true, Some(total)),
    ));
    lemma_resampling_halts(setup, at, now, node);
}

/// A watching sidecar that finds no bound tripped ends the check.
proof fn lemma_watches(setup: Setup, m: Sidecar, now: UnixNanos, node: Node)
    requires
        m.stage is IdlePnl,
        m.state is Idle,
        !m.waiting_to_rearm,
        setup.tripped(m, node.report) is None,
    ensures
        finished(setup, m, now, node) == (Sidecar {
            stage: Stage::Ready,
            ..setup.noted(m, node.report)
        }),
        published(demands(setup, m, now, node)) == Seq::<TradingState>::empty(),
{
    lemma_step(setup, m, now, node);
    lemma_stepped(setup, m, now, node);
    let done = stepped(setup, m, now, node);
    assert(done == (Sidecar { stage: Stage::Ready, ..setup.noted(m, node.report) }));
    assert(demands(setup, done, now, node) =~= Seq::empty());
}

/// The first check of a new day on which the sidecar watches sets no trading state.
pub proof fn law_first_check_of_a_day_is_quiet(setup: Setup, m: Sidecar, now: UnixNanos, node: Node)
    requires
        setup.sound(m),
        m.stage is Ready,
        m.state is Idle,
        !m.waiting_to_rearm,
        opens_window(setup, m, now),
        starts_inside(setup, node),
    ensures
        ({
            let begun = setup.begun(m, now);
            let done = finished(setup, begun, now, node);
            &&& done.state is Idle
            &&& !done.waiting_to_rearm
            &&& done.day_anchor_pnl == setup.total(node.report)
            &&& published(demands(setup, begun, now, node)) == Seq::<TradingState>::empty()
        }),
{
    let begun = setup.begun(m, now);
    lemma_step(setup, begun, now, node);
    lemma_stepped(setup, begun, now, node);
    let watching = stepped(setup, begun, now, node);
    assert(watching.stage is IdlePnl);
    assert(setup.tripped(watching, node.report) is None);
    lemma_watches(setup, watching, now, node);
}

/// The first check on a new day ends a halt: trading is made active, the strategies that the halt
/// stopped are started, and the sidecar watches the new day, which starts at zero.
pub proof fn law_new_day_check_ends_a_halt(setup: Setup, m: Sidecar, now: UnixNanos, node: Node)
    requires
        setup.sound(m),
        setup.attached,
        m.stage is Ready,
        m.state is Halted,
        opens_window(setup, m, now),
        starts_inside(setup, node),
    ensures
        ({
            let begun = setup.begun(m, now);
            let done = finished(setup, begun, now, node);
            &&& done.state is Idle
            &&& done.day_anchor_pnl == setup.total(node.report)
            &&& done.stopped_for_halt.len() == 0
            &&& published(demands(setup, begun, now, node)) == seq![TradingState::Active]
            &&& m.stopped_for_halt.len() > 0 ==> demands(setup, begun, now, node).contains(
                Demand::StartStrategies(m.stopped_for_halt),
            )
        }),
{
    let begun = setup.begun(m, now);
    lemma_step(setup, begun, now, node);
    lemma_stepped(setup, begun, now, node);
    let activating = stepped(setup, begun, now, node);
    assert(activating.stage is RearmActive);
    lemma_step(setup, activating, now, node);
    lemma_stepped(setup, activating, now, node);
    let starting = stepped(setup, activating, now, node);
    let watching = if starting.stage is RearmStart {
        lemma_step(setup, starting, now, node);
        lemma_stepped(setup, starting, now, node);
        stepped(setup, starting, now, node)
    } else {
        starting
    };
    assert(watching.stage is IdlePnl && watching.state is Idle && !watching.waiting_to_rearm);
    assert(watching.day_anchor_pnl == setup.total(node.report));
    lemma_watches(setup, watching, now, node);
    assert(seq![TradingState::Active] + Seq::<TradingState>::empty() =~= seq![
        TradingState::Active,
    ]);
    if m.stopped_for_halt.len() > 0 {
        let rest = demands(setup, starting, now, node);
        let all = demands(setup, begun, now, node);
        assert(rest[0] == Demand::StartStrategies(m.stopped_for_halt));
        assert(demands(setup, activating, now, node)[1] == rest[0]);
        assert(all[2] == rest[0]);
    }
}

} // verus!
