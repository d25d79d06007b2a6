//! What the sidecar promises.

use vstd::prelude::*;

use crate::calendar::date_at;
use crate::decimal::{law_difference_is_exact, pow10, DecimalView};
use crate::fixed::{Money, UnixNanos};
use crate::user_pnl::config::ConfigView;
use crate::user_pnl::inputs::{
    all_flat, money_decimal, picked, risk_flags, stop_flags, watched_pnl_of, OpenRisk, StopOutcome,
};
use crate::user_pnl::model::{
    elapsed_ms, fresh, reset, Answer, Cause, Demand, Setup, Sidecar, Stage, TradingState,
    TripBound, UserPnLState,
};

verus! {

// Bounds.

/// Where a PnL is past both bounds, the loss bound trips.
pub proof fn law_loss_bound_comes_first(config: ConfigView, pnl: DecimalView)
    requires
        config.max_loss is Some,
        pnl.at_most(config.max_loss->0),
    ensures
        config.tripped(pnl) == Some(TripBound::MaxLoss),
{
}

/// A PnL is inside the bounds exactly where it trips neither of them.
pub proof fn law_inside_trips_nothing(config: ConfigView, pnl: DecimalView)
    ensures
        config.inside(pnl) <==> config.tripped(pnl) is None,
{
}

/// A bound trips exactly where it is reached: the loss bound from above, the profit bound from
/// below unless the loss bound is reached too.
pub proof fn law_bounds_are_inclusive(config: ConfigView, pnl: DecimalView)
    ensures
        config.tripped(pnl) == Some(TripBound::MaxLoss) <==> config.max_loss is Some
            && pnl.at_most(config.max_loss->0),
        config.tripped(pnl) == Some(TripBound::MaxProfit) <==> config.max_profit is Some
            && config.max_profit->0.at_most(pnl) && !(config.max_loss is Some && pnl.at_most(
            config.max_loss->0,
        )),
{
}

/// A configuration is valid exactly where nothing is wrong with it.
pub proof fn law_valid_means_no_fault(config: ConfigView)
    ensures
        config.valid() <==> config.fault() is None,
{
}

// The daily window.

/// Today's PnL is the session's PnL less the anchor of the day, exactly.
pub proof fn law_todays_pnl_is_exact(total: Money, anchor: Money)
    ensures
        ({
            let today = watched_pnl_of(total, true, Some(anchor));
            let left = money_decimal(total);
            let right = money_decimal(anchor);
            today.mantissa * (pow10(left.scale) * pow10(right.scale)) == (left.mantissa * pow10(
                right.scale,
            ) - right.mantissa * pow10(left.scale)) * pow10(today.scale)
        }),
{
    law_difference_is_exact(money_decimal(total), money_decimal(anchor));
}

/// The first day of a run has no anchor and awaits none: its PnL is the session's PnL.
pub proof fn law_first_day_counts_from_zero(setup: Setup, now: UnixNanos, total: Money)
    ensures
        ({
            let first = setup.begun(fresh(), now);
            let today = setup.watched(first, total);
            let session = money_decimal(total);
            &&& first.day_anchor_pnl is None
            &&& !first.awaits_anchor
            &&& today.mantissa == session.mantissa
            &&& session.mantissa != 0 ==> today == session
        }),
{
}

/// On every later day today's PnL starts at zero: the day is counted from the PnL at its beginning,
/// or where that is not known, from the first PnL that is.
pub proof fn law_new_day_starts_at_zero(
    setup: Setup,
    m: Sidecar,
    now: UnixNanos,
    report: Option<Seq<(Seq<char>, Money)>>,
)
    requires
        setup.config.reset_daily,
        m.stage is RollPnl,
    ensures
        ({
            let next = setup.answered(m, now, Answer::Pnl(report));
            match setup.total(report) {
                Some(total) => {
                    &&& next.day_anchor_pnl == Some(total)
                    &&& !next.awaits_anchor
                    &&& setup.watched(next, total).mantissa == 0
                },
                None => {
                    &&& next.awaits_anchor
                    &&& forall|total: Money| (#[trigger] setup.watched(next, total)).mantissa == 0
                },
            }
        }),
{
}

/// The first PnL that is known on a day that awaits its anchor is the anchor.
pub proof fn law_first_known_pnl_is_the_anchor(
    setup: Setup,
    m: Sidecar,
    now: UnixNanos,
    report: Option<Seq<(Seq<char>, Money)>>,
)
    requires
        m.stage is IdlePnl || m.stage is RetripPnl,
        m.awaits_anchor,
        setup.total(report) is Some,
    ensures
        setup.answered(m, now, Answer::Pnl(report)).day_anchor_pnl == setup.total(report),
        !setup.answered(m, now, Answer::Pnl(report)).awaits_anchor,
{
}

/// Whether both count the day from the same PnL.
pub open spec fn same_anchor(m: Sidecar, next: Sidecar) -> bool {
    next.day_anchor_pnl == m.day_anchor_pnl && next.awaits_anchor == m.awaits_anchor
}

/// The end of a flatten keeps the anchor.
proof fn lemma_flat_keeps_anchor(setup: Setup, m: Sidecar, now: UnixNanos, ids: Seq<Seq<char>>)
    ensures
        same_anchor(m, setup.flat(m, now)),
        same_anchor(m, setup.settled(m, now)),
        same_anchor(m, setup.released(m, now)),
        same_anchor(m, setup.halted(m)),
        same_anchor(m, setup.stops_of(m, ids)),
{
}

/// Exits keep the anchor.
proof fn lemma_exits_keep_anchor(
    setup: Setup,
    m: Sidecar,
    now: UnixNanos,
    cause: Cause,
    ids: Seq<Seq<char>>,
)
    ensures
        same_anchor(m, setup.exits_over(m, now, cause)),
        same_anchor(m, setup.exits_asked(m, now, cause)),
        same_anchor(m, setup.exits_of(m, now, cause, ids)),
        same_anchor(m, setup.exits_among(m, now, cause, ids)),
{
    let asked = Sidecar { last_exit_request: Some(now), ..m };
    lemma_flat_keeps_anchor(setup, m, now, ids);
    lemma_flat_keeps_anchor(setup, asked, now, ids);
    lemma_flat_keeps_anchor(setup, setup.timed_out(m, now), now, ids);
    lemma_flat_keeps_anchor(setup, setup.timed_out(asked, now), now, ids);
}

/// Going on with a check keeps the anchor.
proof fn lemma_check_keeps_anchor(setup: Setup, m: Sidecar, now: UnixNanos)
    ensures
        same_anchor(m, setup.checked(m, now)),
{
    let ids = setup.candidates(setup.config.managed);
    lemma_exits_keep_anchor(setup, m, now, Cause::Redrive, ids);
}

/// A trip keeps the anchor.
proof fn lemma_trip_keeps_anchor(
    setup: Setup,
    m: Sidecar,
    bound: TripBound,
    now: UnixNanos,
    cause: Cause,
)
    ensures
        same_anchor(m, setup.trip(m, bound, now, cause)),
{
    let tripped = Sidecar {
        state: UserPnLState::Flattening,
        trip_bound: Some(bound),
        trip_date: Some(date_at(now)),
        waiting_to_rearm: false,
        flatten_started: Some(now),
        flatten_timed_out: false,
        ..m
    };
    lemma_exits_keep_anchor(setup, tripped, now, cause, Seq::empty());
}

/// A report keeps the anchor of a day that has one.
proof fn lemma_report_keeps_anchor(
    setup: Setup,
    m: Sidecar,
    now: UnixNanos,
    report: Option<Seq<(Seq<char>, Money)>>,
)
    requires
        !m.awaits_anchor,
    ensures
        same_anchor(m, setup.sampled(m, now, report)),
        same_anchor(m, setup.resampled(m, now, report)),
{
    let noted = setup.noted(m, report);
    lemma_flat_keeps_anchor(setup, noted, now, Seq::empty());
    if let Some(bound) = setup.tripped(m, report) {
        let armed = Sidecar { waiting_to_rearm: false, ..noted };
        lemma_trip_keeps_anchor(setup, armed, bound, now, Cause::Trip);
        lemma_trip_keeps_anchor(setup, noted, bound, now, Cause::Retrip);
    }
}

/// An anchor lasts for its day: neither the start of a check nor a reply changes it before the next
/// day begins.
pub proof fn law_anchor_lasts_for_the_day(
    setup: Setup,
    m: Sidecar,
    now: UnixNanos,
    answer: Answer,
)
    requires
        !m.awaits_anchor,
    ensures
        same_anchor(m, setup.begun(m, now)),
        !(m.stage is RollPnl) ==> same_anchor(m, setup.answered(m, now, answer)),
{
    let managed = setup.candidates(setup.config.managed);
    lemma_check_keeps_anchor(setup, m, now);
    lemma_check_keeps_anchor(
        setup,
        Sidecar { session_date: Some(date_at(now)), ..m },
        now,
    );
    match (m.stage, answer) {
        (_, Answer::Pnl(report)) => {
            lemma_report_keeps_anchor(setup, m, now, report);
        },
        (Stage::TripReducing(cause), _) => {
            lemma_exits_keep_anchor(setup, m, now, cause, managed);
        },
        (Stage::ExitIds(cause), Answer::Strategies(source)) => {
            lemma_exits_keep_anchor(setup, m, now, cause, setup.candidates(source));
        },
        (Stage::ExitRisk(cause, ids), Answer::Risk(risk)) => {
            lemma_exits_keep_anchor(setup, m, now, cause, picked(ids, risk_flags(risk)));
        },
        (Stage::Exiting(cause, ids), _) => {
            lemma_exits_keep_anchor(setup, m, now, cause, ids);
        },
        (Stage::FlatVenue, _) => {
            lemma_flat_keeps_anchor(setup, m, now, managed);
        },
        (Stage::FlatManaged(ids), _) => {
            lemma_flat_keeps_anchor(setup, m, now, ids);
        },
        (Stage::StopIds, Answer::Strategies(source)) => {
            lemma_flat_keeps_anchor(setup, m, now, setup.candidates(source));
        },
        _ => {},
    }
}

/// A check on a new UTC day starts by reading the PnL that the day is counted from.
pub proof fn law_new_day_is_anchored(setup: Setup, m: Sidecar, now: UnixNanos)
    requires
        setup.config.reset_daily,
        m.stage is Ready,
        m.session_date is Some,
        m.session_date != Some(date_at(now)),
    ensures
        setup.begun(m, now) == (Sidecar {
            session_date: Some(date_at(now)),
            stage: Stage::RollPnl,
            ..m
        }),
{
}

// Missing PnL.

/// Without a PnL in the currency of the bounds nothing trips and nothing is asked for.
pub proof fn law_missing_pnl_never_trips(
    setup: Setup,
    m: Sidecar,
    now: UnixNanos,
    report: Option<Seq<(Seq<char>, Money)>>,
)
    requires
        m.stage is IdlePnl,
        setup.total(report) is None,
    ensures
        setup.answered(m, now, Answer::Pnl(report)) == (Sidecar {
            stage: Stage::Ready,
            warned_missing_pnl: report is None,
            ..m
        }),
{
}

// Tripping.

/// While the sidecar watches, a PnL past a bound trips it and a PnL inside the bounds does not.
pub proof fn law_armed_sidecar_trips_at_the_bounds(
    setup: Setup,
    m: Sidecar,
    now: UnixNanos,
    report: Option<Seq<(Seq<char>, Money)>>,
)
    requires
        m.stage is IdlePnl,
        m.state is Idle,
        !m.waiting_to_rearm,
        setup.attached,
    ensures
        ({
            let next = setup.answered(m, now, Answer::Pnl(report));
            match setup.tripped(m, report) {
                Some(bound) => {
                    &&& next.state is Flattening
                    &&& next.trip_bound == Some(bound)
                    &&& next.trip_date == Some(date_at(now))
                    &&& setup.demand(next.stage) == Demand::SetTradingState(TradingState::Reducing)
                },
                None => next.state is Idle && next.stage is Ready,
            }
        }),
{
}

/// After a flatten without a halt the sidecar does not trip again until PnL was back inside the
/// bounds.
pub proof fn law_no_trip_before_recovery(
    setup: Setup,
    m: Sidecar,
    now: UnixNanos,
    report: Option<Seq<(Seq<char>, Money)>>,
)
    requires
        m.stage is IdlePnl,
        m.state is Idle,
        m.waiting_to_rearm,
    ensures
        ({
            let next = setup.answered(m, now, Answer::Pnl(report));
            &&& next.state is Idle
            &&& next.stage is Ready
            &&& next.waiting_to_rearm <==> !(setup.total(report) is Some && setup.config.inside(
                setup.watched(m, setup.total(report)->0),
            ))
        }),
{
}

// Order of requests.

/// Whether exits are being asked for.
pub open spec fn asks_for_exits(stage: Stage) -> bool {
    stage is ExitIds || stage is ExitRisk || stage is Exiting
}

/// The trading state that the sidecar asked for last, after one more reply.
pub open spec fn heard(
    setup: Setup,
    m: Sidecar,
    answer: Answer,
    before: Option<TradingState>,
) -> Option<TradingState> {
    match (setup.demand(m.stage), answer) {
        (Demand::SetTradingState(state), Answer::Done) => Some(state),
        _ => before,
    }
}

/// Whether the trading state that was asked for last goes with the latch: reducing from the first
/// exit on until the flatten is over, halted from then on where the sidecar halts.
pub open spec fn latch_is_heard(m: Sidecar, heard: Option<TradingState>) -> bool {
    &&& m.state is Flattening && !(m.stage is TripReducing) ==> heard == Some(
        TradingState::Reducing,
    )
    &&& m.stage == Stage::TripReducing(Cause::Retrip) ==> heard == Some(TradingState::Reducing)
    &&& m.state is Halted && !(m.stage is HaltSet) ==> heard == Some(TradingState::Halted)
    &&& m.stage is HaltSet ==> heard == Some(TradingState::Reducing)
}

/// What follows while a flatten runs goes with reduced trading.
proof fn lemma_flatten_is_heard(
    setup: Setup,
    m: Sidecar,
    now: UnixNanos,
    cause: Cause,
    ids: Seq<Seq<char>>,
)
    requires
        setup.attached,
        m.state is Flattening,
    ensures
        latch_is_heard(setup.flat(m, now), Some(TradingState::Reducing)),
        latch_is_heard(setup.exits_over(m, now, cause), Some(TradingState::Reducing)),
        latch_is_heard(setup.exits_asked(m, now, cause), Some(TradingState::Reducing)),
        latch_is_heard(setup.exits_among(m, now, cause, ids), Some(TradingState::Reducing)),
        latch_is_heard(setup.exits_of(m, now, cause, ids), Some(TradingState::Reducing)),
        latch_is_heard(setup.stops_of(m, ids), Some(TradingState::Reducing)),
        latch_is_heard(setup.halted(m), Some(TradingState::Reducing)),
{
}

/// Going on with a check goes with the latch.
proof fn lemma_check_is_heard(
    setup: Setup,
    m: Sidecar,
    now: UnixNanos,
    before: Option<TradingState>,
)
    requires
        setup.attached,
        m.state is Flattening ==> before == Some(TradingState::Reducing),
        m.state is Halted ==> before == Some(TradingState::Halted),
    ensures
        latch_is_heard(setup.checked(m, now), before),
{
    let ids = setup.candidates(setup.config.managed);
    if m.state is Flattening {
        lemma_flatten_is_heard(setup, m, now, Cause::Redrive, ids);
    }
}

/// Trading is reduced before any strategy is asked to exit, stays reduced while the flatten runs,
/// and is halted only after it. This is kept by every reply.
pub proof fn law_replies_keep_the_trading_state(
    setup: Setup,
    m: Sidecar,
    now: UnixNanos,
    answer: Answer,
    before: Option<TradingState>,
)
    requires
        setup.sound(m),
        setup.attached,
        latch_is_heard(m, before),
    ensures
        latch_is_heard(setup.answered(m, now, answer), heard(setup, m, answer, before)),
{
    let managed = setup.candidates(setup.config.managed);
    match (m.stage, answer) {
        (Stage::RollPnl, Answer::Pnl(report)) => {
            let anchored = setup.anchored(m, report);
            lemma_check_is_heard(setup, anchored, now, before);
        },
        (Stage::RearmActive, Answer::Done) => {
            lemma_check_is_heard(setup, m, now, Some(TradingState::Active));
        },
        (Stage::RearmStart(_), Answer::Done) => {
            lemma_check_is_heard(setup, m, now, before);
        },
        (Stage::TripReducing(cause), Answer::Done) => {
            lemma_flatten_is_heard(setup, m, now, cause, managed);
        },
        (Stage::ExitIds(cause), Answer::Strategies(source)) => {
            lemma_flatten_is_heard(setup, m, now, cause, setup.candidates(source));
        },
        (Stage::ExitRisk(cause, ids), Answer::Risk(risk)) => {
            lemma_flatten_is_heard(setup, m, now, cause, picked(ids, risk_flags(risk)));
        },
        (Stage::Exiting(cause, ids), Answer::Done) => {
            lemma_flatten_is_heard(setup, m, now, cause, ids);
        },
        (Stage::FlatVenue, Answer::Risk(_)) => {
            lemma_flatten_is_heard(setup, m, now, Cause::Trip, managed);
        },
        (Stage::FlatManaged(ids), Answer::Risk(_)) => {
            lemma_flatten_is_heard(setup, m, now, Cause::Trip, ids);
        },
        (Stage::StopIds, Answer::Strategies(source)) => {
            lemma_flatten_is_heard(setup, m, now, Cause::Trip, setup.candidates(source));
        },
        _ => {},
    }
}

/// The same is kept by the start of a check and by a reset, which ask for nothing.
pub proof fn law_checks_keep_the_trading_state(
    setup: Setup,
    m: Sidecar,
    now: UnixNanos,
    before: Option<TradingState>,
)
    requires
        setup.sound(m),
        setup.attached,
        latch_is_heard(m, before),
    ensures
        latch_is_heard(setup.begun(m, now), before),
        latch_is_heard(reset(m), before),
        latch_is_heard(fresh(), before),
{
}

/// So whenever strategies are asked to exit, trading was reduced before.
pub proof fn law_exits_come_after_reducing(setup: Setup, m: Sidecar, heard: Option<TradingState>)
    requires
        setup.sound(m),
        latch_is_heard(m, heard),
        asks_for_exits(m.stage),
    ensures
        heard == Some(TradingState::Reducing),
{
}

// The flat check.

/// Whether the sidecar has found nothing open and is ending the flatten.
pub open spec fn ends_flatten(stage: Stage) -> bool {
    match stage {
        Stage::StopIds => true,
        Stage::Stopping(_) => true,
        Stage::HaltSet => true,
        Stage::RetripPnl => true,
        Stage::ReleaseSet => true,
        Stage::TripReducing(cause) => cause is Retrip,
        Stage::ExitIds(cause) => cause is Retrip,
        Stage::ExitRisk(cause, _) => cause is Retrip,
        Stage::Exiting(cause, _) => cause is Retrip,
        _ => false,
    }
}

/// Whether there is nothing to wait for: there is a list of managed strategies, and it names none
/// but the sidecar.
pub open spec fn manages_none(setup: Setup) -> bool {
    !setup.handles_all() && setup.candidates(setup.config.managed).len() == 0
}

/// A flatten ends only on a report that nothing is open any more: not when it counts as stuck, and
/// not on any other reply. The sidecar then neither halts, nor stops strategies, nor releases.
pub proof fn law_flatten_ends_only_flat(setup: Setup, m: Sidecar, now: UnixNanos, answer: Answer)
    requires
        setup.sound(m),
        !manages_none(setup),
        m.state is Flattening,
        !ends_flatten(m.stage),
    ensures
        ({
            let next = setup.answered(m, now, answer);
            !(next.state is Flattening) || ends_flatten(next.stage) ==> {
                &&& m.stage is FlatVenue || m.stage is FlatManaged
                &&& answer is Risk
                &&& all_flat(answer->Risk_0)
            }
        }),
{
}

/// Starting a check never ends a flatten.
pub proof fn law_checks_do_not_end_a_flatten(setup: Setup, m: Sidecar, now: UnixNanos)
    requires
        setup.sound(m),
        !manages_none(setup),
        m.state is Flattening,
        !ends_flatten(m.stage),
    ensures
        setup.begun(m, now).state is Flattening,
        !ends_flatten(setup.begun(m, now).stage),
{
}

/// Where there is no list of managed strategies, the whole venue or account has to be flat; where
/// there is one, its strategies, and no others.
pub proof fn law_flat_check_goes_by_the_list(setup: Setup, m: Sidecar)
    requires
        setup.sound(m),
        m.stage is FlatVenue || m.stage is FlatManaged,
    ensures
        setup.handles_all() ==> setup.demand(m.stage) == Demand::CountVenueRisk(
            setup.config.scope(),
        ),
        !setup.handles_all() ==> setup.demand(m.stage) == (Demand::CountRisk {
            scope: setup.config.scope(),
            ids: setup.candidates(setup.config.managed),
        }),
{
}

/// Open risk keeps the sidecar flattening, with nothing else changed.
pub proof fn law_open_risk_keeps_flattening(
    setup: Setup,
    m: Sidecar,
    now: UnixNanos,
    risk: Seq<OpenRisk>,
)
    requires
        m.stage is FlatVenue && risk.len() == 1 || m.stage is FlatManaged && risk.len()
            == m.stage->FlatManaged_0.len(),
        !all_flat(risk),
    ensures
        setup.answered(m, now, Answer::Risk(risk)) == (Sidecar { stage: Stage::Ready, ..m }),
{
}

/// A flatten that counts as stuck goes on: only the mark is set.
pub proof fn law_stuck_flatten_goes_on(setup: Setup, m: Sidecar, now: UnixNanos)
    ensures
        setup.timed_out(m, now) == m || setup.timed_out(m, now) == (Sidecar {
            flatten_timed_out: true,
            ..m
        }),
        m.flatten_started matches Some(started) ==> (setup.timed_out(m, now).flatten_timed_out
            <==> m.flatten_timed_out || elapsed_ms(started, now)
            >= setup.config.flatten_timeout_ms),
{
}

/// While a flatten runs, a check asks for exits again once their interval has passed, and not
/// before.
pub proof fn law_exits_are_asked_for_again(setup: Setup, m: Sidecar, now: UnixNanos)
    requires
        setup.sound(m),
        setup.attached,
        !manages_none(setup),
        !setup.config.reset_daily || m.session_date == Some(date_at(now)),
        m.stage is Ready,
        m.state is Flattening,
        m.last_exit_request is Some,
    ensures
        asks_for_exits(setup.begun(m, now).stage) <==> elapsed_ms(m.last_exit_request->0, now)
            >= setup.config.flatten_redrive_ms,
        !asks_for_exits(setup.begun(m, now).stage) ==> setup.begun(m, now).stage is FlatVenue
            || setup.begun(m, now).stage is FlatManaged,
{
}

/// Whether a strategy has open risk in a report on `ids`.
pub open spec fn has_open_risk(ids: Seq<Seq<char>>, risk: Seq<OpenRisk>, id: Seq<char>) -> bool {
    exists|i: int| 0 <= i < ids.len() && #[trigger] ids[i] == id && risk[i].present()
}

/// Where flat strategies are skipped, exactly those with open risk are asked to exit.
pub proof fn law_flat_strategies_are_skipped(
    setup: Setup,
    m: Sidecar,
    now: UnixNanos,
    cause: Cause,
    ids: Seq<Seq<char>>,
    risk: Seq<OpenRisk>,
    id: Seq<char>,
)
    requires
        m.stage == Stage::ExitRisk(cause, ids),
        risk.len() == ids.len(),
        has_open_risk(ids, risk, id),
    ensures
        ({
            let next = setup.answered(m, now, Answer::Risk(risk));
            &&& next.stage is Exiting
            &&& forall|x: Seq<char>| #[trigger]
                next.stage->Exiting_1.contains(x) <==> has_open_risk(ids, risk, x)
        }),
{
    let flags = risk_flags(risk);
    assert forall|i: int| 0 <= i < ids.len() implies flags[i] == risk[i].present() by {}
    assert forall|x: Seq<char>| #[trigger]
        picked(ids, flags).contains(x) <==> has_open_risk(ids, risk, x) by {
        lemma_picked(ids, flags, x);
        if has_open_risk(ids, risk, x) {
            let i = choose|i: int|
                0 <= i < ids.len() && #[trigger] ids[i] == x && risk[i].present();
            assert(ids[i] == x && flags[i]);
        }
    }
    assert(picked(ids, flags).contains(id));
}

/// Where they are not skipped, every candidate is asked.
pub proof fn law_all_are_asked_without_skipping(
    setup: Setup,
    m: Sidecar,
    now: UnixNanos,
    cause: Cause,
    source: Seq<Seq<char>>,
)
    requires
        !setup.config.skip_flat_strategies,
        m.stage == Stage::ExitIds(cause),
        setup.candidates(source).len() > 0,
    ensures
        setup.demand(setup.answered(m, now, Answer::Strategies(source)).stage)
            == (Demand::ExitStrategies {
            ids: setup.candidates(source),
            initial: !(cause is Redrive),
        }),
{
}

// The halt.

/// A halt lasts: on the same UTC day, or for good where the bounds are not daily, a check asks for
/// nothing and changes nothing.
pub proof fn law_halt_lasts(setup: Setup, m: Sidecar, now: UnixNanos)
    requires
        m.stage is Ready,
        m.state is Halted,
        !setup.config.reset_daily || m.session_date == Some(date_at(now)),
    ensures
        setup.begun(m, now) == m,
        setup.demand(m.stage) == Demand::Nothing,
{
}

/// A flatten that ends on the day of its trip, after a bound that halts the day, has the
/// strategies stopped.
pub proof fn law_same_day_flatten_stops(setup: Setup, m: Sidecar, now: UnixNanos)
    requires
        setup.attached,
        m.trip_bound is Some,
        setup.config.halts_on(m.trip_bound->0),
        setup.config.reset_daily ==> m.trip_date == Some(date_at(now)),
    ensures
        ({
            let next = setup.flat(m, now);
            let managed = setup.candidates(setup.config.managed);
            if setup.handles_all() {
                setup.demand(next.stage) == Demand::ListStrategies
            } else if managed.len() > 0 {
                setup.demand(next.stage) == Demand::StopStrategies(managed)
            } else {
                setup.demand(next.stage) == Demand::SetTradingState(TradingState::Halted)
            }
        }),
{
}

/// Without a list of managed strategies every registered one is stopped, flat or not.
pub proof fn law_every_strategy_is_stopped(
    setup: Setup,
    m: Sidecar,
    now: UnixNanos,
    source: Seq<Seq<char>>,
)
    requires
        m.stage is StopIds,
        setup.candidates(source).len() > 0,
    ensures
        setup.demand(setup.answered(m, now, Answer::Strategies(source)).stage)
            == Demand::StopStrategies(setup.candidates(source)),
{
}

/// Trading is halted once the strategies were asked to stop.
pub proof fn law_halt_comes_after_the_stops(
    setup: Setup,
    m: Sidecar,
    now: UnixNanos,
    ids: Seq<Seq<char>>,
    outcomes: Seq<StopOutcome>,
)
    requires
        setup.attached,
        m.stage == Stage::Stopping(ids),
        outcomes.len() == ids.len(),
    ensures
        ({
            let next = setup.answered(m, now, Answer::Stopped(outcomes));
            &&& next.state is Halted
            &&& setup.demand(next.stage) == Demand::SetTradingState(TradingState::Halted)
        }),
{
}

/// A flatten that ends on the day of its trip, after a bound that does not halt the day, makes
/// trading active again and keeps the sidecar from tripping at once.
pub proof fn law_flatten_without_halt_releases(setup: Setup, m: Sidecar, now: UnixNanos)
    requires
        setup.attached,
        m.trip_bound is Some,
        !setup.config.halts_on(m.trip_bound->0),
        setup.config.reset_daily ==> m.trip_date == Some(date_at(now)),
    ensures
        ({
            let next = setup.flat(m, now);
            &&& next.state is Idle
            &&& next.waiting_to_rearm
            &&& setup.demand(next.stage) == Demand::SetTradingState(TradingState::Active)
        }),
{
}

/// What is picked out is what is marked.
proof fn lemma_picked(ids: Seq<Seq<char>>, flags: Seq<bool>, id: Seq<char>)
    requires
        flags.len() >= ids.len(),
    ensures
        picked(ids, flags).contains(id) <==> exists|i: int|
            0 <= i < ids.len() && #[trigger] ids[i] == id && flags[i],
    decreases ids.len(),
{
    if ids.len() > 0 {
        let front = ids.drop_last();
        let last = ids.len() - 1;
        lemma_picked(front, flags, id);
        let before = picked(front, flags);
        let all = picked(ids, flags);
        if all.contains(id) && !before.contains(id) {
            let k = choose|k: int| 0 <= k < all.len() && all[k] == id;
            assert(flags[last]);
            if k < before.len() {
                assert(before[k] == id);
            }
            assert(ids[last] == id);
        }
        if before.contains(id) {
            let k = choose|k: int| 0 <= k < before.len() && before[k] == id;
            assert(all[k] == id);
            let i = choose|i: int| 0 <= i < front.len() && #[trigger] front[i] == id && flags[i];
            assert(ids[i] == id);
        }
        if exists|i: int| 0 <= i < ids.len() && #[trigger] ids[i] == id && flags[i] {
            let i = choose|i: int| 0 <= i < ids.len() && #[trigger] ids[i] == id && flags[i];
            if i < last {
                assert(front[i] == id);
            } else {
                assert(all[all.len() - 1] == id);
            }
        }
    }
}

/// A strategy is remembered for a restart exactly where it was stopped: one whose stop was put off
/// or failed is not.
pub proof fn law_only_stopped_strategies_are_remembered(
    setup: Setup,
    m: Sidecar,
    now: UnixNanos,
    ids: Seq<Seq<char>>,
    outcomes: Seq<StopOutcome>,
    id: Seq<char>,
)
    requires
        m.stage == Stage::Stopping(ids),
        outcomes.len() == ids.len(),
    ensures
        setup.answered(m, now, Answer::Stopped(outcomes)).stopped_for_halt.contains(id)
            <==> exists|i: int|
            0 <= i < ids.len() && #[trigger] ids[i] == id && outcomes[i] is Stopped,
{
    let flags = stop_flags(outcomes);
    lemma_picked(ids, flags, id);
    assert forall|i: int| 0 <= i < ids.len() implies flags[i] == (outcomes[i] is Stopped) by {}
}

/// A new UTC day ends a halt: trading is made active, exactly the strategies that the halt stopped
/// are started, and the sidecar watches again.
pub proof fn law_new_day_ends_a_halt(
    setup: Setup,
    m: Sidecar,
    now: UnixNanos,
    report: Option<Seq<(Seq<char>, Money)>>,
)
    requires
        setup.sound(m),
        setup.attached,
        setup.config.reset_daily,
        m.stage is Ready,
        m.state is Halted,
        m.session_date is Some,
        m.session_date != Some(date_at(now)),
    ensures
        ({
            let rolling = setup.begun(m, now);
            let activating = setup.answered(rolling, now, Answer::Pnl(report));
            let starting = setup.answered(activating, now, Answer::Done);
            let watching = setup.answered(starting, now, Answer::Done);
            &&& activating.state is Idle
            &&& setup.demand(activating.stage) == Demand::SetTradingState(TradingState::Active)
            &&& if m.stopped_for_halt.len() > 0 {
                &&& setup.demand(starting.stage) == Demand::StartStrategies(m.stopped_for_halt)
                &&& watching.stage is IdlePnl
                &&& watching.state is Idle
                &&& watching.stopped_for_halt.len() == 0
            } else {
                &&& starting.stage is IdlePnl
                &&& starting.state is Idle
            }
        }),
{
}

/// A new UTC day makes trading active only where the sidecar itself had it halted.
pub proof fn law_active_only_after_own_halt(
    setup: Setup,
    m: Sidecar,
    now: UnixNanos,
    report: Option<Seq<(Seq<char>, Money)>>,
)
    requires
        m.stage is RollPnl,
        !m.latched_halted,
        !manages_none(setup),
    ensures
        setup.demand(setup.answered(m, now, Answer::Pnl(report)).stage) != Demand::SetTradingState(
            TradingState::Active,
        ),
{
}

// A flatten across midnight.

/// A flatten goes on when the UTC day changes: only the window is new.
pub proof fn law_flatten_goes_on_at_midnight(
    setup: Setup,
    m: Sidecar,
    now: UnixNanos,
    report: Option<Seq<(Seq<char>, Money)>>,
)
    requires
        setup.sound(m),
        !manages_none(setup),
        m.stage is RollPnl,
        m.state is Flattening,
    ensures
        ({
            let next = setup.answered(m, now, Answer::Pnl(report));
            &&& next.state is Flattening
            &&& next.trip_bound == m.trip_bound
            &&& next.trip_date == m.trip_date
            &&& next.flatten_started == m.flatten_started
            &&& asks_for_exits(next.stage) || next.stage is FlatVenue || next.stage is FlatManaged
        }),
{
}

/// A flatten that ends on a later UTC day than its trip does not halt. Where the new day is inside
/// the bounds, or its PnL is not known, trading is made active and the sidecar is armed.
pub proof fn law_late_flatten_releases(
    setup: Setup,
    m: Sidecar,
    now: UnixNanos,
    report: Option<Seq<(Seq<char>, Money)>>,
)
    requires
        setup.attached,
        setup.config.reset_daily,
        m.trip_date != Some(date_at(now)),
    ensures
        setup.flat(m, now).stage is RetripPnl,
        setup.tripped(m, report) is None ==> {
            let next = setup.resampled(m, now, report);
            &&& next.state is Idle
            &&& !next.waiting_to_rearm
            &&& setup.demand(next.stage) == Demand::SetTradingState(TradingState::Active)
        },
{
}

/// Whether the sidecar is settling a trip of a new day on which an old flatten ended, in favour of
/// a halt.
pub open spec fn settles_by_halting(setup: Setup, m: Sidecar, now: UnixNanos) -> bool {
    &&& m.state is Flattening
    &&& ends_flatten(m.stage)
    &&& !(m.stage is RetripPnl)
    &&& m.trip_bound is Some
    &&& setup.config.halts_on(m.trip_bound->0)
    &&& setup.config.reset_daily ==> m.trip_date == Some(date_at(now))
}

/// Where a flatten ends on a new UTC day that is already past a bound which halts the day, the
/// sidecar trips again at once instead of making trading active.
pub proof fn law_breached_new_day_trips_again(
    setup: Setup,
    m: Sidecar,
    now: UnixNanos,
    report: Option<Seq<(Seq<char>, Money)>>,
)
    requires
        setup.sound(m),
        setup.attached,
        m.stage is RetripPnl,
        setup.tripped(m, report) is Some,
        setup.config.halts_on(setup.tripped(m, report)->0),
    ensures
        settles_by_halting(setup, setup.answered(m, now, Answer::Pnl(report)), now),
{
}

/// From then on every reply of that day leads on towards the halt, and never to active trading.
pub proof fn law_breached_new_day_is_not_released(
    setup: Setup,
    m: Sidecar,
    now: UnixNanos,
    answer: Answer,
)
    requires
        setup.sound(m),
        setup.attached,
        settles_by_halting(setup, m, now),
    ensures
        setup.demand(m.stage) != Demand::SetTradingState(TradingState::Active),
        ({
            let next = setup.answered(m, now, answer);
            settles_by_halting(setup, next, now) || next.state is Halted && next.stage is HaltSet
        }),
{
}

// Whom it acts on.

/// The strategies that the sidecar asks to exit, to stop or to start are never the sidecar itself,
/// and only managed ones where there is a list of those.
pub proof fn law_the_sidecar_spares_itself(setup: Setup, m: Sidecar, id: Seq<char>)
    requires
        setup.sound(m),
        match setup.demand(m.stage) {
            Demand::ExitStrategies { ids, .. } => ids.contains(id),
            Demand::StopStrategies(ids) => ids.contains(id),
            Demand::StartStrategies(ids) => ids.contains(id),
            _ => false,
        },
    ensures
        id != setup.own,
        setup.config.strategy_id != Some(id),
        setup.config.managed.len() > 0 ==> setup.config.managed.contains(id),
{
    assert(setup.may_handle(id));
}

/// The PnL and the open risk that the sidecar asks for are those of the configured account, or of
/// the whole venue where none is configured, and the PnL is in the currency of the bounds.
pub proof fn law_the_configured_account_is_watched(setup: Setup, m: Sidecar)
    ensures
        match setup.demand(m.stage) {
            Demand::ReadPnl { scope, currency, unrealized_only } => {
                &&& scope.venue == setup.config.venue
                &&& scope.account_id == setup.config.account_id
                &&& currency == setup.config.currency
                &&& unrealized_only == setup.config.use_unrealized_only
            },
            Demand::CountVenueRisk(scope) => {
                &&& scope.venue == setup.config.venue
                &&& scope.account_id == setup.config.account_id
            },
            Demand::CountRisk { scope, .. } => {
                &&& scope.venue == setup.config.venue
                &&& scope.account_id == setup.config.account_id
            },
            _ => true,
        },
{
}

// The end of a check.

/// Whether a reply is one to the request at a stage.
pub open spec fn fits(stage: Stage, answer: Answer) -> bool {
    match stage {
        Stage::Ready => false,
        Stage::RollPnl => answer is Pnl,
        Stage::RearmActive => answer is Done,
        Stage::RearmStart(_) => answer is Done,
        Stage::IdlePnl => answer is Pnl,
        Stage::TripReducing(_) => answer is Done,
        Stage::ExitIds(_) => answer is Strategies,
        Stage::ExitRisk(_, ids) => answer matches Answer::Risk(risk) && risk.len() == ids.len(),
        Stage::Exiting(_, _) => answer is Done,
        Stage::FlatVenue => answer matches Answer::Risk(risk) && risk.len() == 1,
        Stage::FlatManaged(ids) => answer matches Answer::Risk(risk) && risk.len() == ids.len(),
        Stage::StopIds => answer is Strategies,
        Stage::Stopping(ids) => answer matches Answer::Stopped(outcomes) && outcomes.len()
            == ids.len(),
        Stage::HaltSet => answer is Done,
        Stage::RetripPnl => answer is Pnl,
        Stage::ReleaseSet => answer is Done,
    }
}

/// How many replies a check may still need at most.
pub open spec fn replies_left(stage: Stage) -> nat {
    match stage {
        Stage::Ready => 0,
        Stage::HaltSet => 1,
        Stage::ReleaseSet => 1,
        Stage::Stopping(_) => 2,
        Stage::StopIds => 3,
        Stage::Exiting(cause, _) => if cause is Retrip {
            4
        } else {
            10
        },
        Stage::ExitRisk(cause, _) => if cause is Retrip {
            5
        } else {
            11
        },
        Stage::ExitIds(cause) => if cause is Retrip {
            6
        } else {
            12
        },
        Stage::TripReducing(cause) => if cause is Retrip {
            7
        } else {
            13
        },
        Stage::RetripPnl => 8,
        Stage::FlatVenue => 9,
        Stage::FlatManaged(_) => 9,
        Stage::IdlePnl => 14,
        Stage::RearmStart(_) => 15,
        Stage::RearmActive => 16,
        Stage::RollPnl => 17,
    }
}

/// How many replies are needed after the flat check.
proof fn lemma_left_after_flat(setup: Setup, m: Sidecar, now: UnixNanos, ids: Seq<Seq<char>>)
    ensures
        replies_left(setup.flat(m, now).stage) <= 8,
        replies_left(setup.settled(m, now).stage) <= 3,
        replies_left(setup.released(m, now).stage) <= 1,
        replies_left(setup.stops_of(m, ids).stage) <= 2,
{
}

/// How many replies are needed after exits.
proof fn lemma_left_after_exits(
    setup: Setup,
    m: Sidecar,
    now: UnixNanos,
    cause: Cause,
    ids: Seq<Seq<char>>,
)
    ensures
        replies_left(setup.exits_over(m, now, cause).stage) <= if cause is Retrip {
            3nat
        } else {
            9
        },
        replies_left(setup.exits_asked(m, now, cause).stage) <= if cause is Retrip {
            3nat
        } else {
            9
        },
        replies_left(setup.exits_of(m, now, cause, ids).stage) <= if cause is Retrip {
            4nat
        } else {
            10
        },
        replies_left(setup.exits_among(m, now, cause, ids).stage) <= if cause is Retrip {
            5nat
        } else {
            11
        },
{
    let asked = Sidecar { last_exit_request: Some(now), ..m };
    lemma_left_after_flat(setup, m, now, ids);
    lemma_left_after_flat(setup, asked, now, ids);
    lemma_left_after_flat(setup, setup.timed_out(m, now), now, ids);
    lemma_left_after_flat(setup, setup.timed_out(asked, now), now, ids);
}

/// How many replies are needed once exits are wanted.
proof fn lemma_left_for_exits(setup: Setup, m: Sidecar, now: UnixNanos, cause: Cause)
    ensures
        replies_left(setup.exits_wanted(m, now, cause).stage) <= if cause is Retrip {
            6nat
        } else {
            12
        },
{
    lemma_left_after_exits(setup, m, now, cause, setup.candidates(setup.config.managed));
}

/// How many replies are needed after a trip.
proof fn lemma_left_after_trip(
    setup: Setup,
    m: Sidecar,
    bound: TripBound,
    now: UnixNanos,
    cause: Cause,
)
    ensures
        replies_left(setup.trip(m, bound, now, cause).stage) <= if cause is Retrip {
            7nat
        } else {
            13
        },
{
    let tripped = Sidecar {
        state: UserPnLState::Flattening,
        trip_bound: Some(bound),
        trip_date: Some(date_at(now)),
        waiting_to_rearm: false,
        flatten_started: Some(now),
        flatten_timed_out: false,
        ..m
    };
    lemma_left_after_exits(setup, tripped, now, cause, Seq::empty());
}

/// How many replies are needed to go on with a check.
proof fn lemma_left_for_check(setup: Setup, m: Sidecar, now: UnixNanos)
    ensures
        replies_left(setup.checked(m, now).stage) <= 14,
{
    lemma_left_for_exits(setup, m, now, Cause::Redrive);
    lemma_left_after_exits(setup, m, now, Cause::Redrive, Seq::empty());
}

/// How many replies are needed after a report.
proof fn lemma_left_after_pnl(
    setup: Setup,
    m: Sidecar,
    now: UnixNanos,
    report: Option<Seq<(Seq<char>, Money)>>,
)
    requires
        fits(m.stage, Answer::Pnl(report)),
    ensures
        replies_left(setup.answered(m, now, Answer::Pnl(report)).stage) < replies_left(m.stage),
{
    let noted = setup.noted(m, report);
    match m.stage {
        Stage::RollPnl => {
            let anchored = setup.anchored(m, report);
            let rearmed = Sidecar {
                state: UserPnLState::Idle,
                trip_bound: None,
                trip_date: None,
                waiting_to_rearm: false,
                flatten_started: None,
                last_exit_request: None,
                flatten_timed_out: false,
                latched_halted: false,
                ..anchored
            };
            lemma_left_for_check(setup, anchored, now);
            lemma_left_for_check(setup, rearmed, now);
            lemma_left_for_check(
                setup,
                Sidecar { stopped_for_halt: Seq::empty(), ..rearmed },
                now,
            );
        },
        Stage::IdlePnl => {
            if let Some(bound) = setup.tripped(m, report) {
                let armed = Sidecar { waiting_to_rearm: false, ..noted };
                lemma_left_after_trip(setup, armed, bound, now, Cause::Trip);
            }
        },
        Stage::RetripPnl => {
            match setup.tripped(m, report) {
                Some(bound) => {
                    lemma_left_after_trip(setup, noted, bound, now, Cause::Retrip);
                },
                None => {
                    lemma_left_after_flat(setup, noted, now, Seq::empty());
                },
            }
        },
        _ => {},
    }
}

/// Every check comes to an end: each fitting reply brings it nearer.
pub proof fn law_every_check_ends(setup: Setup, m: Sidecar, now: UnixNanos, answer: Answer)
    requires
        fits(m.stage, answer),
    ensures
        replies_left(setup.answered(m, now, answer).stage) < replies_left(m.stage),
{
    match (m.stage, answer) {
        (_, Answer::Pnl(report)) => {
            lemma_left_after_pnl(setup, m, now, report);
        },
        (Stage::RearmActive, _) => {
            lemma_left_for_check(setup, m, now);
        },
        (Stage::RearmStart(_), _) => {
            lemma_left_for_check(setup, m, now);
        },
        (Stage::TripReducing(cause), _) => {
            lemma_left_for_exits(setup, m, now, cause);
        },
        (Stage::ExitIds(cause), Answer::Strategies(source)) => {
            lemma_left_after_exits(setup, m, now, cause, setup.candidates(source));
        },
        (Stage::ExitRisk(cause, ids), Answer::Risk(risk)) => {
            lemma_left_after_exits(setup, m, now, cause, picked(ids, risk_flags(risk)));
        },
        (Stage::Exiting(cause, ids), _) => {
            lemma_left_after_exits(setup, m, now, cause, ids);
        },
        (Stage::FlatVenue, _) => {
            lemma_left_after_flat(setup, m, now, Seq::empty());
        },
        (Stage::FlatManaged(ids), _) => {
            lemma_left_after_flat(setup, m, now, ids);
        },
        (Stage::StopIds, Answer::Strategies(source)) => {
            lemma_left_after_flat(setup, m, now, setup.candidates(source));
        },
        _ => {},
    }
}

/// A reply that does not fit changes nothing.
pub proof fn law_unfitting_replies_change_nothing(
    setup: Setup,
    m: Sidecar,
    now: UnixNanos,
    answer: Answer,
)
    requires
        !fits(m.stage, answer),
    ensures
        setup.answered(m, now, answer) == m,
{
}

} // verus!
