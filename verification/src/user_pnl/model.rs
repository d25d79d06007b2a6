//! The sidecar as a state machine.
//!
//! A check starts with [`Setup::begun`]. From then on the sidecar waits at a [`Stage`] for the
//! reply to one request, and [`Setup::answered`] says where the reply leads, until it is back at
//! [`Stage::Ready`].

use vstd::prelude::*;

use crate::calendar::{date_at, CivilDate};
use crate::decimal::DecimalView;
use crate::fixed::{Money, UnixNanos};
use crate::user_pnl::config::{ConfigView, ScopeView};
use crate::user_pnl::inputs::{
    account_pnl_of, all_flat, candidates_of, picked, risk_flags, stop_flags, watched_pnl_of,
    OpenRisk, StopOutcome,
};

verus! {

/// What the node lets strategies do.
#[derive(Clone, Copy, Debug, PartialEq, Eq, Structural)]
pub enum TradingState {
    /// Trading is allowed.
    Active,
    /// No orders are allowed.
    Halted,
    /// Only orders that reduce risk are allowed.
    Reducing,
}

/// Latch of the kill switch.
#[derive(Clone, Copy, Debug, PartialEq, Eq, Structural)]
pub enum UserPnLState {
    /// Watching the PnL.
    Idle,
    /// Waiting until nothing is open.
    Flattening,
    /// Trading is halted.
    Halted,
}

impl Default for UserPnLState {
    fn default() -> (state: UserPnLState)
        ensures
            state == UserPnLState::Idle,
    {
        UserPnLState::Idle
    }
}

/// The bound that tripped.
#[derive(Clone, Copy, Debug, PartialEq, Eq, Structural)]
pub enum TripBound {
    /// The loss bound.
    MaxLoss,
    /// The profit bound.
    MaxProfit,
}

/// Why exits are asked for, which says what comes after them.
#[derive(Clone, Copy, Debug, PartialEq, Eq, Structural)]
pub enum Cause {
    /// A bound tripped while the sidecar was idle.
    Trip,
    /// A flatten is still running.
    Redrive,
    /// A flatten ended on a new UTC day whose own window is already past a bound.
    Retrip,
}

/// Where the sidecar stands in a check.
pub enum Stage {
    /// No check is running.
    Ready,
    /// Waits for the PnL that the new UTC day starts from.
    RollPnl,
    /// Waits until trading is active again for the new UTC day.
    RearmActive,
    /// Waits until the strategies that were stopped are started.
    RearmStart(Seq<Seq<char>>),
    /// Waits for the PnL to compare with the bounds.
    IdlePnl,
    /// Waits until trading is reduced.
    TripReducing(Cause),
    /// Waits for the strategies that could be asked to exit.
    ExitIds(Cause),
    /// Waits for the open risk of those strategies.
    ExitRisk(Cause, Seq<Seq<char>>),
    /// Waits until those strategies were asked to exit.
    Exiting(Cause, Seq<Seq<char>>),
    /// Waits for the open risk of the venue or account.
    FlatVenue,
    /// Waits for the open risk of the managed strategies.
    FlatManaged(Seq<Seq<char>>),
    /// Waits for the strategies to stop.
    StopIds,
    /// Waits until those strategies were asked to stop.
    Stopping(Seq<Seq<char>>),
    /// Waits until trading is halted.
    HaltSet,
    /// Waits for the PnL of a new UTC day on which a flatten ended.
    RetripPnl,
    /// Waits until trading is active again after a flatten.
    ReleaseSet,
}

/// What the node replies.
pub enum Answer {
    /// The PnL in each currency, where it is known.
    Pnl(Option<Seq<(Seq<char>, Money)>>),
    /// The request was carried out.
    Done,
    /// The strategies of the node.
    Strategies(Seq<Seq<char>>),
    /// The open risk of each strategy that was asked about, or of the whole venue or account.
    Risk(Seq<OpenRisk>),
    /// What came of each stop.
    Stopped(Seq<StopOutcome>),
}

/// What the sidecar asks of the node.
pub enum Demand {
    /// Nothing: the check is over.
    Nothing,
    /// Report the PnL of a venue or account in a currency.
    ReadPnl { scope: ScopeView, currency: Seq<char>, unrealized_only: bool },
    /// Set the trading state.
    SetTradingState(TradingState),
    /// List the registered strategies.
    ListStrategies,
    /// Count the open risk of a venue or account.
    CountVenueRisk(ScopeView),
    /// Count the open risk of each strategy at a venue or on an account.
    CountRisk { scope: ScopeView, ids: Seq<Seq<char>> },
    /// Ask the strategies to exit, for the first time or again.
    ExitStrategies { ids: Seq<Seq<char>>, initial: bool },
    /// Ask the strategies to stop.
    StopStrategies(Seq<Seq<char>>),
    /// Ask the strategies to start.
    StartStrategies(Seq<Seq<char>>),
}

/// The state of the sidecar.
pub struct Sidecar {
    /// The latch.
    pub state: UserPnLState,
    /// The UTC date of the current daily window.
    pub session_date: Option<CivilDate>,
    /// The session's PnL when the window began.
    pub day_anchor_pnl: Option<Money>,
    /// Whether the PnL was not known when the window began, so that the first PnL that is known in
    /// the window becomes its anchor.
    pub awaits_anchor: bool,
    /// The bound that tripped last.
    pub trip_bound: Option<TripBound>,
    /// The UTC date on which it tripped.
    pub trip_date: Option<CivilDate>,
    /// Whether PnL has to come back inside the bounds before they can trip again.
    pub waiting_to_rearm: bool,
    /// The strategies that a halt stopped.
    pub stopped_for_halt: Seq<Seq<char>>,
    /// When the flatten started.
    pub flatten_started: Option<UnixNanos>,
    /// When exits were last asked for.
    pub last_exit_request: Option<UnixNanos>,
    /// Whether the flatten counts as stuck.
    pub flatten_timed_out: bool,
    /// Whether it was the sidecar that had trading halted.
    pub latched_halted: bool,
    /// Whether the last PnL report was missing.
    pub warned_missing_pnl: bool,
    /// Where it stands in a check.
    pub stage: Stage,
}

/// What does not change between checks.
pub struct Setup {
    /// The configuration.
    pub config: ConfigView,
    /// The sidecar's name on the node.
    pub own: Seq<char>,
    /// Whether a node is attached that can exit, stop and start strategies.
    pub attached: bool,
}

/// Milliseconds from one instant to a later one.
pub open spec fn elapsed_ms(since: UnixNanos, now: UnixNanos) -> int {
    if now.nanos >= since.nanos {
        (now.nanos - since.nanos) / 1_000_000
    } else {
        0
    }
}

impl ConfigView {
    /// The bound that a PnL trips. The loss bound comes first.
    pub open spec fn tripped(self, pnl: DecimalView) -> Option<TripBound> {
        if self.max_loss is Some && pnl.at_most(self.max_loss->0) {
            Some(TripBound::MaxLoss)
        } else if self.max_profit is Some && self.max_profit->0.at_most(pnl) {
            Some(TripBound::MaxProfit)
        } else {
            None
        }
    }

    /// Whether a PnL is strictly inside the bounds.
    pub open spec fn inside(self, pnl: DecimalView) -> bool {
        &&& self.max_loss matches Some(max_loss) ==> !pnl.at_most(max_loss)
        &&& self.max_profit matches Some(max_profit) ==> !max_profit.at_most(pnl)
    }

    /// Whether a flatten after this bound halts the day.
    pub open spec fn halts_on(self, bound: TripBound) -> bool {
        match bound {
            TripBound::MaxLoss => self.halt_day_on_max_loss,
            TripBound::MaxProfit => self.halt_day_on_max_profit,
        }
    }
}

/// A fresh sidecar.
pub open spec fn fresh() -> Sidecar {
    Sidecar {
        state: UserPnLState::Idle,
        session_date: None,
        day_anchor_pnl: None,
        awaits_anchor: false,
        trip_bound: None,
        trip_date: None,
        waiting_to_rearm: false,
        stopped_for_halt: Seq::empty(),
        flatten_started: None,
        last_exit_request: None,
        flatten_timed_out: false,
        latched_halted: false,
        warned_missing_pnl: false,
        stage: Stage::Ready,
    }
}

/// A sidecar whose latch was reset. The daily window stays.
pub open spec fn reset(m: Sidecar) -> Sidecar {
    Sidecar {
        session_date: m.session_date,
        day_anchor_pnl: m.day_anchor_pnl,
        awaits_anchor: m.awaits_anchor,
        warned_missing_pnl: m.warned_missing_pnl,
        ..fresh()
    }
}

impl Setup {
    /// The strategies among `source` that the sidecar handles.
    pub open spec fn candidates(self, source: Seq<Seq<char>>) -> Seq<Seq<char>> {
        candidates_of(source, self.own, self.config.strategy_id)
    }

    /// Whether there is no list of managed strategies, so that all are handled.
    pub open spec fn handles_all(self) -> bool {
        self.config.managed.len() == 0
    }

    /// The account's PnL in a report.
    pub open spec fn total(self, report: Option<Seq<(Seq<char>, Money)>>) -> Option<Money> {
        account_pnl_of(report, self.config.currency)
    }

    /// The sidecar after it has read a report: a missing report is remembered, and a window that
    /// awaits its anchor takes it from the report.
    pub open spec fn noted(self, m: Sidecar, report: Option<Seq<(Seq<char>, Money)>>) -> Sidecar {
        let total = self.total(report);
        if m.awaits_anchor && total is Some {
            Sidecar {
                warned_missing_pnl: report is None,
                day_anchor_pnl: total,
                awaits_anchor: false,
                ..m
            }
        } else {
            Sidecar { warned_missing_pnl: report is None, ..m }
        }
    }

    /// The bound that a report trips.
    pub open spec fn tripped(
        self,
        m: Sidecar,
        report: Option<Seq<(Seq<char>, Money)>>,
    ) -> Option<TripBound> {
        match self.total(report) {
            Some(total) => self.config.tripped(self.watched(m, total)),
            None => None,
        }
    }

    /// What is compared with the bounds.
    pub open spec fn watched(self, m: Sidecar, total: Money) -> DecimalView {
        watched_pnl_of(
            total,
            self.config.reset_daily,
            if m.awaits_anchor {
                Some(total)
            } else {
                m.day_anchor_pnl
            },
        )
    }

    /// Whether a flatten ends in a later daily window than the one in which it was tripped.
    pub open spec fn crossed(self, m: Sidecar, now: UnixNanos) -> bool {
        self.config.reset_daily && m.trip_date != Some(date_at(now))
    }

    /// Whether a flatten that ends now halts trading.
    pub open spec fn halts(self, m: Sidecar, now: UnixNanos) -> bool {
        (m.trip_bound matches Some(bound) ==> self.config.halts_on(bound)) && !self.crossed(m, now)
    }

    /// A check starts: the daily window may roll over.
    pub open spec fn begun(self, m: Sidecar, now: UnixNanos) -> Sidecar {
        if !(m.stage is Ready) {
            m
        } else if !self.config.reset_daily || m.session_date == Some(date_at(now)) {
            self.checked(m, now)
        } else if m.session_date is None {
            self.checked(Sidecar { session_date: Some(date_at(now)), ..m }, now)
        } else {
            Sidecar { session_date: Some(date_at(now)), stage: Stage::RollPnl, ..m }
        }
    }

    /// A new daily window begins at the PnL of a report, or where that is not known, awaits its
    /// anchor.
    pub open spec fn anchored(self, m: Sidecar, report: Option<Seq<(Seq<char>, Money)>>) -> Sidecar {
        Sidecar {
            warned_missing_pnl: report is None,
            day_anchor_pnl: self.total(report),
            awaits_anchor: self.total(report) is None,
            ..m
        }
    }

    /// The new daily window has begun.
    pub open spec fn rolled(self, m: Sidecar, now: UnixNanos) -> Sidecar {
        if m.state is Flattening || (m.state is Idle && m.stopped_for_halt.len() == 0) {
            self.checked(m, now)
        } else {
            let rearmed = Sidecar {
                state: UserPnLState::Idle,
                trip_bound: None,
                trip_date: None,
                waiting_to_rearm: false,
                flatten_started: None,
                last_exit_request: None,
                flatten_timed_out: false,
                latched_halted: false,
                ..m
            };
            if !self.attached {
                self.checked(Sidecar { stopped_for_halt: Seq::empty(), ..rearmed }, now)
            } else if m.latched_halted {
                Sidecar { stage: Stage::RearmActive, ..rearmed }
            } else {
                self.restarted(rearmed, now)
            }
        }
    }

    /// The strategies that a halt stopped are started.
    pub open spec fn restarted(self, m: Sidecar, now: UnixNanos) -> Sidecar {
        if m.stopped_for_halt.len() == 0 {
            self.checked(m, now)
        } else {
            Sidecar {
                stage: Stage::RearmStart(m.stopped_for_halt),
                stopped_for_halt: Seq::empty(),
                ..m
            }
        }
    }

    /// The daily window is up to date.
    pub open spec fn checked(self, m: Sidecar, now: UnixNanos) -> Sidecar {
        match m.state {
            UserPnLState::Idle => Sidecar { stage: Stage::IdlePnl, ..m },
            UserPnLState::Flattening => self.flattening(m, now),
            UserPnLState::Halted => Sidecar { stage: Stage::Ready, ..m },
        }
    }

    /// The PnL is known while the sidecar is idle.
    pub open spec fn sampled(
        self,
        m: Sidecar,
        now: UnixNanos,
        report: Option<Seq<(Seq<char>, Money)>>,
    ) -> Sidecar {
        let noted = self.noted(m, report);
        match self.total(report) {
            None => Sidecar { stage: Stage::Ready, ..noted },
            Some(total) => {
                let pnl = self.watched(m, total);
                if m.waiting_to_rearm && !self.config.inside(pnl) {
                    Sidecar { stage: Stage::Ready, ..noted }
                } else {
                    let armed = Sidecar { waiting_to_rearm: false, ..noted };
                    match self.config.tripped(pnl) {
                        Some(bound) => self.trip(armed, bound, now, Cause::Trip),
                        None => Sidecar { stage: Stage::Ready, ..armed },
                    }
                }
            },
        }
    }

    /// A bound trips: trading is reduced before strategies are asked to exit.
    pub open spec fn trip(
        self,
        m: Sidecar,
        bound: TripBound,
        now: UnixNanos,
        cause: Cause,
    ) -> Sidecar {
        let tripped = Sidecar {
            state: UserPnLState::Flattening,
            trip_bound: Some(bound),
            trip_date: Some(date_at(now)),
            waiting_to_rearm: false,
            flatten_started: Some(now),
            flatten_timed_out: false,
            ..m
        };
        if self.attached {
            Sidecar { stage: Stage::TripReducing(cause), ..tripped }
        } else {
            self.exits_over(tripped, now, cause)
        }
    }

    /// Exits are asked for, first of all by finding the strategies.
    pub open spec fn exits_wanted(self, m: Sidecar, now: UnixNanos, cause: Cause) -> Sidecar {
        if self.handles_all() {
            Sidecar { stage: Stage::ExitIds(cause), ..m }
        } else {
            self.exits_among(m, now, cause, self.candidates(self.config.managed))
        }
    }

    /// The strategies that could be asked to exit are known.
    pub open spec fn exits_among(
        self,
        m: Sidecar,
        now: UnixNanos,
        cause: Cause,
        ids: Seq<Seq<char>>,
    ) -> Sidecar {
        if self.config.skip_flat_strategies && ids.len() > 0 {
            Sidecar { stage: Stage::ExitRisk(cause, ids), ..m }
        } else {
            self.exits_of(m, now, cause, ids)
        }
    }

    /// The strategies to ask are known.
    pub open spec fn exits_of(
        self,
        m: Sidecar,
        now: UnixNanos,
        cause: Cause,
        ids: Seq<Seq<char>>,
    ) -> Sidecar {
        if ids.len() > 0 {
            Sidecar { stage: Stage::Exiting(cause, ids), ..m }
        } else {
            self.exits_asked(m, now, cause)
        }
    }

    /// Every strategy was asked.
    pub open spec fn exits_asked(self, m: Sidecar, now: UnixNanos, cause: Cause) -> Sidecar {
        self.exits_over(Sidecar { last_exit_request: Some(now), ..m }, now, cause)
    }

    /// What comes after the exits.
    pub open spec fn exits_over(self, m: Sidecar, now: UnixNanos, cause: Cause) -> Sidecar {
        match cause {
            Cause::Trip => self.flat_wanted(m, now),
            Cause::Redrive => self.flat_wanted(self.timed_out(m, now), now),
            Cause::Retrip => self.settled(m, now),
        }
    }

    /// Whether exits are to be asked for again.
    pub open spec fn redrives(self, m: Sidecar, now: UnixNanos) -> bool {
        match m.last_exit_request {
            Some(last) => elapsed_ms(last, now) >= self.config.flatten_redrive_ms,
            None => true,
        }
    }

    /// A flatten that runs too long counts as stuck. It goes on all the same.
    pub open spec fn timed_out(self, m: Sidecar, now: UnixNanos) -> Sidecar {
        match m.flatten_started {
            Some(started) if elapsed_ms(started, now) >= self.config.flatten_timeout_ms => Sidecar {
                flatten_timed_out: true,
                ..m
            },
            _ => m,
        }
    }

    /// A check while the flatten runs.
    pub open spec fn flattening(self, m: Sidecar, now: UnixNanos) -> Sidecar {
        if self.redrives(m, now) && self.attached {
            self.exits_wanted(m, now, Cause::Redrive)
        } else {
            self.exits_over(m, now, Cause::Redrive)
        }
    }

    /// It is to be known whether anything is still open.
    pub open spec fn flat_wanted(self, m: Sidecar, now: UnixNanos) -> Sidecar {
        if self.handles_all() {
            Sidecar { stage: Stage::FlatVenue, ..m }
        } else {
            let ids = self.candidates(self.config.managed);
            if ids.len() > 0 {
                Sidecar { stage: Stage::FlatManaged(ids), ..m }
            } else {
                self.flat(m, now)
            }
        }
    }

    /// Nothing is open any more.
    pub open spec fn flat(self, m: Sidecar, now: UnixNanos) -> Sidecar {
        if self.halts(m, now) {
            self.stops_wanted(m)
        } else if self.crossed(m, now) {
            Sidecar { stage: Stage::RetripPnl, ..m }
        } else {
            self.released(m, now)
        }
    }

    /// The PnL of the new day on which a flatten ended is known.
    pub open spec fn resampled(
        self,
        m: Sidecar,
        now: UnixNanos,
        report: Option<Seq<(Seq<char>, Money)>>,
    ) -> Sidecar {
        let noted = self.noted(m, report);
        match self.tripped(m, report) {
            Some(bound) => self.trip(noted, bound, now, Cause::Retrip),
            None => self.released(noted, now),
        }
    }

    /// A trip with nothing open halts or releases at once.
    pub open spec fn settled(self, m: Sidecar, now: UnixNanos) -> Sidecar {
        if self.halts(m, now) {
            self.stops_wanted(m)
        } else {
            self.released(m, now)
        }
    }

    /// The strategies are to be stopped.
    pub open spec fn stops_wanted(self, m: Sidecar) -> Sidecar {
        if !self.attached {
            self.halted(m)
        } else {
            let cleared = Sidecar { stopped_for_halt: Seq::empty(), ..m };
            if self.handles_all() {
                Sidecar { stage: Stage::StopIds, ..cleared }
            } else {
                self.stops_of(cleared, self.candidates(self.config.managed))
            }
        }
    }

    /// The strategies to stop are known.
    pub open spec fn stops_of(self, m: Sidecar, ids: Seq<Seq<char>>) -> Sidecar {
        if ids.len() > 0 {
            Sidecar { stage: Stage::Stopping(ids), ..m }
        } else {
            self.halted(m)
        }
    }

    /// Trading is to be halted.
    pub open spec fn halted(self, m: Sidecar) -> Sidecar {
        Sidecar {
            state: UserPnLState::Halted,
            latched_halted: true,
            flatten_started: None,
            last_exit_request: None,
            flatten_timed_out: false,
            stage: if self.attached {
                Stage::HaltSet
            } else {
                Stage::Ready
            },
            ..m
        }
    }

    /// Trading is to be active again. The same bound does not trip again in the same window until
    /// PnL was inside the bounds; a new window is armed at once.
    pub open spec fn released(self, m: Sidecar, now: UnixNanos) -> Sidecar {
        Sidecar {
            state: UserPnLState::Idle,
            waiting_to_rearm: !self.crossed(m, now),
            flatten_started: None,
            last_exit_request: None,
            flatten_timed_out: false,
            stage: if self.attached {
                Stage::ReleaseSet
            } else {
                Stage::Ready
            },
            ..m
        }
    }

    /// Where a reply leads. A reply that does not fit the request changes nothing.
    pub open spec fn answered(self, m: Sidecar, now: UnixNanos, answer: Answer) -> Sidecar {
        match (m.stage, answer) {
            (Stage::RollPnl, Answer::Pnl(report)) => self.rolled(self.anchored(m, report), now),
            (Stage::RearmActive, Answer::Done) => self.restarted(m, now),
            (Stage::RearmStart(_), Answer::Done) => self.checked(m, now),
            (Stage::IdlePnl, Answer::Pnl(report)) => self.sampled(m, now, report),
            (Stage::TripReducing(cause), Answer::Done) => self.exits_wanted(m, now, cause),
            (Stage::ExitIds(cause), Answer::Strategies(source)) => self.exits_among(
                m,
                now,
                cause,
                self.candidates(source),
            ),
            (Stage::ExitRisk(cause, ids), Answer::Risk(risk)) => if risk.len() == ids.len() {
                self.exits_of(m, now, cause, picked(ids, risk_flags(risk)))
            } else {
                m
            },
            (Stage::Exiting(cause, _), Answer::Done) => self.exits_asked(m, now, cause),
            (Stage::FlatVenue, Answer::Risk(risk)) => if risk.len() != 1 {
                m
            } else if all_flat(risk) {
                self.flat(m, now)
            } else {
                Sidecar { stage: Stage::Ready, ..m }
            },
            (Stage::FlatManaged(ids), Answer::Risk(risk)) => if risk.len() != ids.len() {
                m
            } else if all_flat(risk) {
                self.flat(m, now)
            } else {
                Sidecar { stage: Stage::Ready, ..m }
            },
            (Stage::StopIds, Answer::Strategies(source)) => self.stops_of(
                m,
                self.candidates(source),
            ),
            (Stage::Stopping(ids), Answer::Stopped(outcomes)) => if outcomes.len() == ids.len() {
                self.halted(
                    Sidecar { stopped_for_halt: picked(ids, stop_flags(outcomes)), ..m },
                )
            } else {
                m
            },
            (Stage::HaltSet, Answer::Done) => Sidecar { stage: Stage::Ready, ..m },
            (Stage::RetripPnl, Answer::Pnl(report)) => self.resampled(m, now, report),
            (Stage::ReleaseSet, Answer::Done) => Sidecar { stage: Stage::Ready, ..m },
            _ => m,
        }
    }

    /// How the PnL is asked for.
    pub open spec fn pnl_demand(self) -> Demand {
        Demand::ReadPnl {
            scope: self.config.scope(),
            currency: self.config.currency,
            unrealized_only: self.config.use_unrealized_only,
        }
    }

    /// What the sidecar asks for at a stage.
    pub open spec fn demand(self, stage: Stage) -> Demand {
        match stage {
            Stage::Ready => Demand::Nothing,
            Stage::RollPnl => self.pnl_demand(),
            Stage::RearmActive => Demand::SetTradingState(TradingState::Active),
            Stage::RearmStart(ids) => Demand::StartStrategies(ids),
            Stage::IdlePnl => self.pnl_demand(),
            Stage::TripReducing(_) => Demand::SetTradingState(TradingState::Reducing),
            Stage::ExitIds(_) => Demand::ListStrategies,
            Stage::ExitRisk(_, ids) => Demand::CountRisk { scope: self.config.scope(), ids },
            Stage::Exiting(cause, ids) => Demand::ExitStrategies {
                ids,
                initial: !(cause is Redrive),
            },
            Stage::FlatVenue => Demand::CountVenueRisk(self.config.scope()),
            Stage::FlatManaged(ids) => Demand::CountRisk { scope: self.config.scope(), ids },
            Stage::StopIds => Demand::ListStrategies,
            Stage::Stopping(ids) => Demand::StopStrategies(ids),
            Stage::HaltSet => Demand::SetTradingState(TradingState::Halted),
            Stage::RetripPnl => self.pnl_demand(),
            Stage::ReleaseSet => Demand::SetTradingState(TradingState::Active),
        }
    }
}

} // verus!
