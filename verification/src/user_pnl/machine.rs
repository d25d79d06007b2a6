//! The sidecar.

use vstd::prelude::*;

use crate::calendar::{utc_date, CivilDate};
use crate::decimal::{decimal_le, Decimal};
use crate::fixed::{Money, UnixNanos};
use crate::strategy_id::{copy_ids, names, StrategyId};
use crate::user_pnl::config::{ConfigError, Scope, UserPnLConfig};
use crate::user_pnl::inputs::{
    account_pnl, all_flat, candidates, is_all_flat, pick_at_risk, pick_stopped, pnl_lines,
    watched_pnl, OpenRisk, PnlEntry, StopOutcome,
};
use crate::user_pnl::model::{
    elapsed_ms, fresh, reset, Answer, Cause, Demand, Setup, Sidecar, Stage, TradingState,
    TripBound, UserPnLState,
};
use crate::user_pnl::soundness::{
    law_answered_is_sound, law_attached_is_sound, law_begun_is_sound,
};

verus! {

/// The name of the timer that a check runs on.
pub const USER_PNL_TIMER: &'static str = "user_pnl";

/// Nanoseconds in a millisecond.
pub const NANOS_PER_MILLI: u64 = 1_000_000;

/// Where the sidecar stands in a check.
#[derive(Debug)]
enum Phase {
    Ready,
    RollPnl,
    RearmActive,
    RearmStart(Vec<StrategyId>),
    IdlePnl,
    TripReducing(Cause),
    ExitIds(Cause),
    ExitRisk(Cause, Vec<StrategyId>),
    Exiting(Cause, Vec<StrategyId>),
    FlatVenue,
    FlatManaged(Vec<StrategyId>),
    StopIds,
    Stopping(Vec<StrategyId>),
    HaltSet,
    RetripPnl,
    ReleaseSet,
}

impl Phase {
    spec fn stage(self) -> Stage {
        match self {
            Phase::Ready => Stage::Ready,
            Phase::RollPnl => Stage::RollPnl,
            Phase::RearmActive => Stage::RearmActive,
            Phase::RearmStart(ids) => Stage::RearmStart(names(ids@)),
            Phase::IdlePnl => Stage::IdlePnl,
            Phase::TripReducing(cause) => Stage::TripReducing(cause),
            Phase::ExitIds(cause) => Stage::ExitIds(cause),
            Phase::ExitRisk(cause, ids) => Stage::ExitRisk(cause, names(ids@)),
            Phase::Exiting(cause, ids) => Stage::Exiting(cause, names(ids@)),
            Phase::FlatVenue => Stage::FlatVenue,
            Phase::FlatManaged(ids) => Stage::FlatManaged(names(ids@)),
            Phase::StopIds => Stage::StopIds,
            Phase::Stopping(ids) => Stage::Stopping(names(ids@)),
            Phase::HaltSet => Stage::HaltSet,
            Phase::RetripPnl => Stage::RetripPnl,
            Phase::ReleaseSet => Stage::ReleaseSet,
        }
    }
}

/// What the sidecar asks of the node.
#[derive(Debug)]
pub enum Request {
    /// Nothing: the check is over.
    Nothing,
    /// Report the PnL of a venue or account in the currency of the bounds.
    ReadPnl {
        /// The venue or account.
        scope: Scope,
        /// The currency of the bounds.
        currency: String,
        /// Whether to leave realized PnL out.
        unrealized_only: bool,
    },
    /// Set the trading state.
    SetTradingState(TradingState),
    /// List the registered strategies.
    ListStrategies,
    /// Count the open risk of a venue or account.
    CountVenueRisk(Scope),
    /// Count the open risk of each strategy.
    CountRisk {
        /// The venue or account.
        scope: Scope,
        /// The strategies.
        ids: Vec<StrategyId>,
    },
    /// Ask the strategies to exit.
    ExitStrategies {
        /// The strategies.
        ids: Vec<StrategyId>,
        /// Whether they are asked for the first time.
        initial: bool,
    },
    /// Ask the strategies to stop.
    StopStrategies(Vec<StrategyId>),
    /// Ask the strategies to start.
    StartStrategies(Vec<StrategyId>),
}

impl View for Request {
    type V = Demand;

    open spec fn view(&self) -> Demand {
        match *self {
            Request::Nothing => Demand::Nothing,
            Request::ReadPnl { scope, currency, unrealized_only } => Demand::ReadPnl {
                scope: scope@,
                currency: currency@,
                unrealized_only,
            },
            Request::SetTradingState(state) => Demand::SetTradingState(state),
            Request::ListStrategies => Demand::ListStrategies,
            Request::CountVenueRisk(scope) => Demand::CountVenueRisk(scope@),
            Request::CountRisk { scope, ids } => Demand::CountRisk {
                scope: scope@,
                ids: names(ids@),
            },
            Request::ExitStrategies { ids, initial } => Demand::ExitStrategies {
                ids: names(ids@),
                initial,
            },
            Request::StopStrategies(ids) => Demand::StopStrategies(names(ids@)),
            Request::StartStrategies(ids) => Demand::StartStrategies(names(ids@)),
        }
    }
}

/// What the node replies.
#[derive(Debug)]
pub enum Reply {
    /// The PnL in each currency, where it is known.
    Pnl(Option<Vec<PnlEntry>>),
    /// The request was carried out, or refused: the sidecar goes on either way.
    Done,
    /// The registered strategies.
    Strategies(Vec<StrategyId>),
    /// The open risk of each strategy that was asked about, or of the whole venue or account.
    Risk(Vec<OpenRisk>),
    /// What came of each stop.
    Stopped(Vec<StopOutcome>),
}

impl View for Reply {
    type V = Answer;

    open spec fn view(&self) -> Answer {
        match *self {
            Reply::Pnl(report) => Answer::Pnl(pnl_lines(report)),
            Reply::Done => Answer::Done,
            Reply::Strategies(ids) => Answer::Strategies(names(ids@)),
            Reply::Risk(risk) => Answer::Risk(risk@),
            Reply::Stopped(outcomes) => Answer::Stopped(outcomes@),
        }
    }
}

/// Sidecar that trips on account PnL and has every other strategy flattened.
///
/// Whoever runs it starts a check with [`UserPnL::begin_check`], carries out
/// [`UserPnL::request`] and hands back the reply with [`UserPnL::answer`], until there is nothing
/// left to do.
pub struct UserPnL {
    config: UserPnLConfig,
    own: StrategyId,
    attached: bool,
    state: UserPnLState,
    session_date: Option<CivilDate>,
    day_anchor_pnl: Option<Money>,
    awaits_anchor: bool,
    trip_bound: Option<TripBound>,
    trip_date: Option<CivilDate>,
    waiting_to_rearm: bool,
    stopped_for_halt: Vec<StrategyId>,
    flatten_started: Option<UnixNanos>,
    last_exit_request: Option<UnixNanos>,
    flatten_timed_out: bool,
    latched_halted: bool,
    warned_missing_pnl: bool,
    phase: Phase,
}

impl View for UserPnL {
    type V = Sidecar;

    closed spec fn view(&self) -> Sidecar {
        Sidecar {
            state: self.state,
            session_date: self.session_date,
            day_anchor_pnl: self.day_anchor_pnl,
            awaits_anchor: self.awaits_anchor,
            trip_bound: self.trip_bound,
            trip_date: self.trip_date,
            waiting_to_rearm: self.waiting_to_rearm,
            stopped_for_halt: names(self.stopped_for_halt@),
            flatten_started: self.flatten_started,
            last_exit_request: self.last_exit_request,
            flatten_timed_out: self.flatten_timed_out,
            latched_halted: self.latched_halted,
            warned_missing_pnl: self.warned_missing_pnl,
            stage: self.phase.stage(),
        }
    }
}

/// Milliseconds from one instant to a later one.
fn millis_between(since: UnixNanos, now: UnixNanos) -> (ms: u64)
    ensures
        ms == elapsed_ms(since, now),
{
    now.nanos.saturating_sub(since.nanos) / NANOS_PER_MILLI
}

/// An empty list of names.
fn no_ids() -> (ids: Vec<StrategyId>)
    ensures
        names(ids@) == Seq::<Seq<char>>::empty(),
{
    let ids: Vec<StrategyId> = Vec::new();
    assert(names(ids@) =~= Seq::empty());
    ids
}

impl UserPnL {
    /// What does not change between checks.
    pub closed spec fn setup(self) -> Setup {
        Setup { config: self.config@, own: self.own@, attached: self.attached }
    }

    /// What holds of the sidecar at all times: its configuration is valid, and its state is sound.
    pub open spec fn well_formed(self) -> bool {
        self.setup().config.valid() && self.setup().sound(self@)
    }

    /// Creates a sidecar from a valid configuration. `own` is its name on the node.
    pub fn try_new(config: UserPnLConfig, own: StrategyId) -> (result: Result<UserPnL, ConfigError>)
        ensures
            result is Ok <==> config@.valid(),
            result matches Ok(sidecar) ==> sidecar@ == fresh() && sidecar.setup() == (Setup {
                config: config@,
                own: own@,
                attached: false,
            }) && sidecar.well_formed(),
            result matches Err(e) ==> config@.fault() == Some(e@),
    {
        match config.validate() {
            Err(e) => Err(e),
            Ok(()) => Ok(UserPnL::new(config, own)),
        }
    }

    /// Creates a sidecar from a configuration that is known to be valid. `own` is its name on the
    /// node.
    pub fn new(config: UserPnLConfig, own: StrategyId) -> (sidecar: UserPnL)
        requires
            config@.valid(),
        ensures
            sidecar@ == fresh(),
            sidecar.setup() == (Setup { config: config@, own: own@, attached: false }),
            sidecar.well_formed(),
    {
        UserPnL {
            config,
            own,
            attached: false,
            state: UserPnLState::Idle,
            session_date: None,
            day_anchor_pnl: None,
            awaits_anchor: false,
            trip_bound: None,
            trip_date: None,
            waiting_to_rearm: false,
            stopped_for_halt: no_ids(),
            flatten_started: None,
            last_exit_request: None,
            flatten_timed_out: false,
            latched_halted: false,
            warned_missing_pnl: false,
            phase: Phase::Ready,
        }
    }

    /// Attaches a node that can exit, stop and start strategies and set the trading state.
    pub fn with_runtime(self) -> (sidecar: UserPnL)
        ensures
            sidecar@ == self@,
            sidecar.setup() == (Setup { attached: true, ..self.setup() }),
            self.well_formed() ==> sidecar.well_formed(),
    {
        proof {
            if self.well_formed() {
                law_attached_is_sound(self.setup(), self@);
            }
        }
        UserPnL { attached: true, ..self }
    }

    /// The latch of the kill switch.
    pub fn state(&self) -> (state: UserPnLState)
        ensures
            state == self@.state,
    {
        self.state
    }

    /// The UTC date of the current daily window.
    pub fn session_date(&self) -> (date: Option<CivilDate>)
        ensures
            date == self@.session_date,
    {
        self.session_date
    }

    /// Whether PnL has to come back inside the bounds before they can trip again.
    pub fn waiting_to_rearm(&self) -> (b: bool)
        ensures
            b == self@.waiting_to_rearm,
    {
        self.waiting_to_rearm
    }

    /// The bound that tripped last.
    pub fn trip_bound(&self) -> (bound: Option<TripBound>)
        ensures
            bound == self@.trip_bound,
    {
        self.trip_bound
    }

    /// The configuration.
    pub fn config(&self) -> (config: &UserPnLConfig)
        ensures
            config@ == self.setup().config,
    {
        &self.config
    }

    /// Whether the last PnL report was missing.
    pub fn warned_missing_pnl(&self) -> (b: bool)
        ensures
            b == self@.warned_missing_pnl,
    {
        self.warned_missing_pnl
    }

    /// Whether the flatten counts as stuck.
    pub fn flatten_timed_out(&self) -> (b: bool)
        ensures
            b == self@.flatten_timed_out,
    {
        self.flatten_timed_out
    }

    /// How often a check runs, in nanoseconds.
    pub fn timer_interval_ns(&self) -> (ns: u64)
        ensures
            ns == if self.setup().config.check_interval_ms == 0 {
                NANOS_PER_MILLI as int
            } else if self.setup().config.check_interval_ms * NANOS_PER_MILLI <= u64::MAX {
                self.setup().config.check_interval_ms * NANOS_PER_MILLI
            } else {
                u64::MAX as int
            },
    {
        let ms: u64 = self.config.check_interval_ms;
        if ms == 0 {
            NANOS_PER_MILLI
        } else {
            match ms.checked_mul(NANOS_PER_MILLI) {
                Some(ns) => ns,
                None => u64::MAX,
            }
        }
    }

    /// Whether a timer is the one that a check runs on.
    pub fn is_check_timer(name: &String) -> (b: bool)
        ensures
            b == (name@ == USER_PNL_TIMER@),
    {
        *name == USER_PNL_TIMER.to_owned()
    }

    /// Resets the latch when the sidecar is stopped. The daily window stays.
    pub fn on_stop(&mut self)
        ensures
            final(self)@ == reset(old(self)@),
            final(self).setup() == old(self).setup(),
            old(self).well_formed() ==> final(self).well_formed(),
    {
        self.state = UserPnLState::Idle;
        self.trip_bound = None;
        self.trip_date = None;
        self.waiting_to_rearm = false;
        self.stopped_for_halt = no_ids();
        self.flatten_started = None;
        self.last_exit_request = None;
        self.flatten_timed_out = false;
        self.latched_halted = false;
        self.phase = Phase::Ready;
    }

    /// The bound that a PnL trips.
    pub fn should_trip(&self, pnl: &Decimal) -> (bound: Option<TripBound>)
        ensures
            bound == self.setup().config.tripped(pnl@),
    {
        proof {
            use_type_invariant(pnl);
        }
        if let Some(max_loss) = &self.config.max_loss {
            proof {
                use_type_invariant(max_loss);
            }
            if decimal_le(pnl, max_loss) {
                return Some(TripBound::MaxLoss);
            }
        }
        if let Some(max_profit) = &self.config.max_profit {
            proof {
                use_type_invariant(max_profit);
            }
            if decimal_le(max_profit, pnl) {
                return Some(TripBound::MaxProfit);
            }
        }
        None
    }

    /// Whether a PnL is strictly inside the bounds.
    pub fn inside_band(&self, pnl: &Decimal) -> (b: bool)
        ensures
            b == self.setup().config.inside(pnl@),
    {
        proof {
            use_type_invariant(pnl);
        }
        let above_loss = match &self.config.max_loss {
            Some(max_loss) => {
                proof {
                    use_type_invariant(max_loss);
                }
                !decimal_le(pnl, max_loss)
            },
            None => true,
        };
        let below_profit = match &self.config.max_profit {
            Some(max_profit) => {
                proof {
                    use_type_invariant(max_profit);
                }
                !decimal_le(max_profit, pnl)
            },
            None => true,
        };
        above_loss && below_profit
    }

    fn halt_day_for_bound(&self, bound: TripBound) -> (b: bool)
        ensures
            b == self.setup().config.halts_on(bound),
    {
        match bound {
            TripBound::MaxLoss => self.config.halt_day_on_max_loss,
            TripBound::MaxProfit => self.config.halt_day_on_max_profit,
        }
    }

    /// Whether a flatten ends in a later daily window than the one in which it was tripped.
    fn flatten_crossed_into_new_day(&self, now: UnixNanos) -> (b: bool)
        ensures
            b == self.setup().crossed(self@, now),
    {
        if !self.config.reset_daily {
            return false;
        }
        let today = utc_date(now);
        match self.trip_date {
            Some(date) => date != today,
            None => true,
        }
    }

    /// Whether a flatten that ends now halts trading.
    fn should_halt_after_flatten(&self, now: UnixNanos) -> (b: bool)
        ensures
            b == self.setup().halts(self@, now),
    {
        let halt_configured = match self.trip_bound {
            Some(bound) => self.halt_day_for_bound(bound),
            None => true,
        };
        halt_configured && !self.flatten_crossed_into_new_day(now)
    }

    /// Whether exits are to be asked for again.
    fn should_redrive_exits(&self, now: UnixNanos) -> (b: bool)
        ensures
            b == self.setup().redrives(self@, now),
    {
        match self.last_exit_request {
            Some(last) => millis_between(last, now) >= self.config.flatten_redrive_ms,
            None => true,
        }
    }

    /// The managed strategies other than the sidecar.
    fn managed_candidates(&self) -> (ids: Vec<StrategyId>)
        ensures
            names(ids@) == self.setup().candidates(self.setup().config.managed),
    {
        candidates(&self.config.managed_strategy_ids, &self.own, &self.config.strategy_id)
    }

    /// Starts a check, unless one is running.
    pub fn begin_check(&mut self, now: UnixNanos)
        ensures
            final(self)@ == old(self).setup().begun(old(self)@, now),
            final(self).setup() == old(self).setup(),
            old(self).well_formed() ==> final(self).well_formed(),
    {
        proof {
            if self.well_formed() {
                law_begun_is_sound(self.setup(), self@, now);
            }
        }
        if !matches!(self.phase, Phase::Ready) {
            return;
        }
        if !self.config.reset_daily {
            self.check(now);
            return;
        }
        let today = utc_date(now);
        match self.session_date {
            None => {
                self.session_date = Some(today);
                self.check(now);
            },
            Some(date) => {
                if date == today {
                    self.check(now);
                } else {
                    self.session_date = Some(today);
                    self.phase = Phase::RollPnl;
                }
            },
        }
    }

    /// Goes on with the check once the daily window is up to date.
    fn check(&mut self, now: UnixNanos)
        ensures
            final(self)@ == old(self).setup().checked(old(self)@, now),
            final(self).setup() == old(self).setup(),
    {
        match self.state {
            UserPnLState::Idle => {
                self.phase = Phase::IdlePnl;
            },
            UserPnLState::Flattening => {
                self.on_flattening(now);
            },
            UserPnLState::Halted => {
                self.phase = Phase::Ready;
            },
        }
    }

    /// Re-arms the sidecar for a new daily window.
    fn roll_day(&mut self, now: UnixNanos)
        ensures
            final(self)@ == old(self).setup().rolled(old(self)@, now),
            final(self).setup() == old(self).setup(),
    {
        if self.state == UserPnLState::Flattening || (self.state == UserPnLState::Idle
            && self.stopped_for_halt.len() == 0) {
            self.check(now);
            return;
        }
        let restore_active = self.latched_halted;
        self.state = UserPnLState::Idle;
        self.trip_bound = None;
        self.trip_date = None;
        self.waiting_to_rearm = false;
        self.flatten_started = None;
        self.last_exit_request = None;
        self.flatten_timed_out = false;
        self.latched_halted = false;
        if !self.attached {
            self.stopped_for_halt = no_ids();
            self.check(now);
        } else if restore_active {
            self.phase = Phase::RearmActive;
        } else {
            self.restart_stopped(now);
        }
    }

    /// Has the strategies started that a halt stopped.
    fn restart_stopped(&mut self, now: UnixNanos)
        ensures
            final(self)@ == old(self).setup().restarted(old(self)@, now),
            final(self).setup() == old(self).setup(),
    {
        if self.stopped_for_halt.len() == 0 {
            self.check(now);
        } else {
            let ids = copy_ids(&self.stopped_for_halt);
            self.stopped_for_halt = no_ids();
            self.phase = Phase::RearmStart(ids);
        }
    }

    /// Trips a bound.
    fn trip(&mut self, bound: TripBound, now: UnixNanos, cause: Cause)
        ensures
            final(self)@ == old(self).setup().trip(old(self)@, bound, now, cause),
            final(self).setup() == old(self).setup(),
    {
        self.state = UserPnLState::Flattening;
        self.trip_bound = Some(bound);
        self.trip_date = Some(utc_date(now));
        self.waiting_to_rearm = false;
        self.flatten_started = Some(now);
        self.flatten_timed_out = false;
        if self.attached {
            self.phase = Phase::TripReducing(cause);
        } else {
            self.after_exits(now, cause);
        }
    }

    /// Asks for exits.
    fn request_exits(&mut self, now: UnixNanos, cause: Cause)
        ensures
            final(self)@ == old(self).setup().exits_wanted(old(self)@, now, cause),
            final(self).setup() == old(self).setup(),
    {
        if self.config.managed_strategy_ids.len() == 0 {
            self.phase = Phase::ExitIds(cause);
        } else {
            let ids = self.managed_candidates();
            self.exit_among(now, cause, ids);
        }
    }

    /// Asks those of the strategies to exit that are not flat.
    fn exit_among(&mut self, now: UnixNanos, cause: Cause, ids: Vec<StrategyId>)
        ensures
            final(self)@ == old(self).setup().exits_among(old(self)@, now, cause, names(ids@)),
            final(self).setup() == old(self).setup(),
    {
        if self.config.skip_flat_strategies && ids.len() > 0 {
            self.phase = Phase::ExitRisk(cause, ids);
        } else {
            self.exit(now, cause, ids);
        }
    }

    /// Asks the strategies to exit.
    fn exit(&mut self, now: UnixNanos, cause: Cause, ids: Vec<StrategyId>)
        ensures
            final(self)@ == old(self).setup().exits_of(old(self)@, now, cause, names(ids@)),
            final(self).setup() == old(self).setup(),
    {
        if ids.len() > 0 {
            self.phase = Phase::Exiting(cause, ids);
        } else {
            self.exits_asked(now, cause);
        }
    }

    /// Notes that the strategies were asked to exit.
    fn exits_asked(&mut self, now: UnixNanos, cause: Cause)
        ensures
            final(self)@ == old(self).setup().exits_asked(old(self)@, now, cause),
            final(self).setup() == old(self).setup(),
    {
        self.last_exit_request = Some(now);
        self.after_exits(now, cause);
    }

    /// Goes on after the exits.
    fn after_exits(&mut self, now: UnixNanos, cause: Cause)
        ensures
            final(self)@ == old(self).setup().exits_over(old(self)@, now, cause),
            final(self).setup() == old(self).setup(),
    {
        match cause {
            Cause::Trip => {
                self.check_flat(now);
            },
            Cause::Redrive => {
                self.maybe_timeout_flatten(now);
                self.check_flat(now);
            },
            Cause::Retrip => {
                self.settle(now);
            },
        }
    }

    /// Marks a flatten that runs too long as stuck.
    fn maybe_timeout_flatten(&mut self, now: UnixNanos)
        ensures
            final(self)@ == old(self).setup().timed_out(old(self)@, now),
            final(self).setup() == old(self).setup(),
    {
        if let Some(started) = self.flatten_started {
            if millis_between(started, now) >= self.config.flatten_timeout_ms {
                self.flatten_timed_out = true;
            }
        }
    }

    /// Goes on with a flatten.
    fn on_flattening(&mut self, now: UnixNanos)
        ensures
            final(self)@ == old(self).setup().flattening(old(self)@, now),
            final(self).setup() == old(self).setup(),
    {
        if self.should_redrive_exits(now) && self.attached {
            self.request_exits(now, Cause::Redrive);
        } else {
            self.after_exits(now, Cause::Redrive);
        }
    }

    /// Asks whether anything is still open.
    fn check_flat(&mut self, now: UnixNanos)
        ensures
            final(self)@ == old(self).setup().flat_wanted(old(self)@, now),
            final(self).setup() == old(self).setup(),
    {
        if self.config.managed_strategy_ids.len() == 0 {
            self.phase = Phase::FlatVenue;
        } else {
            let ids = self.managed_candidates();
            if ids.len() > 0 {
                self.phase = Phase::FlatManaged(ids);
            } else {
                self.finish_flat(now);
            }
        }
    }

    /// Ends a flatten: nothing is open any more.
    fn finish_flat(&mut self, now: UnixNanos)
        ensures
            final(self)@ == old(self).setup().flat(old(self)@, now),
            final(self).setup() == old(self).setup(),
    {
        if self.should_halt_after_flatten(now) {
            self.stop_managed_strategies();
        } else if self.flatten_crossed_into_new_day(now) {
            // Closing the residual realizes into the new day, so its window may already be past a
            // bound. That is looked at before trading is allowed again.
            self.phase = Phase::RetripPnl;
        } else {
            self.release_active_after_flatten(now);
        }
    }

    /// Ends a flatten that was tripped with nothing open.
    fn settle(&mut self, now: UnixNanos)
        ensures
            final(self)@ == old(self).setup().settled(old(self)@, now),
            final(self).setup() == old(self).setup(),
    {
        if self.should_halt_after_flatten(now) {
            self.stop_managed_strategies();
        } else {
            self.release_active_after_flatten(now);
        }
    }

    /// Has the strategies stopped.
    fn stop_managed_strategies(&mut self)
        ensures
            final(self)@ == old(self).setup().stops_wanted(old(self)@),
            final(self).setup() == old(self).setup(),
    {
        if !self.attached {
            self.latch_halted_after_flatten();
            return;
        }
        self.stopped_for_halt = no_ids();
        if self.config.managed_strategy_ids.len() == 0 {
            self.phase = Phase::StopIds;
        } else {
            let ids = self.managed_candidates();
            self.stop(ids);
        }
    }

    /// Has these strategies stopped.
    fn stop(&mut self, ids: Vec<StrategyId>)
        ensures
            final(self)@ == old(self).setup().stops_of(old(self)@, names(ids@)),
            final(self).setup() == old(self).setup(),
    {
        if ids.len() > 0 {
            self.phase = Phase::Stopping(ids);
        } else {
            self.latch_halted_after_flatten();
        }
    }

    /// Has trading halted.
    fn latch_halted_after_flatten(&mut self)
        ensures
            final(self)@ == old(self).setup().halted(old(self)@),
            final(self).setup() == old(self).setup(),
    {
        self.state = UserPnLState::Halted;
        self.latched_halted = true;
        self.flatten_started = None;
        self.last_exit_request = None;
        self.flatten_timed_out = false;
        if self.attached {
            self.phase = Phase::HaltSet;
        } else {
            self.phase = Phase::Ready;
        }
    }

    /// Has trading active again.
    fn release_active_after_flatten(&mut self, now: UnixNanos)
        ensures
            final(self)@ == old(self).setup().released(old(self)@, now),
            final(self).setup() == old(self).setup(),
    {
        // The same window does not trip again at once. A new UTC day stays armed: what closing the
        // residual realized past a bound belongs to it.
        let crossed = self.flatten_crossed_into_new_day(now);
        self.state = UserPnLState::Idle;
        self.waiting_to_rearm = !crossed;
        self.flatten_started = None;
        self.last_exit_request = None;
        self.flatten_timed_out = false;
        if self.attached {
            self.phase = Phase::ReleaseSet;
        } else {
            self.phase = Phase::Ready;
        }
    }

    /// What a report says of the PnL that is compared with the bounds.
    pub fn watched_pnl(&self, report: &Option<Vec<PnlEntry>>) -> (pnl: Option<Decimal>)
        ensures
            match self.setup().total(pnl_lines(*report)) {
                Some(total) => pnl matches Some(pnl) && pnl@ == self.setup().watched(self@, total),
                None => pnl is None,
            },
    {
        match account_pnl(report, &self.config.currency) {
            Some(total) => {
                let anchor = if self.awaits_anchor { Some(total) } else { self.day_anchor_pnl };
                Some(watched_pnl(&total, self.config.reset_daily, &anchor))
            },
            None => None,
        }
    }

    /// Notes a report: a missing one is remembered, and a window that awaits its anchor takes it.
    fn note(&mut self, report: &Option<Vec<PnlEntry>>)
        ensures
            final(self)@ == old(self).setup().noted(old(self)@, pnl_lines(*report)),
            final(self).setup() == old(self).setup(),
    {
        self.warned_missing_pnl = report.is_none();
        if self.awaits_anchor {
            if let Some(total) = account_pnl(report, &self.config.currency) {
                self.day_anchor_pnl = Some(total);
                self.awaits_anchor = false;
            }
        }
    }

    /// Compares a report with the bounds while the sidecar is idle.
    fn sample(&mut self, now: UnixNanos, report: Option<Vec<PnlEntry>>)
        ensures
            final(self)@ == old(self).setup().sampled(old(self)@, now, pnl_lines(report)),
            final(self).setup() == old(self).setup(),
    {
        let watched = self.watched_pnl(&report);
        self.note(&report);
        let pnl = match watched {
            Some(pnl) => pnl,
            None => {
                self.phase = Phase::Ready;
                return;
            },
        };
        if self.waiting_to_rearm && !self.inside_band(&pnl) {
            self.phase = Phase::Ready;
            return;
        }
        self.waiting_to_rearm = false;
        match self.should_trip(&pnl) {
            Some(bound) => {
                self.trip(bound, now, Cause::Trip);
            },
            None => {
                self.phase = Phase::Ready;
            },
        }
    }

    /// Compares a report with the bounds when a flatten ended on a new day.
    fn resample(&mut self, now: UnixNanos, report: Option<Vec<PnlEntry>>)
        ensures
            final(self)@ == old(self).setup().resampled(old(self)@, now, pnl_lines(report)),
            final(self).setup() == old(self).setup(),
    {
        let watched = self.watched_pnl(&report);
        self.note(&report);
        let bound = match watched {
            Some(pnl) => self.should_trip(&pnl),
            None => None,
        };
        match bound {
            Some(bound) => {
                self.trip(bound, now, Cause::Retrip);
            },
            None => {
                self.release_active_after_flatten(now);
            },
        }
    }

    /// What the sidecar asks of the node.
    pub fn request(&self) -> (request: Request)
        ensures
            request@ == self.setup().demand(self@.stage),
    {
        match &self.phase {
            Phase::Ready => Request::Nothing,
            Phase::RollPnl | Phase::IdlePnl | Phase::RetripPnl => Request::ReadPnl {
                scope: self.config.scope(),
                currency: self.config.currency.clone(),
                unrealized_only: self.config.use_unrealized_only,
            },
            Phase::RearmActive | Phase::ReleaseSet => Request::SetTradingState(
                TradingState::Active,
            ),
            Phase::RearmStart(ids) => Request::StartStrategies(copy_ids(ids)),
            Phase::TripReducing(_) => Request::SetTradingState(TradingState::Reducing),
            Phase::ExitIds(_) | Phase::StopIds => Request::ListStrategies,
            Phase::ExitRisk(_, ids) => Request::CountRisk {
                scope: self.config.scope(),
                ids: copy_ids(ids),
            },
            Phase::Exiting(cause, ids) => Request::ExitStrategies {
                ids: copy_ids(ids),
                initial: *cause != Cause::Redrive,
            },
            Phase::FlatVenue => Request::CountVenueRisk(self.config.scope()),
            Phase::FlatManaged(ids) => Request::CountRisk {
                scope: self.config.scope(),
                ids: copy_ids(ids),
            },
            Phase::Stopping(ids) => Request::StopStrategies(copy_ids(ids)),
            Phase::HaltSet => Request::SetTradingState(TradingState::Halted),
        }
    }

    /// Takes the reply to the request. A reply that does not fit changes nothing.
    pub fn answer(&mut self, now: UnixNanos, reply: Reply)
        ensures
            final(self)@ == old(self).setup().answered(old(self)@, now, reply@),
            final(self).setup() == old(self).setup(),
            old(self).well_formed() ==> final(self).well_formed(),
    {
        proof {
            if self.well_formed() {
                law_answered_is_sound(self.setup(), self@, now, reply@);
            }
        }
        match reply {
            Reply::Pnl(report) => {
                self.answer_pnl(now, report);
            },
            Reply::Done => {
                self.answer_done(now);
            },
            Reply::Strategies(source) => {
                self.answer_strategies(now, source);
            },
            Reply::Risk(risk) => {
                self.answer_risk(now, risk);
            },
            Reply::Stopped(outcomes) => {
                self.answer_stopped(outcomes);
            },
        }
    }

    fn answer_pnl(&mut self, now: UnixNanos, report: Option<Vec<PnlEntry>>)
        ensures
            final(self)@ == old(self).setup().answered(
                old(self)@,
                now,
                Answer::Pnl(pnl_lines(report)),
            ),
            final(self).setup() == old(self).setup(),
    {
        match &self.phase {
            Phase::RollPnl => {
                self.warned_missing_pnl = report.is_none();
                self.day_anchor_pnl = account_pnl(&report, &self.config.currency);
                self.awaits_anchor = self.day_anchor_pnl.is_none();
                self.roll_day(now);
            },
            Phase::IdlePnl => {
                self.sample(now, report);
            },
            Phase::RetripPnl => {
                self.resample(now, report);
            },
            _ => {},
        }
    }

    fn answer_done(&mut self, now: UnixNanos)
        ensures
            final(self)@ == old(self).setup().answered(old(self)@, now, Answer::Done),
            final(self).setup() == old(self).setup(),
    {
        match &self.phase {
            Phase::RearmActive => {
                self.restart_stopped(now);
            },
            Phase::RearmStart(_) => {
                self.check(now);
            },
            Phase::TripReducing(cause) => {
                let cause = *cause;
                self.request_exits(now, cause);
            },
            Phase::Exiting(cause, _) => {
                let cause = *cause;
                self.exits_asked(now, cause);
            },
            Phase::HaltSet | Phase::ReleaseSet => {
                self.phase = Phase::Ready;
            },
            _ => {},
        }
    }

    fn answer_strategies(&mut self, now: UnixNanos, source: Vec<StrategyId>)
        ensures
            final(self)@ == old(self).setup().answered(
                old(self)@,
                now,
                Answer::Strategies(names(source@)),
            ),
            final(self).setup() == old(self).setup(),
    {
        match &self.phase {
            Phase::ExitIds(cause) => {
                let cause = *cause;
                let ids = candidates(&source, &self.own, &self.config.strategy_id);
                self.exit_among(now, cause, ids);
            },
            Phase::StopIds => {
                let ids = candidates(&source, &self.own, &self.config.strategy_id);
                self.stop(ids);
            },
            _ => {},
        }
    }

    fn answer_risk(&mut self, now: UnixNanos, risk: Vec<OpenRisk>)
        ensures
            final(self)@ == old(self).setup().answered(old(self)@, now, Answer::Risk(risk@)),
            final(self).setup() == old(self).setup(),
    {
        match &self.phase {
            Phase::ExitRisk(cause, ids) => {
                if risk.len() == ids.len() {
                    let cause = *cause;
                    let chosen = pick_at_risk(ids, &risk);
                    self.exit(now, cause, chosen);
                }
            },
            Phase::FlatVenue => {
                if risk.len() == 1 {
                    self.take_flat_answer(now, &risk);
                }
            },
            Phase::FlatManaged(ids) => {
                if risk.len() == ids.len() {
                    self.take_flat_answer(now, &risk);
                }
            },
            _ => {},
        }
    }

    fn take_flat_answer(&mut self, now: UnixNanos, risk: &Vec<OpenRisk>)
        ensures
            final(self)@ == (if all_flat(risk@) {
                old(self).setup().flat(old(self)@, now)
            } else {
                Sidecar { stage: Stage::Ready, ..old(self)@ }
            }),
            final(self).setup() == old(self).setup(),
    {
        if is_all_flat(risk) {
            self.finish_flat(now);
        } else {
            self.phase = Phase::Ready;
        }
    }

    fn answer_stopped(&mut self, outcomes: Vec<StopOutcome>)
        ensures
            forall|now: UnixNanos|
                final(self)@ == #[trigger] old(self).setup().answered(
                    old(self)@,
                    now,
                    Answer::Stopped(outcomes@),
                ),
            final(self).setup() == old(self).setup(),
    {
        match &self.phase {
            Phase::Stopping(ids) => {
                if outcomes.len() == ids.len() {
                    self.stopped_for_halt = pick_stopped(ids, &outcomes);
                    self.latch_halted_after_flatten();
                }
            },
            _ => {},
        }
    }
}

} // verus!
