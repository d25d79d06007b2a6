//! The account PnL sidecar, run against a simulated node.

use std::collections::BTreeMap;

use option_desk::calendar::{utc_date, CivilDate};
use option_desk::decimal::Decimal;
use option_desk::fixed::{Money, UnixNanos};
use option_desk::strategy_id::StrategyId;
use option_desk::user_pnl::config::{ConfigError, UserPnLConfig};
use option_desk::user_pnl::inputs::{
    account_pnl, candidates, is_all_flat, watched_pnl, OpenRisk, PnlEntry, StopOutcome,
};
use option_desk::user_pnl::kernel::{needs_start, stop_outcome, ComponentState, StartError};
use option_desk::user_pnl::machine::{Reply, Request, UserPnL};
use option_desk::user_pnl::model::{TradingState, TripBound, UserPnLState};

const MILLI: u64 = 1_000_000;
const SECOND: u64 = 1_000 * MILLI;
const DAY: u64 = 24 * 60 * 60 * SECOND;

fn decimal(value: i64) -> Decimal {
    Decimal::new(value as i128, 0).unwrap()
}

fn usdt(value: i64) -> Money {
    Money::from_raw(value * 1_000_000_000, 8)
}

fn id(name: &str) -> StrategyId {
    StrategyId::new(name)
}

fn mm() -> &'static str {
    "MM-001"
}

fn grid() -> &'static str {
    "GRID-001"
}

fn user_pnl_id() -> &'static str {
    "USER_PNL-001"
}

fn bare_config() -> UserPnLConfig {
    UserPnLConfig::new("BINANCE", "USDT")
}

fn config() -> UserPnLConfig {
    let mut config = bare_config();
    config.max_loss = Some(decimal(-10_000));
    config
}

/// Asks flat strategies to exit too.
fn asking_all(mut config: UserPnLConfig) -> UserPnLConfig {
    config.skip_flat_strategies = false;
    config
}

#[derive(Clone, Copy)]
struct Position {
    pnl: i64,
    open: bool,
}

/// A node that carries out what the sidecar asks for.
struct Harness {
    sidecar: UserPnL,
    now: u64,
    registered: Vec<&'static str>,
    positions: BTreeMap<String, Position>,
    live_orders: usize,
    convertible: bool,
    outcome: StopOutcome,
    exits: Vec<String>,
    first_exits: usize,
    stops: Vec<String>,
    starts: Vec<String>,
    states: Vec<TradingState>,
    log: Vec<String>,
    scopes: Vec<(String, Option<String>)>,
}

fn make_strategy(registered: Vec<&'static str>, config: UserPnLConfig) -> Harness {
    Harness {
        sidecar: UserPnL::try_new(config, id(user_pnl_id()))
            .unwrap_or_else(|e| panic!("{}", e.message()))
            .with_runtime(),
        now: 0,
        registered,
        positions: BTreeMap::new(),
        live_orders: 0,
        convertible: true,
        outcome: StopOutcome::Stopped,
        exits: Vec::new(),
        first_exits: 0,
        stops: Vec::new(),
        starts: Vec::new(),
        states: Vec::new(),
        log: Vec::new(),
        scopes: Vec::new(),
    }
}

fn named(ids: &[StrategyId]) -> Vec<String> {
    ids.iter().map(|id| id.name.clone()).collect()
}

impl Harness {
    /// Noon on a day of January 2024.
    fn set_date(&mut self, day: u64) {
        let start_of_2024: u64 = 1_704_067_200;
        self.now = start_of_2024 * SECOND + (day - 1) * DAY + DAY / 2;
    }

    fn advance_ms(&mut self, ms: u64) {
        self.now += ms * MILLI;
    }

    fn add_realized_pnl(&mut self, strategy: &str, pnl: i64, keep_open: bool) {
        self.positions.insert(
            strategy.to_string(),
            Position {
                pnl,
                open: keep_open,
            },
        );
    }

    fn close_open_risk(&mut self, strategy: &str) {
        self.add_realized_pnl(strategy, -10_000, false);
    }

    fn update_realized_pnl(&mut self, strategy: &str, pnl: i64) {
        self.positions.get_mut(strategy).unwrap().pnl = pnl;
    }

    fn report(&self) -> Option<Vec<PnlEntry>> {
        if self.positions.is_empty() {
            return Some(Vec::new());
        }
        if !self.convertible {
            return None;
        }
        let total = self.positions.values().map(|p| p.pnl).sum();
        Some(vec![PnlEntry {
            currency: "USDT".to_string(),
            amount: usdt(total),
        }])
    }

    fn risk_of(&self, strategy: &str) -> OpenRisk {
        let open = self.positions.get(strategy).is_some_and(|p| p.open);
        OpenRisk {
            positions: usize::from(open),
            open_orders: 0,
            inflight: 0,
        }
    }

    fn venue_risk(&self) -> OpenRisk {
        OpenRisk {
            positions: self.positions.values().filter(|p| p.open).count(),
            open_orders: self.live_orders,
            inflight: 0,
        }
    }

    fn perform(&mut self, request: Request) -> Option<Reply> {
        let text = format!("{request:?}");
        self.log
            .push(text.split([' ', '{']).next().unwrap().replace("(Scope", ""));
        match request {
            Request::Nothing => None,
            Request::ReadPnl {
                scope,
                currency,
                unrealized_only,
            } => {
                assert!(!unrealized_only);
                assert_eq!(currency, self.sidecar.config().currency);
                self.scopes.push((scope.venue, scope.account_id));
                Some(Reply::Pnl(self.report()))
            }
            Request::SetTradingState(state) => {
                self.states.push(state);
                Some(Reply::Done)
            }
            Request::ListStrategies => Some(Reply::Strategies(
                self.registered.iter().map(|name| id(name)).collect(),
            )),
            Request::CountVenueRisk(scope) => {
                self.scopes.push((scope.venue, scope.account_id));
                Some(Reply::Risk(vec![self.venue_risk()]))
            }
            Request::CountRisk { scope, ids } => {
                self.scopes.push((scope.venue, scope.account_id));
                Some(Reply::Risk(
                    ids.iter().map(|id| self.risk_of(&id.name)).collect(),
                ))
            }
            Request::ExitStrategies { ids, initial } => {
                self.exits.extend(named(&ids));
                self.first_exits += usize::from(initial);
                Some(Reply::Done)
            }
            Request::StopStrategies(ids) => {
                self.stops.extend(named(&ids));
                Some(Reply::Stopped(vec![self.outcome; ids.len()]))
            }
            Request::StartStrategies(ids) => {
                self.starts.extend(named(&ids));
                Some(Reply::Done)
            }
        }
    }

    fn on_check(&mut self) {
        let now = UnixNanos::new(self.now);
        self.sidecar.begin_check(now);
        let mut steps = 0;
        loop {
            let request = self.sidecar.request();
            match self.perform(request) {
                Some(reply) => self.sidecar.answer(now, reply),
                None => return,
            }
            steps += 1;
            assert!(steps <= 17);
        }
    }
}

fn fault_of(config: &UserPnLConfig) -> ConfigError {
    config.validate().unwrap_err()
}

#[test]
fn test_validate_requires_at_least_one_bound() {
    let config = bare_config();
    let err = fault_of(&config);
    assert!(err.message().contains("at least one"));
    assert!(matches!(err, ConfigError::MissingBound));
    assert!(UserPnL::try_new(config, id(user_pnl_id())).is_err());
}

#[test]
fn test_validate_rejects_positive_max_loss() {
    let mut config = bare_config();
    config.max_loss = Some(decimal(10_000));
    let err = fault_of(&config);
    assert!(err.message().contains("max_loss"));
    assert_eq!(
        err.message(),
        "max_loss must be less than or equal to 0, was 10000"
    );
}

#[test]
fn test_validate_rejects_negative_max_profit() {
    let mut config = bare_config();
    config.max_profit = Some(Decimal::new(-100_005, 1).unwrap());
    let err = fault_of(&config);
    assert_eq!(
        err.message(),
        "max_profit must be greater than or equal to 0, was -10000.5"
    );

    config.max_profit = Some(decimal(-10_000));
    assert!(fault_of(&config).message().contains("max_profit"));
}

#[test]
fn test_validate_rejects_unrealized_with_reset_daily() {
    let mut config = config();
    config.use_unrealized_only = true;
    config.reset_daily = true;
    let err = fault_of(&config);
    assert!(err.message().contains("use_unrealized_only"));
    assert_eq!(
        err.message(),
        "use_unrealized_only cannot be combined with reset_daily; unrealized PnL is a mark, not \
         a running total"
    );
}

#[test]
fn test_validate_rejects_zero_check_interval() {
    let mut config = config();
    config.check_interval_ms = 0;
    let err = fault_of(&config);
    assert_eq!(err.message(), "check_interval_ms must be greater than 0");
}

#[test]
fn test_validate_rejects_redrive_below_check_interval() {
    let mut config = config();
    config.check_interval_ms = 1_000;
    config.flatten_redrive_ms = 500;
    let err = fault_of(&config);
    assert!(err.message().contains("flatten_redrive_ms"));
    assert_eq!(
        err.message(),
        "flatten_redrive_ms (500) must be greater than or equal to check_interval_ms (1000)"
    );
}

#[test]
fn test_validate_rejects_timeout_below_redrive() {
    let mut config = config();
    config.flatten_redrive_ms = 10_000;
    config.flatten_timeout_ms = 5_000;
    let err = fault_of(&config);
    assert!(err.message().contains("flatten_timeout_ms"));
    assert_eq!(
        err.message(),
        "flatten_timeout_ms (5000) must be greater than or equal to flatten_redrive_ms (10000)"
    );
}

#[test]
fn test_custom_flatten_intervals_drive_redrive_and_timeout() {
    let mut config = asking_all(config());
    config.flatten_redrive_ms = 1_000;
    config.flatten_timeout_ms = 2_000;
    let mut h = make_strategy(vec![mm()], config);
    h.add_realized_pnl(mm(), -20_000, true);
    h.on_check();
    assert_eq!(h.exits.len(), 1);

    // Below the configured interval there is no second exit.
    h.advance_ms(999);
    h.on_check();
    assert_eq!(h.exits.len(), 1);

    h.advance_ms(1);
    h.on_check();
    assert_eq!(h.exits.len(), 2);
    assert!(!h.sidecar.flatten_timed_out());

    // Past the configured timeout trading stays reduced while there is open risk.
    h.advance_ms(1_000);
    h.on_check();
    assert_eq!(h.sidecar.state(), UserPnLState::Flattening);
    assert_eq!(h.states, vec![TradingState::Reducing]);
    assert!(h.stops.is_empty());
    assert!(h.sidecar.flatten_timed_out());
    assert_eq!(h.first_exits, 1);
}

#[test]
fn test_idle_does_not_trip_above_max_loss() {
    let mut h = make_strategy(vec![mm(), grid(), user_pnl_id()], config());
    h.add_realized_pnl(mm(), -9_999, false);
    h.on_check();

    assert_eq!(h.sidecar.state(), UserPnLState::Idle);
    assert!(h.exits.is_empty());
    assert!(h.stops.is_empty());
    assert!(h.states.is_empty());
}

#[test]
fn test_idle_does_not_trip_below_max_profit() {
    let mut config = asking_all(bare_config());
    config.max_profit = Some(decimal(10_000));
    config.reset_daily = false;
    let mut h = make_strategy(vec![mm()], config);
    h.add_realized_pnl(mm(), 9_999, true);
    h.on_check();

    assert_eq!(h.sidecar.state(), UserPnLState::Idle);
    assert!(h.exits.is_empty());
}

#[test]
fn test_trips_at_max_loss_sets_reducing_exits_stops_and_halted() {
    let mut h = make_strategy(vec![mm(), grid(), user_pnl_id()], asking_all(config()));
    h.add_realized_pnl(mm(), -10_000, false);
    h.on_check();

    assert_eq!(h.sidecar.state(), UserPnLState::Halted);
    assert_eq!(
        h.states,
        vec![TradingState::Reducing, TradingState::Halted]
    );
    assert_eq!(h.exits, vec![grid(), mm()]);
    assert_eq!(h.stops, vec![grid(), mm()]);
}

#[test]
fn test_trips_at_max_profit() {
    let mut config = asking_all(bare_config());
    config.max_profit = Some(decimal(10_000));
    config.reset_daily = false;
    let mut h = make_strategy(vec![mm(), user_pnl_id()], config);
    h.add_realized_pnl(mm(), 10_000, false);
    h.on_check();

    assert_eq!(h.sidecar.state(), UserPnLState::Halted);
    assert_eq!(h.exits, vec![mm()]);
    assert_eq!(h.stops, vec![mm()]);
}

#[test]
fn test_max_loss_wins_when_both_bounds_are_zero() {
    let mut config = asking_all(bare_config());
    config.max_loss = Some(Decimal::zero());
    config.max_profit = Some(Decimal::zero());
    config.halt_day_on_max_loss = true;
    config.halt_day_on_max_profit = false;
    config.reset_daily = false;
    let mut h = make_strategy(vec![mm()], config);
    h.on_check();

    assert_eq!(h.sidecar.state(), UserPnLState::Halted);
    assert_eq!(
        h.states,
        vec![TradingState::Reducing, TradingState::Halted]
    );
    assert_eq!(h.stops, vec![mm()]);
}

#[test]
fn test_does_not_exit_or_stop_itself() {
    let mut h = make_strategy(vec![mm(), user_pnl_id()], asking_all(config()));
    h.add_realized_pnl(mm(), -20_000, false);
    h.on_check();

    assert_eq!(h.exits, vec![mm()]);
    assert_eq!(h.stops, vec![mm()]);
}

#[test]
fn test_skip_flat_strategies_emits_no_exits_when_books_empty() {
    let mut h = make_strategy(vec![mm(), grid()], config());
    h.add_realized_pnl(mm(), -20_000, false);
    h.on_check();

    assert!(h.exits.is_empty());
    assert_eq!(h.sidecar.state(), UserPnLState::Halted);
    assert_eq!(h.stops, vec![grid(), mm()]);
}

#[test]
fn test_trips_once() {
    let mut h = make_strategy(vec![mm()], asking_all(config()));
    h.add_realized_pnl(mm(), -20_000, false);
    h.on_check();
    h.on_check();
    h.on_check();

    assert_eq!(h.exits.len(), 1);
    assert_eq!(h.stops.len(), 1);
    assert_eq!(
        h.states,
        vec![TradingState::Reducing, TradingState::Halted]
    );
}

#[test]
fn test_stays_flattening_until_account_empty() {
    let mut h = make_strategy(vec![mm()], asking_all(config()));
    h.add_realized_pnl(mm(), -20_000, true);
    h.on_check();

    assert_eq!(h.sidecar.state(), UserPnLState::Flattening);
    assert_eq!(h.states, vec![TradingState::Reducing]);
    assert_eq!(h.exits.len(), 1);
    assert!(h.stops.is_empty());

    h.close_open_risk(mm());
    h.on_check();

    assert_eq!(h.sidecar.state(), UserPnLState::Halted);
    assert_eq!(
        h.states,
        vec![TradingState::Reducing, TradingState::Halted]
    );
    assert_eq!(h.stops, vec![mm()]);
}

#[test]
fn test_flatten_redrives_exit_while_not_flat() {
    let mut h = make_strategy(vec![mm()], asking_all(config()));
    h.add_realized_pnl(mm(), -20_000, true);
    h.on_check();
    h.on_check();
    assert_eq!(h.exits.len(), 1);

    let redrive_ms = h.sidecar.config().flatten_redrive_ms;
    h.advance_ms(redrive_ms);
    h.on_check();

    assert_eq!(h.sidecar.state(), UserPnLState::Flattening);
    assert_eq!(h.exits.len(), 2);
}

#[test]
fn test_halt_day_false_returns_active_without_stop() {
    let mut config = asking_all(bare_config());
    config.max_profit = Some(decimal(10_000));
    config.halt_day_on_max_profit = false;
    config.reset_daily = false;
    let mut h = make_strategy(vec![mm()], config);
    h.add_realized_pnl(mm(), 10_000, false);
    h.on_check();

    assert_eq!(h.sidecar.state(), UserPnLState::Idle);
    assert_eq!(
        h.states,
        vec![TradingState::Reducing, TradingState::Active]
    );
    assert_eq!(h.exits, vec![mm()]);
    assert!(h.stops.is_empty());
}

#[test]
fn test_no_halt_does_not_retrip_until_pnl_recovers() {
    let mut config = asking_all(config());
    config.halt_day_on_max_loss = false;
    config.reset_daily = false;
    let mut h = make_strategy(vec![mm()], config);
    h.add_realized_pnl(mm(), -10_000, false);
    h.on_check();
    assert_eq!(h.exits.len(), 1);

    h.on_check();
    assert_eq!(h.exits.len(), 1);

    h.update_realized_pnl(mm(), -5_000);
    h.on_check();
    assert_eq!(h.exits.len(), 1);

    h.update_realized_pnl(mm(), -10_000);
    h.on_check();
    assert_eq!(h.exits.len(), 2);
}

#[test]
fn test_daily_reset_rearms_starts_and_trips_on_next_day_loss() {
    let mut h = make_strategy(vec![mm()], asking_all(config()));
    h.set_date(16);
    h.add_realized_pnl(mm(), -10_000, false);
    h.on_check();
    assert_eq!(h.sidecar.state(), UserPnLState::Halted);
    assert_eq!(h.exits.len(), 1);
    assert_eq!(h.stops, vec![mm()]);

    h.set_date(17);
    h.on_check();
    assert_eq!(h.sidecar.state(), UserPnLState::Idle);
    assert_eq!(h.starts, vec![mm()]);
    assert_eq!(
        h.states,
        vec![
            TradingState::Reducing,
            TradingState::Halted,
            TradingState::Active
        ]
    );

    h.on_check();
    assert_eq!(h.sidecar.state(), UserPnLState::Idle);
    assert_eq!(h.exits.len(), 1);

    h.update_realized_pnl(mm(), -20_000);
    h.on_check();
    assert_eq!(h.sidecar.state(), UserPnLState::Halted);
    assert_eq!(h.exits.len(), 2);
}

#[test]
fn test_reset_daily_false_stays_halted_across_days() {
    let mut config = asking_all(config());
    config.reset_daily = false;
    let mut h = make_strategy(vec![mm()], config);
    h.set_date(16);
    h.add_realized_pnl(mm(), -10_000, false);
    h.on_check();
    h.set_date(17);
    h.on_check();

    assert_eq!(h.sidecar.state(), UserPnLState::Halted);
    assert!(h.starts.is_empty());
    assert_eq!(
        h.states,
        vec![TradingState::Reducing, TradingState::Halted]
    );
}

#[test]
fn test_managed_allowlist_is_honored() {
    let mut config = asking_all(config());
    config.managed_strategy_ids = vec![id(grid())];
    let mut h = make_strategy(vec![mm(), grid()], config);
    h.add_realized_pnl(grid(), -20_000, true);
    h.on_check();

    assert_eq!(h.sidecar.state(), UserPnLState::Flattening);
    assert_eq!(h.exits, vec![grid()]);
    assert!(h.stops.is_empty());
}

#[test]
fn test_allowlist_flat_check_ignores_unmanaged_open_risk() {
    let mut config = asking_all(config());
    config.managed_strategy_ids = vec![id(grid())];
    let mut h = make_strategy(vec![mm(), grid()], config);
    h.add_realized_pnl(mm(), -20_000, true);
    h.add_realized_pnl(grid(), -20_000, false);
    h.on_check();

    assert_eq!(h.sidecar.state(), UserPnLState::Halted);
    assert_eq!(h.exits, vec![grid()]);
    assert_eq!(h.stops, vec![grid()]);
}

#[test]
fn test_flatten_timeout_keeps_reducing_without_halted() {
    let mut h = make_strategy(vec![mm()], asking_all(config()));
    h.add_realized_pnl(mm(), -20_000, true);
    h.on_check();
    assert_eq!(h.sidecar.state(), UserPnLState::Flattening);

    let timeout_ms = h.sidecar.config().flatten_timeout_ms;
    h.advance_ms(timeout_ms);
    h.on_check();

    assert_eq!(h.sidecar.state(), UserPnLState::Flattening);
    assert_eq!(h.states, vec![TradingState::Reducing]);
    assert!(h.stops.is_empty());
}

#[test]
fn test_day_roll_while_flattening_continues_until_flat() {
    let mut h = make_strategy(vec![mm()], asking_all(config()));
    h.set_date(16);
    h.add_realized_pnl(mm(), -20_000, true);
    h.on_check();
    assert_eq!(h.sidecar.state(), UserPnLState::Flattening);
    assert_eq!(h.states, vec![TradingState::Reducing]);
    assert_eq!(h.exits.len(), 1);

    h.set_date(17);
    h.on_check();

    assert_eq!(h.sidecar.state(), UserPnLState::Flattening);
    assert_eq!(h.states, vec![TradingState::Reducing]);
    assert!(h.starts.is_empty());
    assert!(h.stops.is_empty());
    assert_eq!(h.exits.len(), 2);

    h.close_open_risk(mm());
    h.on_check();

    assert_eq!(h.sidecar.state(), UserPnLState::Idle);
    assert_eq!(
        h.states,
        vec![TradingState::Reducing, TradingState::Active]
    );
    assert!(h.stops.is_empty());

    h.on_check();
    assert_eq!(h.sidecar.state(), UserPnLState::Idle);
    assert_eq!(h.exits.len(), 2);
}

#[test]
fn test_new_day_breach_halts_without_publishing_active() {
    let mut h = make_strategy(vec![mm()], asking_all(config()));
    h.set_date(16);
    h.add_realized_pnl(mm(), -20_000, true);
    h.on_check();
    assert_eq!(h.sidecar.state(), UserPnLState::Flattening);

    // The new day is counted from -20,000 while the flatten still runs.
    h.set_date(17);
    h.on_check();
    assert_eq!(h.sidecar.state(), UserPnLState::Flattening);

    // Closing the residual realizes -15,000 against the new day's anchor, so the new window is
    // past its bound at the moment at which the trip is released.
    h.close_open_risk(mm());
    h.update_realized_pnl(mm(), -35_000);
    h.on_check();

    assert_eq!(h.sidecar.state(), UserPnLState::Halted);
    assert_eq!(h.stops, vec![mm()]);
    assert_eq!(
        h.states,
        vec![
            TradingState::Reducing,
            TradingState::Reducing,
            TradingState::Halted
        ]
    );
    assert!(!h.states.contains(&TradingState::Active));
}

#[test]
fn test_run_long_no_halt_does_not_retrip_after_flatten_spans_midnight() {
    let mut config = asking_all(config());
    config.halt_day_on_max_loss = false;
    config.reset_daily = false;
    let mut h = make_strategy(vec![mm()], config);
    h.set_date(16);
    h.add_realized_pnl(mm(), -20_000, true);
    h.on_check();
    assert_eq!(h.sidecar.state(), UserPnLState::Flattening);

    h.set_date(17);
    h.on_check();
    assert_eq!(h.sidecar.state(), UserPnLState::Flattening);

    h.close_open_risk(mm());
    h.update_realized_pnl(mm(), -20_000);
    h.on_check();
    assert_eq!(h.sidecar.state(), UserPnLState::Idle);
    let exits_after_flatten = h.exits.len();

    // Without daily windows a date change is no fresh budget, so the run's total, which is still
    // past its bound, does not trip again.
    h.on_check();
    h.on_check();

    assert_eq!(h.sidecar.state(), UserPnLState::Idle);
    assert_eq!(h.exits.len(), exits_after_flatten);
}

#[test]
fn test_usd_currency_without_fx_does_not_trip() {
    let mut config = asking_all(config());
    config.currency = "USD".to_string();
    config.reset_daily = false;
    let mut h = make_strategy(vec![mm()], config);
    h.convertible = false;
    h.add_realized_pnl(mm(), -20_000, false);
    h.on_check();

    assert_eq!(h.sidecar.state(), UserPnLState::Idle);
    assert!(h.exits.is_empty());
    assert!(h.sidecar.warned_missing_pnl());
}

#[test]
fn test_on_start_sets_timer() {
    let sidecar = UserPnL::new(config(), id(user_pnl_id()));
    assert!(UserPnL::is_check_timer(&"user_pnl".to_string()));
    assert!(!UserPnL::is_check_timer(&"user_pnl_2".to_string()));
    assert_eq!(sidecar.timer_interval_ns(), 200 * MILLI);
}

#[test]
fn test_on_stop_resets_state() {
    let mut h = make_strategy(vec![mm()], asking_all(config()));
    h.add_realized_pnl(mm(), -20_000, false);
    h.on_check();
    assert_eq!(h.sidecar.state(), UserPnLState::Halted);

    h.sidecar.on_stop();
    assert_eq!(h.sidecar.state(), UserPnLState::Idle);
}

#[test]
fn test_trading_is_reduced_before_exits_and_halted_after_stops() {
    let mut h = make_strategy(vec![mm()], asking_all(config()));
    h.add_realized_pnl(mm(), -20_000, false);
    h.on_check();
    assert_eq!(
        h.log,
        vec![
            "ReadPnl",
            "SetTradingState(Reducing)",
            "ListStrategies",
            "ExitStrategies",
            "CountVenueRisk",
            "ListStrategies",
            "StopStrategies([StrategyId",
            "SetTradingState(Halted)",
            "Nothing"
        ]
    );
}

#[test]
fn test_a_quiet_check_reads_pnl_alone() {
    let mut h = make_strategy(vec![mm()], config());
    h.add_realized_pnl(mm(), -1, true);
    h.on_check();
    assert_eq!(h.log, vec!["ReadPnl", "Nothing"]);
}

#[test]
fn test_a_halted_check_asks_for_nothing() {
    let mut h = make_strategy(vec![mm()], config());
    h.add_realized_pnl(mm(), -20_000, false);
    h.on_check();
    h.log.clear();
    h.on_check();
    assert_eq!(h.log, vec!["Nothing"]);
}

#[test]
fn test_a_list_that_names_only_the_sidecar_is_flat_at_once() {
    let mut config = config();
    config.managed_strategy_ids = vec![id(user_pnl_id())];
    let mut h = make_strategy(vec![mm()], config);
    h.add_realized_pnl(mm(), -20_000, true);
    h.on_check();
    assert_eq!(h.sidecar.state(), UserPnLState::Halted);
    assert!(h.exits.is_empty());
    assert!(h.stops.is_empty());
}

#[test]
fn test_the_timer_interval_saturates() {
    let mut slow = config();
    slow.check_interval_ms = u64::MAX;
    slow.flatten_redrive_ms = u64::MAX;
    slow.flatten_timeout_ms = u64::MAX;
    let sidecar = UserPnL::new(slow, id(user_pnl_id()));
    assert_eq!(sidecar.timer_interval_ns(), u64::MAX);
}

#[test]
fn test_defaults() {
    let config = bare_config();
    assert_eq!(config.strategy_id.unwrap().name, "USER_PNL-001");
    assert_eq!(config.order_id_tag.unwrap(), "UPNL");
    assert_eq!(config.venue, "BINANCE");
    assert_eq!(config.currency, "USDT");
    assert!(config.account_id.is_none());
    assert!(config.max_loss.is_none());
    assert!(config.max_profit.is_none());
    assert!(config.halt_day_on_max_loss);
    assert!(config.halt_day_on_max_profit);
    assert!(!config.use_unrealized_only);
    assert_eq!(config.check_interval_ms, 200);
    assert_eq!(config.flatten_redrive_ms, 5_000);
    assert_eq!(config.flatten_timeout_ms, 30_000);
    assert!(config.managed_strategy_ids.is_empty());
    assert!(config.skip_flat_strategies);
    assert!(config.reset_daily);
}

#[test]
fn test_only_strategies_with_risk_are_asked_to_exit() {
    let mut h = make_strategy(vec![mm(), grid()], config());
    h.add_realized_pnl(mm(), -20_000, true);
    h.on_check();
    assert_eq!(h.exits, vec![mm()]);
}

#[test]
fn test_live_orders_keep_the_sidecar_flattening() {
    let mut h = make_strategy(vec![mm()], config());
    h.live_orders = 1;
    h.add_realized_pnl(mm(), -20_000, false);
    h.on_check();
    assert_eq!(h.sidecar.state(), UserPnLState::Flattening);
    assert_eq!(h.states, vec![TradingState::Reducing]);

    h.live_orders = 0;
    h.on_check();
    assert_eq!(h.sidecar.state(), UserPnLState::Halted);
}

#[test]
fn test_a_strategy_whose_stop_is_put_off_is_not_restarted() {
    for outcome in [StopOutcome::Deferred, StopOutcome::Failed] {
        let mut h = make_strategy(vec![mm()], config());
        h.outcome = outcome;
        h.set_date(16);
        h.add_realized_pnl(mm(), -20_000, false);
        h.on_check();
        assert_eq!(h.stops, vec![mm()]);

        h.set_date(17);
        h.on_check();
        assert!(h.starts.is_empty());
        assert_eq!(h.states.last(), Some(&TradingState::Active));
        assert_eq!(h.sidecar.state(), UserPnLState::Idle);
    }
}

#[test]
fn test_a_new_day_without_a_halt_publishes_nothing() {
    let mut h = make_strategy(vec![mm()], config());
    h.set_date(16);
    h.add_realized_pnl(mm(), -9_000, false);
    h.on_check();
    h.set_date(17);
    h.update_realized_pnl(mm(), -18_999);
    h.on_check();
    assert!(h.states.is_empty());

    // The new day is counted from -18,999.
    h.update_realized_pnl(mm(), -28_998);
    h.on_check();
    assert!(h.states.is_empty());
    h.update_realized_pnl(mm(), -28_999);
    h.on_check();
    assert_eq!(h.sidecar.state(), UserPnLState::Halted);
}

#[test]
fn test_a_breached_new_day_that_does_not_halt_is_released() {
    let mut config = asking_all(config());
    config.halt_day_on_max_loss = false;
    let mut h = make_strategy(vec![mm()], config);
    h.set_date(16);
    h.add_realized_pnl(mm(), -20_000, true);
    h.on_check();
    h.set_date(17);
    h.on_check();
    h.add_realized_pnl(mm(), -35_000, false);
    h.on_check();
    assert_eq!(h.sidecar.state(), UserPnLState::Idle);
    assert_eq!(
        h.states,
        vec![
            TradingState::Reducing,
            TradingState::Reducing,
            TradingState::Active
        ]
    );
    // The new day's own bound does not trip again before PnL recovers.
    h.on_check();
    assert_eq!(h.sidecar.state(), UserPnLState::Idle);
    assert_eq!(h.states.len(), 3);
}

#[test]
fn test_twelve_bad_days_flatten_twelve_times() {
    let mut h = make_strategy(vec![mm()], asking_all(config()));
    for day in 1..=12 {
        h.set_date(day);
        h.on_check();
        assert_eq!(h.sidecar.state(), UserPnLState::Idle);
        h.add_realized_pnl(mm(), -10_000 * day as i64, false);
        h.on_check();
        assert_eq!(h.sidecar.state(), UserPnLState::Halted);
    }
    assert_eq!(h.first_exits, 12);
}

#[test]
fn test_a_sidecar_without_a_node_only_latches() {
    let mut sidecar = UserPnL::new(config(), id(user_pnl_id()));
    let now = UnixNanos::new(0);
    sidecar.begin_check(now);
    assert!(matches!(
        sidecar.request(),
        Request::ReadPnl {
            unrealized_only: false,
            ..
        }
    ));
    sidecar.answer(
        now,
        Reply::Pnl(Some(vec![PnlEntry {
            currency: "USDT".to_string(),
            amount: usdt(-10_000),
        }])),
    );
    assert_eq!(sidecar.state(), UserPnLState::Flattening);
    assert!(matches!(sidecar.request(), Request::CountVenueRisk(_)));
    sidecar.answer(
        now,
        Reply::Risk(vec![OpenRisk {
            positions: 0,
            open_orders: 0,
            inflight: 0,
        }]),
    );
    assert_eq!(sidecar.state(), UserPnLState::Halted);
    assert!(matches!(sidecar.request(), Request::Nothing));
}

#[test]
fn test_a_reply_that_does_not_fit_changes_nothing() {
    let mut sidecar = UserPnL::new(config(), id(user_pnl_id())).with_runtime();
    let now = UnixNanos::new(0);
    sidecar.answer(now, Reply::Done);
    assert!(matches!(sidecar.request(), Request::Nothing));
    sidecar.begin_check(now);
    sidecar.answer(now, Reply::Done);
    sidecar.answer(now, Reply::Strategies(vec![id(mm())]));
    sidecar.answer(now, Reply::Stopped(Vec::new()));
    sidecar.begin_check(now);
    assert!(matches!(sidecar.request(), Request::ReadPnl { .. }));
    assert_eq!(sidecar.state(), UserPnLState::Idle);
}

#[test]
fn test_bounds_are_inclusive_and_exact() {
    let mut bounded = config();
    bounded.max_profit = Some(Decimal::new(1_000_000_001, 5).unwrap());
    let sidecar = UserPnL::new(bounded, id(user_pnl_id()));
    let cent = |mantissa: i128, scale: u32| Decimal::new(mantissa, scale).unwrap();
    assert_eq!(
        sidecar.should_trip(&cent(-1_000_000, 2)),
        Some(TripBound::MaxLoss)
    );
    assert_eq!(sidecar.should_trip(&cent(-999_999, 2)), None);
    assert!(sidecar.inside_band(&cent(-999_999, 2)));
    assert!(!sidecar.inside_band(&cent(-1_000_000, 2)));
    assert_eq!(
        sidecar.should_trip(&cent(1_000_000_001, 5)),
        Some(TripBound::MaxProfit)
    );
    assert_eq!(sidecar.should_trip(&cent(10_000, 0)), None);
    // Numbers of very different scales are compared by value.
    assert_eq!(
        sidecar.should_trip(&cent(-10_000_000_000_000_000_000_000_000_001, 24)),
        Some(TripBound::MaxLoss)
    );
    assert_eq!(
        sidecar.should_trip(&cent(-9_999_999_999_999_999_999_999_999_999, 24)),
        None
    );
}

#[test]
fn test_todays_pnl_is_the_difference_to_the_anchor() {
    let total = Money::from_raw(-12_345_600_000_000, 2);
    let anchor = Money::from_raw(2_000_010_000_000, 8);
    let today = watched_pnl(&total, true, &Some(anchor));
    assert_eq!(today.mantissa(), -1_434_561_000_000);
    assert_eq!(today.scale(), 8);

    let session = watched_pnl(&total, false, &Some(anchor));
    assert_eq!((session.mantissa(), session.scale()), (-1_234_560, 2));
    let first = watched_pnl(&total, true, &None);
    assert_eq!((first.mantissa(), first.scale()), (-1_234_560, 2));
    let start = watched_pnl(&anchor, true, &Some(anchor));
    assert!(start.is_zero());
}

#[test]
fn test_the_account_pnl_is_read_in_its_currency() {
    let entry = |currency: &str, value: i64| PnlEntry {
        currency: currency.to_string(),
        amount: usdt(value),
    };
    let usdt_name = "USDT".to_string();
    assert_eq!(account_pnl(&None, &usdt_name).map(|m| m.raw), None);
    assert_eq!(
        account_pnl(&Some(Vec::new()), &usdt_name).map(|m| m.raw),
        Some(0)
    );
    assert_eq!(
        account_pnl(&Some(vec![entry("BTC", 1)]), &usdt_name).map(|m| m.raw),
        None
    );
    assert_eq!(
        account_pnl(&Some(vec![entry("BTC", 1), entry("USDT", 2)]), &usdt_name).map(|m| m.raw),
        Some(2_000_000_000)
    );
}

#[test]
fn test_candidates_are_sorted_and_unique() {
    let source = vec![id("b"), id("self"), id("a"), id("b"), id("configured"), id("B")];
    let ids = candidates(&source, &id("self"), &Some(id("configured")));
    assert_eq!(named(&ids), vec!["B", "a", "b"]);
}

#[test]
fn test_risk_is_open_in_three_ways() {
    let flat = OpenRisk {
        positions: 0,
        open_orders: 0,
        inflight: 0,
    };
    assert!(!flat.is_open());
    assert!(OpenRisk { positions: 1, ..flat }.is_open());
    assert!(OpenRisk { open_orders: 1, ..flat }.is_open());
    assert!(OpenRisk { inflight: 1, ..flat }.is_open());
    assert!(is_all_flat(&vec![flat, flat]));
    assert!(!is_all_flat(&vec![flat, OpenRisk { inflight: 1, ..flat }]));
    assert!(is_all_flat(&Vec::new()));
}

#[test]
fn test_a_stop_counts_only_where_the_component_is_stopped() {
    assert_eq!(
        stop_outcome(true, Some(ComponentState::Stopped)),
        StopOutcome::Stopped
    );
    assert_eq!(
        stop_outcome(true, Some(ComponentState::Running)),
        StopOutcome::Deferred
    );
    assert_eq!(stop_outcome(true, None), StopOutcome::Deferred);
    assert_eq!(
        stop_outcome(false, Some(ComponentState::Stopped)),
        StopOutcome::Failed
    );
}

#[test]
fn test_a_running_strategy_is_not_started_again() {
    assert_eq!(needs_start(true, Some(ComponentState::Running)), Ok(false));
    assert_eq!(needs_start(true, Some(ComponentState::Stopped)), Ok(true));
    assert_eq!(needs_start(true, None), Ok(true));
}

#[test]
fn test_a_running_strategy_that_is_not_registered_is_an_error() {
    assert_eq!(
        needs_start(false, Some(ComponentState::Running)),
        Err(StartError::NotRegistered)
    );
}

#[test]
fn test_the_trader_answers_for_a_strategy_that_does_not_run() {
    for state in [None, Some(ComponentState::Stopped), Some(ComponentState::Ready)] {
        assert_eq!(needs_start(false, state), Ok(true));
        assert_eq!(needs_start(true, state), Ok(true));
    }
}

#[test]
fn test_the_first_check_of_a_new_day_that_finds_books_flat_releases() {
    let mut h = make_strategy(vec![mm()], config());
    h.set_date(16);
    h.add_realized_pnl(mm(), -20_000, true);
    h.on_check();
    assert_eq!(h.sidecar.state(), UserPnLState::Flattening);

    h.set_date(17);
    h.add_realized_pnl(mm(), -35_000, false);
    h.on_check();
    assert_eq!(h.sidecar.state(), UserPnLState::Idle);
    assert!(!h.sidecar.waiting_to_rearm());
    assert_eq!(
        h.states,
        vec![TradingState::Reducing, TradingState::Active]
    );
    assert_eq!(
        h.sidecar.session_date(),
        Some(CivilDate {
            year: 2024,
            month: 1,
            day: 17
        })
    );
}

#[test]
fn test_the_configured_account_is_watched() {
    for account in [None, Some("BINANCE-001".to_string())] {
        let mut config = config();
        config.account_id = account.clone();
        let mut h = make_strategy(vec![mm()], config);
        h.add_realized_pnl(mm(), -20_000, false);
        h.on_check();
        assert_eq!(h.scopes.len(), 3);
        for scope in &h.scopes {
            assert_eq!(*scope, ("BINANCE".to_string(), account.clone()));
        }
    }
}

#[test]
fn test_a_day_without_a_first_report_is_counted_from_the_next_one() {
    let mut h = make_strategy(vec![mm()], config());
    h.set_date(16);
    h.add_realized_pnl(mm(), -9_000, false);
    h.on_check();
    h.set_date(17);
    h.update_realized_pnl(mm(), -15_000);
    h.convertible = false;
    h.on_check();
    h.on_check();
    assert!(h.sidecar.warned_missing_pnl());

    // The loss of the day before does not carry over.
    h.convertible = true;
    h.on_check();
    assert_eq!(h.sidecar.state(), UserPnLState::Idle);
    assert!(h.states.is_empty());
    assert!(h.sidecar.watched_pnl(&h.report()).unwrap().is_zero());

    h.update_realized_pnl(mm(), -24_999);
    h.on_check();
    assert_eq!(h.sidecar.state(), UserPnLState::Idle);
    h.update_realized_pnl(mm(), -25_000);
    h.on_check();
    assert_eq!(h.sidecar.state(), UserPnLState::Halted);
    assert_eq!(h.sidecar.trip_bound(), Some(TripBound::MaxLoss));
}

#[test]
fn test_dates_are_those_of_the_calendar() {
    let date = |year: i16, month: i8, day: i8| CivilDate { year, month, day };
    let at = |nanos: u64| utc_date(UnixNanos::new(nanos));
    assert_eq!(at(0), date(1970, 1, 1));
    assert_eq!(at(DAY - 1), date(1970, 1, 1));
    assert_eq!(at(DAY), date(1970, 1, 2));
    assert_eq!(at(951_782_400 * SECOND), date(2000, 2, 29));
    assert_eq!(at(951_782_400 * SECOND - 1), date(2000, 2, 28));
    assert_eq!(at(1_705_406_400 * SECOND), date(2024, 1, 16));
    assert_eq!(at(4_107_542_400 * SECOND), date(2100, 3, 1));
    assert_eq!(at(4_107_542_400 * SECOND - 1), date(2100, 2, 28));
    assert_eq!(at(u64::MAX), date(2554, 7, 21));
}
