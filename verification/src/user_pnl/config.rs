//! Configuration of the account PnL sidecar.

use vstd::prelude::*;
use vstd::string::StringExecFns;

use crate::decimal::{Decimal, DecimalView};
use crate::strategy_id::{names, StrategyId};
use crate::text::{append_decimal, append_number, decimal_text, number_text};

verus! {

/// Configuration of the account PnL sidecar.
///
/// The sidecar watches the PnL of one venue or account. On `max_loss` or `max_profit` it asks
/// every other strategy to exit its positions until there are no positions and no live orders
/// left, and then may halt trading and stop those strategies for the rest of the UTC day.
pub struct UserPnLConfig {
    /// The configured name of the sidecar.
    pub strategy_id: Option<StrategyId>,
    /// The tag of the sidecar's order identifiers.
    pub order_id_tag: Option<String>,
    /// The venue whose PnL is watched.
    pub venue: String,
    /// The one account to watch; all accounts of the venue where there is none.
    pub account_id: Option<String>,
    /// The currency of the bounds.
    pub currency: String,
    /// Trip when the PnL is at most this, which must not be positive.
    pub max_loss: Option<Decimal>,
    /// Trip when the PnL is at least this, which must not be negative.
    pub max_profit: Option<Decimal>,
    /// Whether a max-loss flatten halts trading for the rest of that UTC day.
    pub halt_day_on_max_loss: bool,
    /// Whether a max-profit flatten halts trading for the rest of that UTC day.
    pub halt_day_on_max_profit: bool,
    /// Whether only unrealized PnL is compared with the bounds.
    pub use_unrealized_only: bool,
    /// How often PnL is sampled, in milliseconds.
    pub check_interval_ms: u64,
    /// How often exits are asked for again while flattening, in milliseconds.
    pub flatten_redrive_ms: u64,
    /// How long a flatten may run before it counts as stuck, in milliseconds.
    pub flatten_timeout_ms: u64,
    /// The strategies to flatten and to include in the flat check. Where there are none, all
    /// registered strategies are flattened and the whole venue or account has to be flat.
    pub managed_strategy_ids: Vec<StrategyId>,
    /// Whether strategies without open risk are not asked to exit.
    pub skip_flat_strategies: bool,
    /// Whether the bounds are on the PnL of the UTC day, and a halt ends with it.
    pub reset_daily: bool,
}

/// What the sidecar's behaviour depends on.
pub struct ConfigView {
    /// The configured name of the sidecar.
    pub strategy_id: Option<Seq<char>>,
    /// The tag of the sidecar's order identifiers.
    pub order_id_tag: Option<Seq<char>>,
    /// The venue to watch.
    pub venue: Seq<char>,
    /// The one account to watch.
    pub account_id: Option<Seq<char>>,
    /// The currency of the bounds.
    pub currency: Seq<char>,
    /// Trip at or below this.
    pub max_loss: Option<DecimalView>,
    /// Trip at or above this.
    pub max_profit: Option<DecimalView>,
    /// Halt after a max-loss flatten.
    pub halt_day_on_max_loss: bool,
    /// Halt after a max-profit flatten.
    pub halt_day_on_max_profit: bool,
    /// Compare unrealized PnL only.
    pub use_unrealized_only: bool,
    /// Milliseconds between samples.
    pub check_interval_ms: u64,
    /// Milliseconds between exit requests.
    pub flatten_redrive_ms: u64,
    /// Milliseconds after which a flatten is stuck.
    pub flatten_timeout_ms: u64,
    /// The strategies to flatten; all of them where there are none.
    pub managed: Seq<Seq<char>>,
    /// Ask only strategies with open risk to exit.
    pub skip_flat_strategies: bool,
    /// Bounds per UTC day.
    pub reset_daily: bool,
}

/// The view of an optional text.
pub open spec fn text_view(text: Option<String>) -> Option<Seq<char>> {
    match text {
        Some(text) => Some(text@),
        None => None,
    }
}

/// The view of an optional decimal.
pub open spec fn decimal_view(d: Option<Decimal>) -> Option<DecimalView> {
    match d {
        Some(d) => Some(d@),
        None => None,
    }
}

impl View for UserPnLConfig {
    type V = ConfigView;

    open spec fn view(&self) -> ConfigView {
        ConfigView {
            strategy_id: match self.strategy_id {
                Some(id) => Some(id@),
                None => None,
            },
            order_id_tag: text_view(self.order_id_tag),
            venue: self.venue@,
            account_id: text_view(self.account_id),
            currency: self.currency@,
            max_loss: decimal_view(self.max_loss),
            max_profit: decimal_view(self.max_profit),
            halt_day_on_max_loss: self.halt_day_on_max_loss,
            halt_day_on_max_profit: self.halt_day_on_max_profit,
            use_unrealized_only: self.use_unrealized_only,
            check_interval_ms: self.check_interval_ms,
            flatten_redrive_ms: self.flatten_redrive_ms,
            flatten_timeout_ms: self.flatten_timeout_ms,
            managed: names(self.managed_strategy_ids@),
            skip_flat_strategies: self.skip_flat_strategies,
            reset_daily: self.reset_daily,
        }
    }
}

/// Whose PnL and whose risk is meant: an account's, or where there is none, a venue's.
#[derive(Debug)]
pub struct Scope {
    /// The venue.
    pub venue: String,
    /// The account.
    pub account_id: Option<String>,
}

/// What a scope says.
pub struct ScopeView {
    /// The venue.
    pub venue: Seq<char>,
    /// The account.
    pub account_id: Option<Seq<char>>,
}

impl View for Scope {
    type V = ScopeView;

    open spec fn view(&self) -> ScopeView {
        ScopeView { venue: self.venue@, account_id: text_view(self.account_id) }
    }
}

impl ConfigView {
    /// What is watched: the account where one is configured, otherwise the venue.
    pub open spec fn scope(self) -> ScopeView {
        ScopeView { venue: self.venue, account_id: self.account_id }
    }
}

/// Why a configuration is rejected.
#[derive(Clone, Copy, Debug)]
pub enum ConfigError {
    /// Neither bound is set.
    MissingBound,
    /// The loss bound is positive.
    PositiveMaxLoss(Decimal),
    /// The profit bound is negative.
    NegativeMaxProfit(Decimal),
    /// Unrealized PnL is a mark and no running total, so it has no daily window.
    UnrealizedWithDailyReset,
    /// PnL would never be sampled.
    ZeroCheckInterval,
    /// Exits cannot be asked for more often than PnL is sampled.
    RedriveBelowCheck {
        /// The interval of exit requests.
        redrive_ms: u64,
        /// The interval of samples.
        check_ms: u64,
    },
    /// A flatten cannot be stuck before its exits were asked for again.
    TimeoutBelowRedrive {
        /// The timeout of a flatten.
        timeout_ms: u64,
        /// The interval of exit requests.
        redrive_ms: u64,
    },
}

/// What a rejection says.
pub enum Fault {
    /// Neither bound is set.
    MissingBound,
    /// The loss bound is positive.
    PositiveMaxLoss(DecimalView),
    /// The profit bound is negative.
    NegativeMaxProfit(DecimalView),
    /// Unrealized PnL with a daily window.
    UnrealizedWithDailyReset,
    /// The sample interval is zero.
    ZeroCheckInterval,
    /// The exit interval is shorter than the sample interval.
    RedriveBelowCheck(u64, u64),
    /// The timeout is shorter than the exit interval.
    TimeoutBelowRedrive(u64, u64),
}

impl View for ConfigError {
    type V = Fault;

    open spec fn view(&self) -> Fault {
        match *self {
            ConfigError::MissingBound => Fault::MissingBound,
            ConfigError::PositiveMaxLoss(d) => Fault::PositiveMaxLoss(d@),
            ConfigError::NegativeMaxProfit(d) => Fault::NegativeMaxProfit(d@),
            ConfigError::UnrealizedWithDailyReset => Fault::UnrealizedWithDailyReset,
            ConfigError::ZeroCheckInterval => Fault::ZeroCheckInterval,
            ConfigError::RedriveBelowCheck { redrive_ms, check_ms } => Fault::RedriveBelowCheck(
                redrive_ms,
                check_ms,
            ),
            ConfigError::TimeoutBelowRedrive { timeout_ms, redrive_ms } =>
                Fault::TimeoutBelowRedrive(timeout_ms, redrive_ms),
        }
    }
}

impl ConfigView {
    /// Whether the configuration makes sense: a bound is set, a loss is not positive and a profit
    /// not negative, daily windows are on running totals, and the intervals are ordered.
    pub open spec fn valid(self) -> bool {
        &&& self.max_loss is Some || self.max_profit is Some
        &&& self.max_loss matches Some(d) ==> d.mantissa <= 0
        &&& self.max_profit matches Some(d) ==> d.mantissa >= 0
        &&& !(self.use_unrealized_only && self.reset_daily)
        &&& 0 < self.check_interval_ms <= self.flatten_redrive_ms <= self.flatten_timeout_ms
    }

    /// The first thing that is wrong with a configuration.
    pub open spec fn fault(self) -> Option<Fault> {
        if self.max_loss is None && self.max_profit is None {
            Some(Fault::MissingBound)
        } else if self.max_loss is Some && self.max_loss->0.mantissa > 0 {
            Some(Fault::PositiveMaxLoss(self.max_loss->0))
        } else if self.max_profit is Some && self.max_profit->0.mantissa < 0 {
            Some(Fault::NegativeMaxProfit(self.max_profit->0))
        } else if self.use_unrealized_only && self.reset_daily {
            Some(Fault::UnrealizedWithDailyReset)
        } else if self.check_interval_ms == 0 {
            Some(Fault::ZeroCheckInterval)
        } else if self.flatten_redrive_ms < self.check_interval_ms {
            Some(Fault::RedriveBelowCheck(self.flatten_redrive_ms, self.check_interval_ms))
        } else if self.flatten_timeout_ms < self.flatten_redrive_ms {
            Some(Fault::TimeoutBelowRedrive(self.flatten_timeout_ms, self.flatten_redrive_ms))
        } else {
            None
        }
    }
}

/// What a rejection says, in words.
pub open spec fn fault_text(fault: Fault) -> Seq<char> {
    match fault {
        Fault::MissingBound => "UserPnLConfig requires at least one of max_loss or max_profit"@,
        Fault::PositiveMaxLoss(d) => "max_loss must be less than or equal to 0, was "@
            + decimal_text(d),
        Fault::NegativeMaxProfit(d) => "max_profit must be greater than or equal to 0, was "@
            + decimal_text(d),
        Fault::UnrealizedWithDailyReset =>
            "use_unrealized_only cannot be combined with reset_daily; unrealized PnL is a mark, not a running total"@,
        Fault::ZeroCheckInterval => "check_interval_ms must be greater than 0"@,
        Fault::RedriveBelowCheck(redrive_ms, check_ms) => "flatten_redrive_ms ("@ + number_text(
            redrive_ms as nat,
        ) + ") must be greater than or equal to check_interval_ms ("@ + number_text(
            check_ms as nat,
        ) + ")"@,
        Fault::TimeoutBelowRedrive(timeout_ms, redrive_ms) => "flatten_timeout_ms ("@
            + number_text(timeout_ms as nat)
            + ") must be greater than or equal to flatten_redrive_ms ("@ + number_text(
            redrive_ms as nat,
        ) + ")"@,
    }
}

impl ConfigError {
    /// What is wrong, in words.
    pub fn message(&self) -> (text: String)
        ensures
            text@ == fault_text(self@),
    {
        let mut text = String::new();
        match self {
            ConfigError::MissingBound => {
                text.append("UserPnLConfig requires at least one of max_loss or max_profit");
            },
            ConfigError::PositiveMaxLoss(d) => {
                text.append("max_loss must be less than or equal to 0, was ");
                append_decimal(&mut text, d);
            },
            ConfigError::NegativeMaxProfit(d) => {
                text.append("max_profit must be greater than or equal to 0, was ");
                append_decimal(&mut text, d);
            },
            ConfigError::UnrealizedWithDailyReset => {
                text.append(
                    "use_unrealized_only cannot be combined with reset_daily; unrealized PnL is a mark, not a running total",
                );
            },
            ConfigError::ZeroCheckInterval => {
                text.append("check_interval_ms must be greater than 0");
            },
            ConfigError::RedriveBelowCheck { redrive_ms, check_ms } => {
                text.append("flatten_redrive_ms (");
                append_number(&mut text, *redrive_ms as u128);
                text.append(") must be greater than or equal to check_interval_ms (");
                append_number(&mut text, *check_ms as u128);
                text.append(")");
            },
            ConfigError::TimeoutBelowRedrive { timeout_ms, redrive_ms } => {
                text.append("flatten_timeout_ms (");
                append_number(&mut text, *timeout_ms as u128);
                text.append(") must be greater than or equal to flatten_redrive_ms (");
                append_number(&mut text, *redrive_ms as u128);
                text.append(")");
            },
        }
        assert(text@ == fault_text(self@));
        text
    }
}

impl UserPnLConfig {
    /// The default configuration for a venue, with bounds in `currency` still to be set.
    pub fn new(venue: &str, currency: &str) -> (config: UserPnLConfig)
        ensures
            config@ == (ConfigView {
                strategy_id: Some("USER_PNL-001"@),
                order_id_tag: Some("UPNL"@),
                venue: venue@,
                account_id: None,
                currency: currency@,
                max_loss: None,
                max_profit: None,
                halt_day_on_max_loss: true,
                halt_day_on_max_profit: true,
                use_unrealized_only: false,
                check_interval_ms: 200,
                flatten_redrive_ms: 5_000,
                flatten_timeout_ms: 30_000,
                managed: Seq::empty(),
                skip_flat_strategies: true,
                reset_daily: true,
            }),
    {
        let config = UserPnLConfig {
            strategy_id: Some(StrategyId::new("USER_PNL-001")),
            order_id_tag: Some("UPNL".to_owned()),
            venue: venue.to_owned(),
            account_id: None,
            currency: currency.to_owned(),
            max_loss: None,
            max_profit: None,
            halt_day_on_max_loss: true,
            halt_day_on_max_profit: true,
            use_unrealized_only: false,
            check_interval_ms: 200,
            flatten_redrive_ms: 5_000,
            flatten_timeout_ms: 30_000,
            managed_strategy_ids: Vec::new(),
            skip_flat_strategies: true,
            reset_daily: true,
        };
        assert(names(config.managed_strategy_ids@) =~= Seq::empty());
        config
    }

    /// What is watched: the account where one is configured, otherwise the venue.
    pub fn scope(&self) -> (scope: Scope)
        ensures
            scope@ == self@.scope(),
    {
        let account_id = match &self.account_id {
            Some(account_id) => Some(account_id.clone()),
            None => None,
        };
        Scope { venue: self.venue.clone(), account_id }
    }

    /// Checks that a bound is set, that the signs of the bounds are right, and that the intervals
    /// are ordered.
    pub fn validate(&self) -> (result: Result<(), ConfigError>)
        ensures
            result is Ok <==> self@.valid(),
            result is Ok <==> self@.fault() is None,
            result matches Err(e) ==> self@.fault() == Some(e@),
    {
        if self.max_loss.is_none() && self.max_profit.is_none() {
            return Err(ConfigError::MissingBound);
        }
        if let Some(max_loss) = &self.max_loss {
            if max_loss.mantissa() > 0 {
                return Err(ConfigError::PositiveMaxLoss(*max_loss));
            }
        }
        if let Some(max_profit) = &self.max_profit {
            if max_profit.mantissa() < 0 {
                return Err(ConfigError::NegativeMaxProfit(*max_profit));
            }
        }
        if self.use_unrealized_only && self.reset_daily {
            return Err(ConfigError::UnrealizedWithDailyReset);
        }
        if self.check_interval_ms == 0 {
            return Err(ConfigError::ZeroCheckInterval);
        }
        // Both flatten intervals are only looked at on a check, so an interval below the one that
        // drives it cannot be kept.
        if self.flatten_redrive_ms < self.check_interval_ms {
            return Err(
                ConfigError::RedriveBelowCheck {
                    redrive_ms: self.flatten_redrive_ms,
                    check_ms: self.check_interval_ms,
                },
            );
        }
        if self.flatten_timeout_ms < self.flatten_redrive_ms {
            return Err(
                ConfigError::TimeoutBelowRedrive {
                    timeout_ms: self.flatten_timeout_ms,
                    redrive_ms: self.flatten_redrive_ms,
                },
            );
        }
        Ok(())
    }
}

} // verus!
