//! What configurations, requests and replies say, and which configurations are rejected.

use vstd::prelude::*;

use crate::strategy_id::{names, StrategyId};
use crate::text::{decimal_text, number_text};
use crate::text_laws::{all_digits, law_number_reads_back, number_in};
use crate::user_pnl::config::{fault_text, text_view, ConfigView, Fault, UserPnLConfig};
use crate::user_pnl::inputs::pnl_lines;
use crate::user_pnl::machine::{Reply, Request};
use crate::user_pnl::model::{Answer, Demand};

verus! {

/// A configuration is accepted exactly where a bound is set, a loss bound is not positive, a profit
/// bound is not negative, unrealized PnL has no daily window, PnL is sampled at all, exits are asked
/// for no more often than PnL is sampled, and a flatten is not stuck before exits are asked for
/// again. Both ends of each order are accepted.
pub proof fn law_accepted_configurations(config: ConfigView)
    ensures
        ({
            let accepted = {
                &&& config.max_loss is Some || config.max_profit is Some
                &&& config.max_loss matches Some(bound) ==> bound.mantissa <= 0
                &&& config.max_profit matches Some(bound) ==> bound.mantissa >= 0
                &&& !config.use_unrealized_only || !config.reset_daily
                &&& config.check_interval_ms > 0
                &&& config.flatten_redrive_ms >= config.check_interval_ms
                &&& config.flatten_timeout_ms >= config.flatten_redrive_ms
            };
            &&& config.valid() <==> accepted
            &&& config.fault() is None <==> accepted
        }),
{
}

/// The fault of a rejected configuration is one that it has, with the values that are at fault.
pub proof fn law_faults_are_there(config: ConfigView)
    ensures
        match config.fault() {
            None => true,
            Some(Fault::MissingBound) => config.max_loss is None && config.max_profit is None,
            Some(Fault::PositiveMaxLoss(d)) => config.max_loss == Some(d) && d.mantissa > 0,
            Some(Fault::NegativeMaxProfit(d)) => config.max_profit == Some(d) && d.mantissa < 0,
            Some(Fault::UnrealizedWithDailyReset) => config.use_unrealized_only
                && config.reset_daily,
            Some(Fault::ZeroCheckInterval) => config.check_interval_ms == 0,
            Some(Fault::RedriveBelowCheck(redrive_ms, check_ms)) => {
                &&& redrive_ms == config.flatten_redrive_ms
                &&& check_ms == config.check_interval_ms
                &&& redrive_ms < check_ms
            },
            Some(Fault::TimeoutBelowRedrive(timeout_ms, redrive_ms)) => {
                &&& timeout_ms == config.flatten_timeout_ms
                &&& redrive_ms == config.flatten_redrive_ms
                &&& timeout_ms < redrive_ms
            },
        },
{
}

/// Of several faults the first one is named: the bounds come before the daily window, and that before
/// the intervals.
pub proof fn law_first_fault_is_named(config: ConfigView)
    ensures
        config.max_loss is None && config.max_profit is None ==> config.fault() is Some
            && config.fault()->0 is MissingBound,
        config.max_loss matches Some(d) && d.mantissa > 0 ==> config.fault() is Some
            && config.fault()->0 is PositiveMaxLoss,
        (config.max_loss matches Some(d) ==> d.mantissa <= 0) && (config.max_profit matches Some(d)
            && d.mantissa < 0) ==> config.fault() is Some && config.fault()->0 is NegativeMaxProfit,
        ({
            let signs = {
                &&& config.max_loss is Some || config.max_profit is Some
                &&& config.max_loss matches Some(d) ==> d.mantissa <= 0
                &&& config.max_profit matches Some(d) ==> d.mantissa >= 0
            };
            let marks = config.use_unrealized_only && config.reset_daily;
            let check_ms = config.check_interval_ms;
            let redrive_ms = config.flatten_redrive_ms;
            &&& signs && marks ==> config.fault() == Some(Fault::UnrealizedWithDailyReset)
            &&& signs && !marks && check_ms == 0 ==> config.fault() == Some(
                Fault::ZeroCheckInterval,
            )
            &&& signs && !marks && 0 < check_ms && redrive_ms < check_ms ==> config.fault()
                is Some && config.fault()->0 is RedriveBelowCheck
            &&& signs && !marks && 0 < check_ms <= redrive_ms && config.flatten_timeout_ms
                < redrive_ms ==> config.fault() is Some
                && config.fault()->0 is TimeoutBelowRedrive
        }),
{
}

/// The words of a rejection name the value at fault. The intervals in them read back as they
/// were.
pub proof fn law_rejection_in_words(fault: Fault) -> (values: (Seq<char>, Seq<char>))
    ensures
        match fault {
            Fault::MissingBound => fault_text(fault)
                == "UserPnLConfig requires at least one of max_loss or max_profit"@,
            Fault::PositiveMaxLoss(d) => fault_text(fault)
                == "max_loss must be less than or equal to 0, was "@ + decimal_text(d),
            Fault::NegativeMaxProfit(d) => fault_text(fault)
                == "max_profit must be greater than or equal to 0, was "@ + decimal_text(d),
            Fault::UnrealizedWithDailyReset => fault_text(fault)
                == "use_unrealized_only cannot be combined with reset_daily; unrealized PnL is a mark, not a running total"@,
            Fault::ZeroCheckInterval => fault_text(fault)
                == "check_interval_ms must be greater than 0"@,
            Fault::RedriveBelowCheck(redrive_ms, check_ms) => {
                &&& fault_text(fault) == "flatten_redrive_ms ("@ + values.0
                    + ") must be greater than or equal to check_interval_ms ("@ + values.1 + ")"@
                &&& all_digits(values.0) && number_in(values.0) == redrive_ms
                &&& all_digits(values.1) && number_in(values.1) == check_ms
            },
            Fault::TimeoutBelowRedrive(timeout_ms, redrive_ms) => {
                &&& fault_text(fault) == "flatten_timeout_ms ("@ + values.0
                    + ") must be greater than or equal to flatten_redrive_ms ("@ + values.1 + ")"@
                &&& all_digits(values.0) && number_in(values.0) == timeout_ms
                &&& all_digits(values.1) && number_in(values.1) == redrive_ms
            },
        },
{
    match fault {
        Fault::RedriveBelowCheck(first, second) => {
            law_number_reads_back(first as nat);
            law_number_reads_back(second as nat);
            (number_text(first as nat), number_text(second as nat))
        },
        Fault::TimeoutBelowRedrive(first, second) => {
            law_number_reads_back(first as nat);
            law_number_reads_back(second as nat);
            (number_text(first as nat), number_text(second as nat))
        },
        _ => (Seq::empty(), Seq::empty()),
    }
}

/// What a configuration says is what its fields hold, each of them under its own name.
pub proof fn law_configuration_is_read(config: UserPnLConfig)
    ensures
        config.strategy_id matches Some(id) ==> config@.strategy_id == Some(id.name@),
        config.strategy_id is None ==> config@.strategy_id is None,
        config.order_id_tag matches Some(tag) ==> config@.order_id_tag == Some(tag@),
        config.order_id_tag is None ==> config@.order_id_tag is None,
        config@.venue == config.venue@,
        config.account_id matches Some(account) ==> config@.account_id == Some(account@),
        config.account_id is None ==> config@.account_id is None,
        config@.currency == config.currency@,
        config.max_loss matches Some(bound) ==> config@.max_loss == Some(bound@),
        config.max_loss is None ==> config@.max_loss is None,
        config.max_profit matches Some(bound) ==> config@.max_profit == Some(bound@),
        config.max_profit is None ==> config@.max_profit is None,
        config@.halt_day_on_max_loss == config.halt_day_on_max_loss,
        config@.halt_day_on_max_profit == config.halt_day_on_max_profit,
        config@.use_unrealized_only == config.use_unrealized_only,
        config@.check_interval_ms == config.check_interval_ms,
        config@.flatten_redrive_ms == config.flatten_redrive_ms,
        config@.flatten_timeout_ms == config.flatten_timeout_ms,
        config@.managed.len() == config.managed_strategy_ids@.len(),
        forall|i: int|
            0 <= i < config@.managed.len() ==> #[trigger] config@.managed[i]
                == config.managed_strategy_ids@[i].name@,
        config@.skip_flat_strategies == config.skip_flat_strategies,
        config@.reset_daily == config.reset_daily,
        config@.scope().venue == config@.venue,
        config@.scope().account_id == config@.account_id,
{
}

/// What a request says is what it holds.
pub proof fn law_request_is_read(request: Request)
    ensures
        match request {
            Request::Nothing => request@ is Nothing,
            Request::ReadPnl { scope, currency, unrealized_only } => request@ == (Demand::ReadPnl {
                scope: scope@,
                currency: currency@,
                unrealized_only,
            }) && scope@.venue == scope.venue@ && scope@.account_id == text_view(scope.account_id),
            Request::SetTradingState(state) => request@ == Demand::SetTradingState(state),
            Request::ListStrategies => request@ is ListStrategies,
            Request::CountVenueRisk(scope) => request@ == Demand::CountVenueRisk(scope@),
            Request::CountRisk { scope, ids } => request@ == (Demand::CountRisk {
                scope: scope@,
                ids: names(ids@),
            }),
            Request::ExitStrategies { ids, initial } => request@ == (Demand::ExitStrategies {
                ids: names(ids@),
                initial,
            }),
            Request::StopStrategies(ids) => request@ == Demand::StopStrategies(names(ids@)),
            Request::StartStrategies(ids) => request@ == Demand::StartStrategies(names(ids@)),
        },
{
}

/// What a reply says is what it holds.
pub proof fn law_reply_is_read(reply: Reply)
    ensures
        match reply {
            Reply::Pnl(report) => reply@ == Answer::Pnl(pnl_lines(report)),
            Reply::Done => reply@ is Done,
            Reply::Strategies(ids) => reply@ == Answer::Strategies(names(ids@)),
            Reply::Risk(risk) => reply@ == Answer::Risk(risk@),
            Reply::Stopped(outcomes) => reply@ == Answer::Stopped(outcomes@),
        },
{
}

/// The names of strategies are theirs, one by one.
pub proof fn law_names_are_read(ids: Seq<StrategyId>)
    ensures
        names(ids).len() == ids.len(),
        forall|i: int| 0 <= i < ids.len() ==> #[trigger] names(ids)[i] == ids[i].name@,
{
}

} // verus!
