//! Option Greeks as an exchange publishes them.

use vstd::prelude::*;
use vstd::string::StringExecFns;

use crate::binary64::Binary64;
use crate::fixed::UnixNanos;
use crate::identifiers::InstrumentId;

verus! {

/// Data that knows when it was initialized.
pub trait HasTsInit {
    /// When the data was initialized.
    spec fn spec_ts_init(&self) -> UnixNanos;

    /// When the data was initialized.
    fn ts_init(&self) -> (t: UnixNanos)
        ensures
            t == self.spec_ts_init(),
    ;
}

/// Data that carries Greeks.
pub trait HasGreeks {
    /// The Greeks.
    spec fn spec_greeks(&self) -> OptionGreekValues;

    /// The Greeks.
    fn greeks(&self) -> (g: OptionGreekValues)
        ensures
            g == self.spec_greeks(),
    ;
}

/// The numeraire that Greeks are expressed in.
#[derive(Clone, Copy, Debug, PartialEq, Eq, Structural)]
pub enum GreeksConvention {
    /// Black-Scholes Greeks, in the quote currency.
    BlackScholes,
    /// Price-adjusted Greeks, in the underlying.
    PriceAdjusted,
}

impl GreeksConvention {
    /// The name of the convention.
    pub open spec fn name(self) -> Seq<char> {
        match self {
            GreeksConvention::BlackScholes => "BLACK_SCHOLES"@,
            GreeksConvention::PriceAdjusted => "PRICE_ADJUSTED"@,
        }
    }

    /// The name of the convention.
    pub fn as_str(&self) -> (s: &'static str)
        ensures
            s@ == self.name(),
    {
        match self {
            GreeksConvention::BlackScholes => "BLACK_SCHOLES",
            GreeksConvention::PriceAdjusted => "PRICE_ADJUSTED",
        }
    }
}

impl Default for GreeksConvention {
    fn default() -> (c: GreeksConvention)
        ensures
            c == GreeksConvention::BlackScholes,
    {
        GreeksConvention::BlackScholes
    }
}

/// The sensitivities of an option.
#[derive(Clone, Copy, Debug, PartialEq)]
pub struct OptionGreekValues {
    /// Sensitivity to the underlying's price.
    pub delta: Binary64,
    /// Sensitivity of the delta to the underlying's price.
    pub gamma: Binary64,
    /// Sensitivity to volatility.
    pub vega: Binary64,
    /// Sensitivity to time.
    pub theta: Binary64,
    /// Sensitivity to the interest rate.
    pub rho: Binary64,
}

/// Sensitivities that are all zero.
pub open spec fn zero_greeks() -> OptionGreekValues {
    OptionGreekValues {
        delta: Binary64 { bits: 0 },
        gamma: Binary64 { bits: 0 },
        vega: Binary64 { bits: 0 },
        theta: Binary64 { bits: 0 },
        rho: Binary64 { bits: 0 },
    }
}

impl Default for OptionGreekValues {
    fn default() -> (g: OptionGreekValues)
        ensures
            g == zero_greeks(),
    {
        OptionGreekValues {
            delta: Binary64::zero(),
            gamma: Binary64::zero(),
            vega: Binary64::zero(),
            theta: Binary64::zero(),
            rho: Binary64::zero(),
        }
    }
}

/// Exchange-provided Greeks and implied volatilities of one option.
#[derive(Clone, Debug, PartialEq)]
pub struct OptionGreeks {
    /// The instrument that these Greeks apply to.
    pub instrument_id: InstrumentId,
    /// The numeraire that these Greeks are expressed in.
    pub convention: GreeksConvention,
    /// The sensitivities.
    pub greeks: OptionGreekValues,
    /// Implied volatility of the mark price.
    pub mark_iv: Option<Binary64>,
    /// Implied volatility of the bid.
    pub bid_iv: Option<Binary64>,
    /// Implied volatility of the ask.
    pub ask_iv: Option<Binary64>,
    /// The underlying's price at the time of the calculation.
    pub underlying_price: Option<Binary64>,
    /// Open interest.
    pub open_interest: Option<Binary64>,
    /// When the event occurred.
    pub ts_event: UnixNanos,
    /// When the instance was initialized.
    pub ts_init: UnixNanos,
}

/// The sensitivities of an option as text, with four digits behind the point, and its mark
/// volatility.
#[derive(Clone, Debug)]
pub struct GreeksText {
    /// The delta.
    pub delta: String,
    /// The gamma.
    pub gamma: String,
    /// The vega.
    pub vega: String,
    /// The theta.
    pub theta: String,
    /// The mark volatility, or that there is none.
    pub mark_iv: String,
}

/// The text of an option's Greeks, from the text of its numbers.
pub open spec fn greeks_text(greeks: OptionGreeks, numbers: GreeksText) -> Seq<char> {
    "OptionGreeks("@ + greeks.instrument_id.text() + ", "@ + greeks.convention.name()
        + ", delta="@ + numbers.delta@ + ", gamma="@ + numbers.gamma@ + ", vega="@ + numbers.vega@
        + ", theta="@ + numbers.theta@ + ", mark_iv="@ + numbers.mark_iv@ + ")"@
}

impl OptionGreeks {
    /// One line that describes the Greeks; the numbers come as text.
    pub fn display(&self, numbers: &GreeksText) -> (text: String)
        ensures
            text@ == greeks_text(*self, *numbers),
    {
        let mut text = String::new();
        text.append("OptionGreeks(");
        self.instrument_id.append_to(&mut text);
        text.append(", ");
        text.append(self.convention.as_str());
        text.append(", delta=");
        text.append(numbers.delta.as_str());
        text.append(", gamma=");
        text.append(numbers.gamma.as_str());
        text.append(", vega=");
        text.append(numbers.vega.as_str());
        text.append(", theta=");
        text.append(numbers.theta.as_str());
        text.append(", mark_iv=");
        text.append(numbers.mark_iv.as_str());
        text.append(")");
        assert(text@ == greeks_text(*self, *numbers));
        text
    }
}

impl HasTsInit for OptionGreeks {
    open spec fn spec_ts_init(&self) -> UnixNanos {
        self.ts_init
    }

    fn ts_init(&self) -> (t: UnixNanos) {
        self.ts_init
    }
}

impl std::ops::Deref for OptionGreeks {
    type Target = OptionGreekValues;

    fn deref(&self) -> (g: &OptionGreekValues)
        ensures
            *g == self.greeks,
    {
        &self.greeks
    }
}

impl HasGreeks for OptionGreeks {
    open spec fn spec_greeks(&self) -> OptionGreekValues {
        self.greeks
    }

    fn greeks(&self) -> (g: OptionGreekValues) {
        self.greeks
    }
}

impl Default for OptionGreeks {
    fn default() -> (g: OptionGreeks)
        ensures
            g.instrument_id.symbol@ == "NULL"@,
            g.instrument_id.venue@ == "NULL"@,
            g.convention == GreeksConvention::BlackScholes,
            g.greeks == zero_greeks(),
            g.mark_iv is None,
            g.bid_iv is None,
            g.ask_iv is None,
            g.underlying_price is None,
            g.open_interest is None,
            g.ts_event.nanos == 0,
            g.ts_init.nanos == 0,
    {
        OptionGreeks {
            instrument_id: InstrumentId::new("NULL", "NULL"),
            convention: GreeksConvention::default(),
            greeks: OptionGreekValues::default(),
            mark_iv: None,
            bid_iv: None,
            ask_iv: None,
            underlying_price: None,
            open_interest: None,
            ts_event: UnixNanos::default(),
            ts_init: UnixNanos::default(),
        }
    }
}

} // verus!
