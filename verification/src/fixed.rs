//! Fixed-point values: prices, quantities, amounts of money, and timestamps.

use vstd::prelude::*;

use crate::decimal::{lemma_pow10_adds, lemma_pow10_grows, pow10, Decimal, DecimalView};

verus! {

/// How many decimal digits a raw value carries behind the point.
pub const FIXED_PRECISION: u8 = 9;

/// How many of a raw value's digits behind the point `precision` shows.
pub open spec fn shown_digits(precision: u8) -> nat {
    if precision < FIXED_PRECISION {
        precision as nat
    } else {
        FIXED_PRECISION as nat
    }
}

/// `a / b` rounded toward zero, for a positive `b`.
pub open spec fn quotient_toward_zero(a: int, b: int) -> int {
    if a < 0 {
        -((-a) / b)
    } else {
        a / b
    }
}

/// The decimal that a raw value stands for, with the digits that `precision` shows.
pub open spec fn fixed_decimal(raw: i64, precision: u8) -> DecimalView {
    DecimalView {
        mantissa: quotient_toward_zero(
            raw as int,
            pow10((FIXED_PRECISION - shown_digits(precision)) as nat),
        ),
        scale: shown_digits(precision),
    }
}

/// The powers of ten up to the ninth.
pub proof fn lemma_pow10_table()
    ensures
        pow10(0) == 1,
        pow10(1) == 10,
        pow10(2) == 100,
        pow10(3) == 1_000,
        pow10(4) == 10_000,
        pow10(5) == 100_000,
        pow10(6) == 1_000_000,
        pow10(7) == 10_000_000,
        pow10(8) == 100_000_000,
        pow10(9) == 1_000_000_000,
{
    reveal_with_fuel(pow10, 10);
}

/// Ten to the power `n`, up to the ninth.
fn small_pow10(n: u8) -> (p: i128)
    requires
        n <= FIXED_PRECISION,
    ensures
        p == pow10(n as nat),
        1 <= p <= 1_000_000_000,
{
    proof {
        lemma_pow10_table();
    }
    match n {
        0 => 1,
        1 => 10,
        2 => 100,
        3 => 1_000,
        4 => 10_000,
        5 => 100_000,
        6 => 1_000_000,
        7 => 10_000_000,
        8 => 100_000_000,
        _ => 1_000_000_000,
    }
}

/// The decimal that a raw value stands for.
fn fixed_to_decimal(raw: i64, precision: u8) -> (d: Decimal)
    ensures
        d@ == fixed_decimal(raw, precision),
{
    let digits: u8 = if precision < FIXED_PRECISION { precision } else { FIXED_PRECISION };
    let unit: i128 = small_pow10(FIXED_PRECISION - digits);
    let wide: i128 = raw as i128;
    let mantissa: i128 = if wide < 0 {
        let magnitude: i128 = -wide;
        -(magnitude / unit)
    } else {
        wide / unit
    };
    proof {
        lemma_fixed_decimal_bounds(raw, precision);
    }
    match Decimal::new(mantissa, digits as u32) {
        Some(d) => d,
        None => Decimal::zero(),
    }
}

/// The mantissa of a fixed-point value is no larger than its raw value.
pub proof fn lemma_fixed_decimal_bounds(raw: i64, precision: u8)
    ensures
        raw >= 0 ==> 0 <= fixed_decimal(raw, precision).mantissa <= raw,
        raw < 0 ==> raw <= fixed_decimal(raw, precision).mantissa <= 0,
        fixed_decimal(raw, precision).in_range(),
{
    lemma_pow10_table();
    let unit = pow10((FIXED_PRECISION - shown_digits(precision)) as nat);
    assert(unit >= 1);
    if raw < 0 {
        vstd::arithmetic::div_mod::lemma_div_nonincreasing(-raw, unit);
        vstd::arithmetic::div_mod::lemma_div_pos_is_pos(-raw, unit);
    } else {
        vstd::arithmetic::div_mod::lemma_div_nonincreasing(raw as int, unit);
        vstd::arithmetic::div_mod::lemma_div_pos_is_pos(raw as int, unit);
    }
}

/// Fixed-point decimals and their differences are small enough to be calculated with.
pub proof fn lemma_fixed_decimals_are_operands(
    raw1: i64,
    precision1: u8,
    raw2: i64,
    precision2: u8,
)
    ensures
        fixed_decimal(raw1, precision1).operand(),
        fixed_decimal(raw2, precision2).operand(),
        fixed_decimal(raw1, precision1).minus(fixed_decimal(raw2, precision2)).operand(),
{
    lemma_fixed_decimal_bounds(raw1, precision1);
    lemma_fixed_decimal_bounds(raw2, precision2);
    let left = fixed_decimal(raw1, precision1);
    let right = fixed_decimal(raw2, precision2);
    lemma_rescaled_bounds(raw1, precision1, left.common_scale(right));
    lemma_rescaled_bounds(raw2, precision2, left.common_scale(right));
}

/// A fixed-point value keeps below its raw value at every scale up to the ninth.
proof fn lemma_rescaled_bounds(raw: i64, precision: u8, scale: nat)
    requires
        fixed_decimal(raw, precision).scale <= scale <= FIXED_PRECISION,
    ensures
        raw >= 0 ==> 0 <= fixed_decimal(raw, precision).at_scale(scale) <= raw,
        raw < 0 ==> raw <= fixed_decimal(raw, precision).at_scale(scale) <= 0,
{
    let d = fixed_decimal(raw, precision);
    let digits = shown_digits(precision);
    let unit = pow10((FIXED_PRECISION - digits) as nat);
    let factor = pow10((scale - digits) as nat);
    lemma_pow10_grows((scale - digits) as nat, (FIXED_PRECISION - digits) as nat);
    let magnitude: int = if raw < 0 {
        -(raw as int)
    } else {
        raw as int
    };
    let quotient = magnitude / unit;
    assert(0 <= quotient * factor <= magnitude) by (nonlinear_arith)
        requires
            quotient == magnitude / unit,
            1 <= factor <= unit,
            magnitude >= 0,
    ;
    if raw < 0 {
        assert((-quotient) * factor == -(quotient * factor)) by (nonlinear_arith);
    }
}

/// Whether a raw value has no digits behind those that `precision` shows.
pub open spec fn shows_all(raw: i64, precision: u8) -> bool {
    raw as int % pow10(
        (9 - if precision < 9 {
            precision as int
        } else {
            9
        }) as nat,
    ) == 0
}

/// A fixed-point value is shown with as many digits as its precision says, at most nine, and cut
/// off toward zero behind them. Where there are no more digits, nothing is lost.
pub proof fn law_fixed_value(raw: i64, precision: u8)
    ensures
        ({
            let d = fixed_decimal(raw, precision);
            let unit = pow10((9 - d.scale) as nat);
            &&& d.scale == if precision < 9 {
                precision as int
            } else {
                9
            }
            &&& raw >= 0 ==> 0 <= d.mantissa * unit <= raw < d.mantissa * unit + unit
            &&& raw < 0 ==> d.mantissa * unit - unit < raw <= d.mantissa * unit <= 0
            &&& shows_all(raw, precision) ==> d.mantissa * unit == raw
        }),
{
    let d = fixed_decimal(raw, precision);
    let unit = pow10((9 - d.scale) as nat);
    lemma_pow10_grows(0, (9 - d.scale) as nat);
    let size: int = if raw < 0 {
        -(raw as int)
    } else {
        raw as int
    };
    vstd::arithmetic::div_mod::lemma_fundamental_div_mod(size, unit);
    vstd::arithmetic::div_mod::lemma_mod_bound(size, unit);
    let q = size / unit;
    assert(unit * q == q * unit) by (nonlinear_arith);
    assert((-q) * unit == -(q * unit)) by (nonlinear_arith);
    assert(0 <= q * unit) by (nonlinear_arith)
        requires
            q == size / unit,
            size >= 0,
            unit >= 1,
    ;
    if shows_all(raw, precision) && raw < 0 {
        vstd::arithmetic::div_mod::lemma_fundamental_div_mod(raw as int, unit);
        let k = raw as int / unit;
        assert(size == unit * (-k)) by (nonlinear_arith)
            requires
                raw as int == unit * k,
                size == -(raw as int),
        ;
        vstd::arithmetic::div_mod::lemma_fundamental_div_mod_converse(size, unit, -k, 0);
    }
}

/// The difference of two fixed-point values, counted in billionths, is that of what they show.
pub proof fn law_shown_difference(raw1: i64, precision1: u8, raw2: i64, precision2: u8)
    ensures
        ({
            let left = fixed_decimal(raw1, precision1);
            let right = fixed_decimal(raw2, precision2);
            let d = left.minus(right);
            &&& d.scale <= 9
            &&& d.mantissa * pow10((9 - d.scale) as nat) == left.mantissa * pow10(
                (9 - left.scale) as nat,
            ) - right.mantissa * pow10((9 - right.scale) as nat)
        }),
{
    let left = fixed_decimal(raw1, precision1);
    let right = fixed_decimal(raw2, precision2);
    law_fixed_value(raw1, precision1);
    law_fixed_value(raw2, precision2);
    let scale = left.common_scale(right);
    let rest = pow10((9 - scale) as nat);
    if left.mantissa == 0 {
        let unit = pow10((9 - right.scale) as nat);
        assert((-right.mantissa) * unit == -(right.mantissa * unit)) by (nonlinear_arith);
        assert(0 * pow10((9 - left.scale) as nat) == 0);
    } else if right.mantissa == 0 {
        assert(0 * pow10((9 - right.scale) as nat) == 0);
    } else {
        lemma_pow10_adds((scale - left.scale) as nat, (9 - scale) as nat);
        lemma_pow10_adds((scale - right.scale) as nat, (9 - scale) as nat);
        let a = left.mantissa;
        let b = right.mantissa;
        let p = pow10((scale - left.scale) as nat);
        let q = pow10((scale - right.scale) as nat);
        assert((a * p - b * q) * rest == a * (p * rest) - b * (q * rest)) by (nonlinear_arith);
    }
}

/// The difference of two fixed-point values is that of their raw values, whatever their precisions.
pub proof fn law_fixed_difference(raw1: i64, precision1: u8, raw2: i64, precision2: u8)
    requires
        shows_all(raw1, precision1),
        shows_all(raw2, precision2),
    ensures
        ({
            let d = fixed_decimal(raw1, precision1).minus(fixed_decimal(raw2, precision2));
            &&& d.scale <= 9
            &&& d.mantissa * pow10((9 - d.scale) as nat) == raw1 - raw2
        }),
{
    law_fixed_value(raw1, precision1);
    law_fixed_value(raw2, precision2);
    law_shown_difference(raw1, precision1, raw2, precision2);
}

/// A price: `raw` billionths, shown with `precision` digits behind the point.
///
/// Two prices are equal when their raw values are, whatever their precision.
#[derive(Clone, Copy, Debug)]
pub struct Price {
    /// The value in billionths.
    pub raw: i64,
    /// How many digits behind the point are shown, at most nine.
    pub precision: u8,
}

impl Price {
    /// A price of `raw` billionths.
    pub fn from_raw(raw: i64, precision: u8) -> (p: Price)
        ensures
            p == (Price { raw, precision }),
    {
        Price { raw, precision }
    }

    /// The price as a decimal.
    pub fn as_decimal(&self) -> (d: Decimal)
        ensures
            d@ == fixed_decimal(self.raw, self.precision),
    {
        fixed_to_decimal(self.raw, self.precision)
    }
}

impl PartialEq for Price {
    fn eq(&self, other: &Price) -> (b: bool) {
        self.raw == other.raw
    }
}

impl Eq for Price {

}

impl vstd::std_specs::cmp::PartialEqSpecImpl for Price {
    open spec fn obeys_eq_spec() -> bool {
        true
    }

    open spec fn eq_spec(&self, other: &Price) -> bool {
        self.raw == other.raw
    }
}

/// A quantity: `raw` billionths, shown with `precision` digits behind the point.
///
/// Two quantities are equal when their raw values are, whatever their precision.
#[derive(Clone, Copy, Debug)]
pub struct Quantity {
    /// The value in billionths.
    pub raw: u64,
    /// How many digits behind the point are shown, at most nine.
    pub precision: u8,
}

impl Quantity {
    /// A quantity of `raw` billionths.
    pub fn from_raw(raw: u64, precision: u8) -> (q: Quantity)
        ensures
            q == (Quantity { raw, precision }),
    {
        Quantity { raw, precision }
    }
}

impl PartialEq for Quantity {
    fn eq(&self, other: &Quantity) -> (b: bool) {
        self.raw == other.raw
    }
}

impl Eq for Quantity {

}

impl vstd::std_specs::cmp::PartialEqSpecImpl for Quantity {
    open spec fn obeys_eq_spec() -> bool {
        true
    }

    open spec fn eq_spec(&self, other: &Quantity) -> bool {
        self.raw == other.raw
    }
}

/// An amount of money: `raw` billionths of a currency whose amounts show `precision` digits behind
/// the point.
#[derive(Clone, Copy, Debug)]
pub struct Money {
    /// The value in billionths.
    pub raw: i64,
    /// How many digits behind the point the currency shows, at most nine.
    pub precision: u8,
}

impl Money {
    /// An amount of `raw` billionths.
    pub fn from_raw(raw: i64, precision: u8) -> (m: Money)
        ensures
            m == (Money { raw, precision }),
    {
        Money { raw, precision }
    }

    /// The amount as a decimal.
    pub fn as_decimal(&self) -> (d: Decimal)
        ensures
            d@ == fixed_decimal(self.raw, self.precision),
    {
        fixed_to_decimal(self.raw, self.precision)
    }
}

/// Nanoseconds since the UNIX epoch.
#[derive(Clone, Copy, Debug, PartialEq, Eq, Structural)]
pub struct UnixNanos {
    /// The count of nanoseconds.
    pub nanos: u64,
}

impl UnixNanos {
    /// The instant `nanos` nanoseconds after the epoch.
    pub fn new(nanos: u64) -> (t: UnixNanos)
        ensures
            t == (UnixNanos { nanos }),
    {
        UnixNanos { nanos }
    }

    /// The count of nanoseconds.
    pub fn as_u64(&self) -> (n: u64)
        ensures
            n == self.nanos,
    {
        self.nanos
    }
}

impl Default for UnixNanos {
    fn default() -> (t: UnixNanos)
        ensures
            t == (UnixNanos { nanos: 0 }),
    {
        UnixNanos { nanos: 0 }
    }
}

} // verus!
