//! Decimal numbers: a mantissa of ninety-six bits and a scale.
//!
//! The arithmetic is that of the `rust_decimal` crate. The functions that call it are private to
//! this crate; what is believed of each call stands in its contract.

use vstd::arithmetic::power2::pow2;
use vstd::prelude::*;

use rust_decimal::prelude::ToPrimitive;

use crate::binary64::Binary64;

verus! {

/// The largest scale of a decimal.
pub const MAX_SCALE: u32 = 28;

/// The largest magnitude of a mantissa: ninety-six bits, all set.
pub const MAX_MANTISSA: i128 = 79228162514264337593543950335;

/// The largest magnitude that an operand's mantissa may have: sixty-four bits, all set.
pub const MAX_OPERAND: i128 = 18446744073709551615;

/// The largest scale that an operand may have.
pub const MAX_OPERAND_SCALE: u32 = 9;

/// Ten to the power `n`.
pub open spec fn pow10(n: nat) -> int
    decreases n,
{
    if n == 0 {
        1
    } else {
        10 * pow10((n - 1) as nat)
    }
}

/// A decimal number `mantissa / 10^scale`.
pub struct DecimalView {
    /// The digits, with the sign.
    pub mantissa: int,
    /// How many of the digits stand behind the point.
    pub scale: nat,
}

impl DecimalView {
    /// Whether the number is one that a [`Decimal`] can hold.
    pub open spec fn in_range(self) -> bool {
        -MAX_MANTISSA <= self.mantissa <= MAX_MANTISSA && self.scale <= MAX_SCALE
    }

    /// The mantissa of the same number at the larger scale `scale`.
    pub open spec fn at_scale(self, scale: nat) -> int
        recommends
            self.scale <= scale,
    {
        self.mantissa * pow10((scale - self.scale) as nat)
    }

    /// Whether the number is at most `other`.
    pub open spec fn at_most(self, other: DecimalView) -> bool {
        self.mantissa * pow10(other.scale) <= other.mantissa * pow10(self.scale)
    }

    /// The larger of the two scales.
    pub open spec fn common_scale(self, other: DecimalView) -> nat {
        if self.scale >= other.scale {
            self.scale
        } else {
            other.scale
        }
    }

    /// Whether the number is small enough to be calculated with: neither a difference nor a quotient
    /// of two such numbers overflows.
    pub open spec fn operand(self) -> bool {
        -MAX_OPERAND <= self.mantissa <= MAX_OPERAND && self.scale <= MAX_OPERAND_SCALE
    }

    /// The difference of two numbers, at their common scale. A zero on either side leaves the other
    /// side's scale as it is.
    pub open spec fn minus(self, other: DecimalView) -> DecimalView {
        if self.mantissa == 0 {
            DecimalView { mantissa: -other.mantissa, scale: other.scale }
        } else if other.mantissa == 0 {
            self
        } else {
            let scale = self.common_scale(other);
            DecimalView { mantissa: self.at_scale(scale) - other.at_scale(scale), scale }
        }
    }

    /// The number without its sign.
    pub open spec fn magnitude(self) -> DecimalView {
        DecimalView {
            mantissa: if self.mantissa < 0 {
                -self.mantissa
            } else {
                self.mantissa
            },
            scale: self.scale,
        }
    }
}

/// The number zero.
pub open spec fn zero_view() -> DecimalView {
    DecimalView { mantissa: 0, scale: 0 }
}

/// Powers of ten multiply by adding their exponents.
pub proof fn lemma_pow10_adds(a: nat, b: nat)
    ensures
        pow10(a + b) == pow10(a) * pow10(b),
    decreases b,
{
    if b == 0 {
        assert(pow10(a) * 1 == pow10(a));
    } else {
        lemma_pow10_adds(a, (b - 1) as nat);
        let p = pow10(a);
        let q = pow10((b - 1) as nat);
        assert(10 * (p * q) == p * (10 * q)) by (nonlinear_arith);
        assert(pow10(a + b) == 10 * pow10((a + b - 1) as nat));
    }
}

/// Powers of ten grow.
pub proof fn lemma_pow10_grows(low: nat, high: nat)
    requires
        low <= high,
    ensures
        1 <= pow10(low) <= pow10(high),
    decreases high,
{
    if low < high {
        lemma_pow10_grows(low, (high - 1) as nat);
    } else if low > 0 {
        lemma_pow10_grows((low - 1) as nat, (low - 1) as nat);
    }
}

/// The difference of two decimals is exact: over the common denominator its numerator is the
/// difference of the numerators.
pub proof fn law_difference_is_exact(left: DecimalView, right: DecimalView)
    ensures
        left.minus(right).mantissa * (pow10(left.scale) * pow10(right.scale)) == (left.mantissa
            * pow10(right.scale) - right.mantissa * pow10(left.scale)) * pow10(
            left.minus(right).scale,
        ),
{
    let a = left.mantissa;
    let b = right.mantissa;
    let p = pow10(left.scale);
    let q = pow10(right.scale);
    if a == 0 {
        assert((-b) * (p * q) == (0 * q - b * p) * q) by (nonlinear_arith);
    } else if b == 0 {
        assert(a * (p * q) == (a * q - 0 * p) * p) by (nonlinear_arith);
    } else if left.scale >= right.scale {
        let gap = (left.scale - right.scale) as nat;
        let r = pow10(gap);
        lemma_pow10_adds(right.scale, gap);
        assert(left.at_scale(left.scale) == a * 1);
        assert((a * 1 - b * r) * (p * q) == (a * q - b * p) * p) by (nonlinear_arith)
            requires
                p == q * r,
        ;
    } else {
        let gap = (right.scale - left.scale) as nat;
        let r = pow10(gap);
        lemma_pow10_adds(left.scale, gap);
        assert(right.at_scale(right.scale) == b * 1);
        assert((a * r - b * 1) * (p * q) == (a * q - b * p) * q) by (nonlinear_arith)
            requires
                q == p * r,
        ;
    }
}

/// A decimal number of at most ninety-six bits, with at most twenty-eight digits behind the point.
#[derive(Clone, Copy, Debug)]
pub struct Decimal {
    mantissa: i128,
    scale: u32,
}

impl View for Decimal {
    type V = DecimalView;

    closed spec fn view(&self) -> DecimalView {
        DecimalView { mantissa: self.mantissa as int, scale: self.scale as nat }
    }
}

impl Decimal {
    /// Every decimal is in range.
    #[verifier::type_invariant]
    pub open spec fn well_formed(self) -> bool {
        self@.in_range()
    }

    /// The decimal `mantissa / 10^scale`, if it is in range.
    pub fn new(mantissa: i128, scale: u32) -> (d: Option<Decimal>)
        ensures
            d is Some <==> (DecimalView { mantissa: mantissa as int, scale: scale as nat }).in_range(),
            d matches Some(d) ==> d@ == (DecimalView {
                mantissa: mantissa as int,
                scale: scale as nat,
            }),
    {
        if -MAX_MANTISSA <= mantissa && mantissa <= MAX_MANTISSA && scale <= MAX_SCALE {
            Some(Decimal { mantissa, scale })
        } else {
            None
        }
    }

    /// The number zero.
    pub fn zero() -> (d: Decimal)
        ensures
            d@ == zero_view(),
    {
        Decimal { mantissa: 0, scale: 0 }
    }

    /// The digits, with the sign.
    pub fn mantissa(&self) -> (m: i128)
        ensures
            m == self@.mantissa,
    {
        self.mantissa
    }

    /// How many digits stand behind the point.
    pub fn scale(&self) -> (s: u32)
        ensures
            s == self@.scale,
    {
        self.scale
    }

    /// Whether the number is zero.
    pub fn is_zero(&self) -> (b: bool)
        ensures
            b == (self@.mantissa == 0),
    {
        self.mantissa == 0
    }

    /// The number without its sign.
    pub fn abs(&self) -> (d: Decimal)
        ensures
            d@ == self@.magnitude(),
    {
        proof {
            use_type_invariant(self);
        }
        if self.mantissa < 0 {
            Decimal { mantissa: -self.mantissa, scale: self.scale }
        } else {
            Decimal { mantissa: self.mantissa, scale: self.scale }
        }
    }
}

/// The quotient that `rust_decimal` computes of two decimals, rounded to what ninety-six bits and
/// twenty-eight digits behind the point can hold: its mantissa and its scale.
pub uninterp spec fn decimal_quotient(
    dividend_mantissa: int,
    dividend_scale: nat,
    divisor_mantissa: int,
    divisor_scale: nat,
) -> (int, nat);

/// Whether `rust_decimal` may convert a decimal to the double with this bit pattern. The conversion
/// scales by a power of ten in floating point, whose precision the standard library leaves open,
/// so that more than one double may come out.
pub uninterp spec fn decimal_converts_to(mantissa: int, scale: nat, bits: u64) -> bool;

/// Whether a quotient of numbers that are not negative is off by no more than a millionth of itself
/// and ten to the power minus twenty.
pub open spec fn quotient_is_near(
    dividend: DecimalView,
    divisor: DecimalView,
    quotient: DecimalView,
) -> bool {
    let exact = dividend.mantissa * pow10(divisor.scale) * pow10(quotient.scale);
    let found = quotient.mantissa * divisor.mantissa * pow10(dividend.scale);
    let one = divisor.mantissa * pow10(dividend.scale) * pow10(quotient.scale);
    let slack = 100_000_000_000_000 * exact + one;
    -slack <= 100_000_000_000_000_000_000 * (found - exact) <= slack
}

/// Whether a double is off from a decimal that is not negative by no more than a millionth of it.
pub open spec fn double_is_near(d: DecimalView, x: Binary64) -> bool {
    let exact = d.mantissa * pow2(1074);
    -exact <= 1_000_000 * (x.units() * pow10(d.scale) - exact) <= exact
}

/// Calls `rust_decimal::Decimal`'s `-` operator.
///
/// Believed: on mantissas of at most sixty-four bits and scales of at most nine, the operator
/// neither overflows nor rounds, and gives the difference at the common scale; where one side is
/// zero, it gives the other side, with its sign changed where that is the right one.
#[verifier::external_body]
pub(crate) fn decimal_sub(left: &Decimal, right: &Decimal) -> (d: Decimal)
    requires
        left@.operand(),
        right@.operand(),
    ensures
        d@ == left@.minus(right@),
{
    let d = rust_decimal::Decimal::from_i128_with_scale(left.mantissa, left.scale)
        - rust_decimal::Decimal::from_i128_with_scale(right.mantissa, right.scale);
    Decimal { mantissa: d.mantissa(), scale: d.scale() }
}

/// Calls `rust_decimal::Decimal`'s `<=` operator.
///
/// Believed: it compares the numbers, whatever their scales.
#[verifier::external_body]
pub(crate) fn decimal_le(left: &Decimal, right: &Decimal) -> (b: bool)
    requires
        left@.in_range(),
        right@.in_range(),
    ensures
        b == left@.at_most(right@),
{
    rust_decimal::Decimal::from_i128_with_scale(left.mantissa, left.scale)
        <= rust_decimal::Decimal::from_i128_with_scale(right.mantissa, right.scale)
}

/// Calls `rust_decimal::Decimal`'s `/` operator.
///
/// Believed: on mantissas of at most sixty-four bits and scales of at most nine, with a divisor other
/// than zero, the quotient's integer part fits ninety-six bits, so the operator does not overflow;
/// the result depends on the operands alone; zero divided by anything is zero; a quotient of numbers
/// that are not negative is not negative, and is off by no more than a millionth of itself and ten
/// to the power minus twenty: it is rounded only where ninety-six bits or twenty-eight digits behind
/// the point are used up. How the last digit is rounded is not stated.
#[verifier::external_body]
pub(crate) fn decimal_div(dividend: &Decimal, divisor: &Decimal) -> (q: Decimal)
    requires
        dividend@.operand(),
        divisor@.operand(),
        divisor@.mantissa != 0,
    ensures
        (q@.mantissa, q@.scale) == decimal_quotient(
            dividend@.mantissa,
            dividend@.scale,
            divisor@.mantissa,
            divisor@.scale,
        ),
        dividend@.mantissa == 0 ==> q@ == zero_view(),
        dividend@.mantissa >= 0 && divisor@.mantissa > 0 ==> q@.mantissa >= 0
            && quotient_is_near(dividend@, divisor@, q@),
{
    let q = rust_decimal::Decimal::from_i128_with_scale(dividend.mantissa, dividend.scale)
        / rust_decimal::Decimal::from_i128_with_scale(divisor.mantissa, divisor.scale);
    Decimal { mantissa: q.mantissa(), scale: q.scale() }
}

/// Calls `to_f64` of `rust_decimal::prelude::ToPrimitive` on a decimal, and takes the bit pattern
/// of the double.
///
/// Believed: there always is a double; it is one of those that the mantissa and the scale may be
/// converted to; zero gives positive zero; a decimal that is not negative gives a number without a
/// sign, which is off by no more than a millionth. The conversion rounds a handful of times, and
/// scales up and down by the same power of ten, which `f64::powi` has to give to such an accuracy.
/// How the number is rounded is not stated.
#[verifier::external_body]
pub(crate) fn decimal_to_double(d: &Decimal) -> (x: Option<Binary64>)
    requires
        d@.in_range(),
    ensures
        x is Some,
        decimal_converts_to(d@.mantissa, d@.scale, x->0.bits),
        d@.mantissa == 0 ==> x->0.bits == 0,
        d@.mantissa >= 0 ==> !x->0.nan() && !x->0.negative() && double_is_near(d@, x->0),
{
    rust_decimal::Decimal::from_i128_with_scale(d.mantissa, d.scale)
        .to_f64()
        .map(|x| Binary64 { bits: x.to_bits() })
}

} // verus!
