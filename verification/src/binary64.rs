//! IEEE 754 binary64 values carried by their bit pattern.

use vstd::arithmetic::power2::{lemma2_to64, lemma_pow2_adds, lemma_pow2_pos, pow2};
use vstd::prelude::*;

verus! {

/// The bit of the sign.
pub const SIGN_BIT: u64 = 0x8000_0000_0000_0000;

/// The bit pattern of positive infinity: every larger magnitude is a NaN.
pub const INFINITY_BITS: u64 = 0x7ff0_0000_0000_0000;

/// A double-precision value, held as its IEEE 754 bit pattern.
#[derive(Clone, Copy, Debug)]
pub struct Binary64 {
    /// Sign bit, eleven exponent bits, fifty-two fraction bits.
    pub bits: u64,
}

impl Binary64 {
    /// Whether the sign bit is set.
    pub open spec fn negative(self) -> bool {
        self.bits >= SIGN_BIT
    }

    /// The pattern without its sign bit. Magnitudes order as the absolute values do.
    pub open spec fn magnitude(self) -> int {
        if self.negative() {
            self.bits - SIGN_BIT
        } else {
            self.bits as int
        }
    }

    /// Whether the value is not a number.
    pub open spec fn nan(self) -> bool {
        self.magnitude() > INFINITY_BITS
    }

    /// The place of the value on the number line: the numbers order as their ranks do, and both
    /// zeros have rank zero.
    pub open spec fn rank(self) -> int {
        if self.negative() {
            -self.magnitude()
        } else {
            self.magnitude()
        }
    }

    /// The value in units of the smallest positive double, two to the power minus 1074: what the
    /// fraction and the exponent say, with the sign. Infinity counts as the value behind the
    /// largest finite one.
    pub open spec fn units(self) -> int {
        let exponent = self.magnitude() / 0x10_0000_0000_0000;
        let fraction = self.magnitude() % 0x10_0000_0000_0000;
        let size = if exponent == 0 {
            fraction
        } else {
            (0x10_0000_0000_0000 + fraction) * pow2((exponent - 1) as nat)
        };
        if self.negative() {
            -size
        } else {
            size
        }
    }

    /// The IEEE 754 comparison `self <= other`: false as soon as one side is not a number.
    pub open spec fn at_most(self, other: Binary64) -> bool {
        !self.nan() && !other.nan() && self.rank() <= other.rank()
    }

    /// The IEEE 754 comparison `self == other`: false as soon as one side is not a number.
    pub open spec fn equals(self, other: Binary64) -> bool {
        !self.nan() && !other.nan() && self.rank() == other.rank()
    }

    /// Positive zero.
    pub fn zero() -> (z: Binary64)
        ensures
            z == (Binary64 { bits: 0 }),
    {
        Binary64 { bits: 0 }
    }

    /// Whether the value is not a number.
    pub fn is_nan(&self) -> (b: bool)
        ensures
            b == self.nan(),
    {
        let magnitude: u64 = if self.bits >= SIGN_BIT { self.bits - SIGN_BIT } else { self.bits };
        magnitude > INFINITY_BITS
    }

    fn signed_rank(&self) -> (r: i64)
        requires
            !self.nan(),
        ensures
            r == self.rank(),
    {
        if self.bits >= SIGN_BIT {
            let magnitude: u64 = self.bits - SIGN_BIT;
            -(magnitude as i64)
        } else {
            self.bits as i64
        }
    }

    /// Compares `self <= other` as IEEE 754 does.
    pub fn le(&self, other: &Binary64) -> (b: bool)
        ensures
            b == self.at_most(*other),
    {
        if self.is_nan() || other.is_nan() {
            return false;
        }
        self.signed_rank() <= other.signed_rank()
    }
}

/// A larger magnitude is a larger size.
proof fn lemma_sizes_in_order(small: Binary64, large: Binary64)
    requires
        !small.negative(),
        !large.negative(),
        small.bits < large.bits,
    ensures
        0 <= small.units() < large.units(),
{
    let unit: int = 0x10_0000_0000_0000;
    let e1 = small.bits as int / unit;
    let e2 = large.bits as int / unit;
    let f1 = small.bits as int % unit;
    let f2 = large.bits as int % unit;
    assert(e1 <= e2);
    if e1 == e2 {
        if e1 > 0 {
            let p = pow2((e1 - 1) as nat) as int;
            lemma_pow2_pos((e1 - 1) as nat);
            assert(0 <= (unit + f1) * p < (unit + f2) * p) by (nonlinear_arith)
                requires
                    0 <= f1 < f2,
                    p > 0,
                    unit > 0,
            ;
        }
    } else {
        let q = pow2((e2 - 1) as nat) as int;
        lemma_pow2_pos((e2 - 1) as nat);
        assert(unit * q <= (unit + f2) * q) by (nonlinear_arith)
            requires
                0 <= f2,
                q > 0,
        ;
        if e1 == 0 {
            assert(unit <= unit * q) by (nonlinear_arith)
                requires
                    q >= 1,
                    unit > 0,
            ;
        } else {
            let p = pow2((e1 - 1) as nat) as int;
            let r = pow2((e2 - e1 - 1) as nat) as int;
            lemma_pow2_pos((e1 - 1) as nat);
            lemma_pow2_pos((e2 - e1 - 1) as nat);
            lemma_pow2_adds((e1 - 1) as nat, 1);
            lemma_pow2_adds(e1 as nat, (e2 - e1 - 1) as nat);
            lemma_pow2_one();
            assert(q == p * 2 * r);
            assert(0 <= (unit + f1) * p < unit * q) by (nonlinear_arith)
                requires
                    0 <= f1 < unit,
                    p >= 1,
                    r >= 1,
                    q == p * 2 * r,
            ;
        }
    }
}

/// Two to the power one.
proof fn lemma_pow2_one()
    ensures
        pow2(1) == 2,
{
    lemma2_to64();
}

/// Doubles compare as their values do.
pub proof fn law_doubles_compare_by_value(left: Binary64, right: Binary64)
    requires
        !left.nan(),
        !right.nan(),
    ensures
        left.at_most(right) <==> left.units() <= right.units(),
        left.equals(right) <==> left.units() == right.units(),
{
    let a = Binary64 { bits: left.magnitude() as u64 };
    let b = Binary64 { bits: right.magnitude() as u64 };
    let zero = Binary64 { bits: 0 };
    assert(a.units() == if left.negative() {
        -left.units()
    } else {
        left.units()
    });
    assert(b.units() == if right.negative() {
        -right.units()
    } else {
        right.units()
    });
    if a.bits < b.bits {
        lemma_sizes_in_order(a, b);
    }
    if b.bits < a.bits {
        lemma_sizes_in_order(b, a);
    }
    if a.bits > 0 {
        lemma_sizes_in_order(zero, a);
    }
    if b.bits > 0 {
        lemma_sizes_in_order(zero, b);
    }
}

/// The first bit of a double is its sign. Behind it, more than the pattern of infinity is no number.
pub proof fn law_double_parts(x: Binary64)
    ensures
        x.negative() <==> x.bits >= 0x8000_0000_0000_0000,
        x.bits < 0x8000_0000_0000_0000 ==> x.magnitude() == x.bits,
        x.bits >= 0x8000_0000_0000_0000 ==> x.magnitude() == x.bits - 0x8000_0000_0000_0000,
        x.nan() <==> 0x7ff0_0000_0000_0000 < x.bits < 0x8000_0000_0000_0000 || x.bits
            > 0xfff0_0000_0000_0000,
{
}

/// A double that is not a number compares with none.
pub proof fn law_nan_compares_with_nothing(left: Binary64, right: Binary64)
    requires
        left.nan() || right.nan(),
    ensures
        !left.at_most(right),
        !left.equals(right),
{
}

impl PartialEq for Binary64 {
    fn eq(&self, other: &Binary64) -> (b: bool) {
        if self.is_nan() || other.is_nan() {
            return false;
        }
        self.signed_rank() == other.signed_rank()
    }
}

impl vstd::std_specs::cmp::PartialEqSpecImpl for Binary64 {
    open spec fn obeys_eq_spec() -> bool {
        true
    }

    open spec fn eq_spec(&self, other: &Binary64) -> bool {
        self.equals(*other)
    }
}

} // verus!
