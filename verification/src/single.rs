//! Single-precision numbers, held as their bit patterns.
//!
//! The wire carries IEEE 754 binary32 values, and the simulation hands the rest of the
//! program positions, velocities and bounds of the same kind. Everything here that
//! copies, compares, negates or clamps such a number does so on its bits, and says what
//! that means of the number: see [`Single::units`].

use vstd::arithmetic::power2::lemma_pow2_adds;
use vstd::arithmetic::power2::lemma_pow2_pos;
use vstd::arithmetic::power2::lemma2_to64;
use vstd::arithmetic::power2::pow2;
use vstd::prelude::*;

verus! {

/// The sign bit of a binary32 pattern.
pub const SIGN: u32 = 0x8000_0000;

/// The pattern of positive infinity; every larger magnitude pattern is a NaN.
pub const INFINITY: u32 = 0x7f80_0000;

/// The pattern of the NaN that arithmetic gives.
pub const NO_NUMBER: u32 = 0x7fc0_0000;

/// The pattern of 0.5.
pub const HALF: u32 = 0x3f00_0000;

/// The pattern of 1.0.
pub const ONE: u32 = 0x3f80_0000;

/// A binary32 number. `==` on it compares patterns; the numeric order is [`Single::lt`].
#[derive(Clone, Copy, Debug, PartialEq, Eq, Structural)]
pub struct Single {
    pub bits: u32,
}

/// How many multiples of 2^-149 (the smallest positive binary32) the number with this
/// sign-free pattern is. The pattern of infinity gets the next value after the largest
/// finite one.
pub open spec fn magnitude_units(pattern: nat) -> nat {
    let exponent = pattern / 0x80_0000;
    let fraction = pattern % 0x80_0000;
    if exponent == 0 {
        fraction
    } else {
        (0x80_0000 + fraction) * pow2((exponent - 1) as nat)
    }
}

impl Single {
    /// The pattern without its sign bit.
    pub open spec fn magnitude(self) -> nat {
        (self.bits % SIGN) as nat
    }

    /// Whether the sign bit is set.
    pub open spec fn is_negative(self) -> bool {
        self.bits >= SIGN
    }

    /// Neither infinite nor NaN.
    pub open spec fn finite(self) -> bool {
        self.magnitude() < INFINITY
    }

    /// Not a number: unordered with respect to everything.
    pub open spec fn nan(self) -> bool {
        self.magnitude() > INFINITY
    }

    /// The number, in multiples of 2^-149. Every finite binary32 is a whole number of
    /// them, so this is its exact value; infinities stand beyond all finite values.
    pub open spec fn units(self) -> int {
        if self.is_negative() {
            -(magnitude_units(self.magnitude()) as int)
        } else {
            magnitude_units(self.magnitude()) as int
        }
    }

    /// `self < other`, as the machine compares floats: false if either is a NaN.
    pub open spec fn below(self, other: Single) -> bool {
        !self.nan() && !other.nan() && self.units() < other.units()
    }

    /// `self <= other`, as the machine compares floats: false if either is a NaN.
    pub open spec fn at_most(self, other: Single) -> bool {
        !self.nan() && !other.nan() && self.units() <= other.units()
    }

    /// `self == other`, as the machine compares floats: false if either is a NaN.
    pub open spec fn equals(self, other: Single) -> bool {
        !self.nan() && !other.nan() && self.units() == other.units()
    }

    /// The number with its sign changed.
    pub open spec fn negated(self) -> Single {
        if self.bits >= SIGN {
            Single { bits: (self.bits - SIGN) as u32 }
        } else {
            Single { bits: (self.bits + SIGN) as u32 }
        }
    }

    /// The smaller of two numbers; the other one if one is a NaN.
    pub open spec fn smaller(self, other: Single) -> Single {
        if self.nan() || other.below(self) {
            other
        } else {
            self
        }
    }

    /// The larger of two numbers; the other one if one is a NaN.
    pub open spec fn larger(self, other: Single) -> Single {
        if self.nan() || self.below(other) {
            other
        } else {
            self
        }
    }

    /// The number moved into the range from 0 to 1.
    pub open spec fn clamped(self) -> Single {
        if self.below(Single { bits: 0 }) {
            Single { bits: 0 }
        } else if (Single { bits: ONE }).below(self) {
            Single { bits: ONE }
        } else {
            self
        }
    }

    /// The place of the pattern in the order in which they are laid out: as the numbers,
    /// with negative zero before zero and NaNs at both ends.
    pub open spec fn place(self) -> int {
        if self.is_negative() {
            -(self.magnitude() as int) - 1
        } else {
            self.magnitude() as int
        }
    }
}

/// A larger pattern is a larger number.
pub proof fn lemma_magnitude_order(a: nat, b: nat)
    requires
        a < b < 0x8000_0000,
    ensures
        magnitude_units(a) < magnitude_units(b),
{
    let ea = a / 0x80_0000;
    let fa = a % 0x80_0000;
    let eb = b / 0x80_0000;
    let fb = b % 0x80_0000;
    if ea == eb {
        if ea > 0 {
            let p = pow2((ea - 1) as nat);
            lemma_pow2_pos((ea - 1) as nat);
            assert((0x80_0000 + fa) * p < (0x80_0000 + fb) * p) by (nonlinear_arith)
                requires
                    fa < fb,
                    p > 0,
            ;
        }
    } else {
        let pb = pow2((eb - 1) as nat);
        lemma_pow2_pos((eb - 1) as nat);
        assert((0x80_0000 + fb) * pb >= 0x80_0000 * pb) by (nonlinear_arith)
            requires
                pb > 0,
        ;
        if ea == 0 {
            assert(0x80_0000 * pb >= 0x80_0000) by (nonlinear_arith)
                requires
                    pb > 0,
            ;
        } else {
            let pa = pow2((ea - 1) as nat);
            let step = (eb - ea) as nat;
            lemma_pow2_pos((ea - 1) as nat);
            lemma_pow2_adds((ea - 1) as nat, step);
            assert(pow2(step) >= 2) by {
                lemma_pow2_adds(1, (step - 1) as nat);
                lemma_pow2_pos((step - 1) as nat);
                lemma2_to64();
                assert(pow2(1) * pow2((step - 1) as nat) >= 2) by (nonlinear_arith)
                    requires
                        pow2(1) == 2,
                        pow2((step - 1) as nat) >= 1,
                ;
            }
            assert(pb >= 2 * pa) by (nonlinear_arith)
                requires
                    pb == pa * pow2(step),
                    pow2(step) >= 2,
            ;
            assert((0x80_0000 + fa) * pa < 0x80_0000 * pb) by (nonlinear_arith)
                requires
                    fa < 0x80_0000,
                    pa > 0,
                    pb >= 2 * pa,
            ;
        }
    }
}

/// Zero is the only number of magnitude zero.
proof fn lemma_magnitude_zero(a: nat)
    requires
        a < 0x8000_0000,
    ensures
        magnitude_units(a) == 0 <==> a == 0,
{
    if a > 0 {
        lemma_magnitude_order(0, a);
    }
}

impl Single {
    /// A place in the order of all non-NaN numbers, both zeros sharing one.
    pub open spec fn rank(self) -> int {
        if self.is_negative() {
            -(self.magnitude() as int)
        } else {
            self.magnitude() as int
        }
    }

    /// Ranks order numbers as their values do.
    pub proof fn lemma_rank(self, other: Single)
        ensures
            self.rank() < other.rank() <==> self.units() < other.units(),
            self.rank() == other.rank() <==> self.units() == other.units(),
    {
        let a = self.magnitude();
        let b = other.magnitude();
        lemma_magnitude_zero(a);
        lemma_magnitude_zero(b);
        if a < b {
            lemma_magnitude_order(a, b);
        } else if b < a {
            lemma_magnitude_order(b, a);
        }
    }

    pub fn new(bits: u32) -> (r: Single)
        ensures
            r.bits == bits,
    {
        Single { bits }
    }

    pub fn is_finite(self) -> (r: bool)
        ensures
            r == self.finite(),
    {
        self.bits % SIGN < INFINITY
    }

    fn rank_of(self) -> (r: i64)
        ensures
            r == self.rank(),
    {
        let m: i64 = (self.bits % SIGN) as i64;
        if self.bits >= SIGN {
            -m
        } else {
            m
        }
    }

    /// Whether this is less than `other`; false if either is a NaN.
    pub fn lt(self, other: Single) -> (r: bool)
        ensures
            r == self.below(other),
    {
        proof {
            self.lemma_rank(other);
        }
        self.bits % SIGN <= INFINITY && other.bits % SIGN <= INFINITY && self.rank_of()
            < other.rank_of()
    }

    /// Whether this is at most `other`; false if either is a NaN.
    pub fn le(self, other: Single) -> (r: bool)
        ensures
            r == self.at_most(other),
    {
        proof {
            self.lemma_rank(other);
        }
        self.bits % SIGN <= INFINITY && other.bits % SIGN <= INFINITY && self.rank_of()
            <= other.rank_of()
    }

    /// Whether both are the same number; false if either is a NaN. The two zeros are the
    /// same number.
    pub fn same(self, other: Single) -> (r: bool)
        ensures
            r == self.equals(other),
    {
        proof {
            self.lemma_rank(other);
        }
        self.bits % SIGN <= INFINITY && other.bits % SIGN <= INFINITY && self.rank_of()
            == other.rank_of()
    }

    /// The smaller of two numbers; the other one if one is a NaN.
    pub fn min(self, other: Single) -> (r: Single)
        ensures
            r == self.smaller(other),
    {
        if self.bits % SIGN > INFINITY || other.lt(self) {
            other
        } else {
            self
        }
    }

    /// The larger of two numbers; the other one if one is a NaN.
    pub fn max(self, other: Single) -> (r: Single)
        ensures
            r == self.larger(other),
    {
        if self.bits % SIGN > INFINITY || self.lt(other) {
            other
        } else {
            self
        }
    }

    /// Whether this comes after `other` in the order in which the patterns are laid out:
    /// as the numbers, with negative zero before zero and NaNs at both ends.
    pub fn after(self, other: Single) -> (r: bool)
        ensures
            r == (self.place() > other.place()),
    {
        self.place_of() > other.place_of()
    }

    fn place_of(self) -> (r: i64)
        ensures
            r == self.place(),
    {
        let m: i64 = (self.bits % SIGN) as i64;
        if self.bits >= SIGN {
            -m - 1
        } else {
            m
        }
    }

    /// The number with its sign changed.
    pub fn neg(self) -> (r: Single)
        ensures
            r.magnitude() == self.magnitude(),
            r.is_negative() == !self.is_negative(),
            r.units() == -self.units(),
            r == self.negated(),
    {
        if self.bits >= SIGN {
            Single { bits: self.bits - SIGN }
        } else {
            Single { bits: self.bits + SIGN }
        }
    }

    /// `0.0` below zero, `1.0` above one, the number itself between. Negative zero is
    /// not below zero and stays as it is, and so does a NaN.
    pub fn clamp_unit(self) -> (r: Single)
        ensures
            r == self.clamped(),
    {
        let zero = Single { bits: 0 };
        let one = Single { bits: ONE };
        if self.lt(zero) {
            zero
        } else if one.lt(self) {
            one
        } else {
            self
        }
    }
}

/// Changing the sign gives the opposite number, and doing so twice the same pattern again.
pub proof fn law_the_opposite_number(x: Single)
    ensures
        x.negated().units() == -x.units(),
        x.negated().negated() == x,
        x.negated() != x,
        x.negated().finite() == x.finite(),
        x.negated().nan() == x.nan(),
{
}

/// The smaller of two numbers is one of them and not above either, and the larger one of
/// them and not below either; where one is no number it is the other.
pub proof fn law_the_smaller_and_the_larger(a: Single, b: Single)
    ensures
        a.nan() ==> a.smaller(b) == b && a.larger(b) == b,
        b.nan() && !a.nan() ==> a.smaller(b) == a && a.larger(b) == a,
        !a.nan() && !b.nan() ==> {
            &&& a.smaller(b) == a || a.smaller(b) == b
            &&& a.smaller(b).units() <= a.units() && a.smaller(b).units() <= b.units()
            &&& a.larger(b) == a || a.larger(b) == b
            &&& a.larger(b).units() >= a.units() && a.larger(b).units() >= b.units()
        },
{
}

/// A pattern stands for a finite number unless its eight exponent bits are all set, and
/// then for an infinity if no fraction bit is set.
pub proof fn law_which_patterns_are_numbers(x: Single)
    ensures
        x.finite() <==> (x.bits / 0x80_0000) % 0x100 != 0xff,
        x.nan() <==> (x.bits / 0x80_0000) % 0x100 == 0xff && x.bits % 0x80_0000 != 0,
{
}

} // verus!
