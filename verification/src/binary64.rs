//! Floating-point values, carried as their IEEE 754 bit patterns.
//!
//! Geometry reaches this crate as 64-bit floating-point numbers. The crate
//! holds each one as a [`Real`]: its bit pattern, an integer. Whether a value
//! is finite, and how two values compare, follows from the bit patterns
//! alone. Arithmetic and decimal rendering do not; a caller supplies those
//! through [`Numbers`].

use vstd::prelude::*;

verus! {

/// A 64-bit floating-point value, as its bit pattern.
#[derive(Debug, Clone, Copy, PartialEq, Eq, Structural)]
pub struct Real {
    pub bits: u64,
}

/// The sign bit.
pub const SIGN: u64 = 0x8000_0000_0000_0000;

/// The magnitude of an infinity. A larger magnitude is not a number.
pub const INFINITE: u64 = 0x7FF0_0000_0000_0000;

/// The bits of zero.
pub const ZERO: u64 = 0;

/// The bits of one.
pub const ONE: u64 = 0x3FF0_0000_0000_0000;

/// The bits of two.
pub const TWO: u64 = 0x4000_0000_0000_0000;

/// Floating-point arithmetic and rendering, supplied by the caller. Each
/// operand and each result is a bit pattern.
pub trait Numbers {
    /// `a + b`.
    fn sum(&self, a: Real, b: Real) -> Real;

    /// `a - b`.
    fn difference(&self, a: Real, b: Real) -> Real;

    /// `a * b`.
    fn product(&self, a: Real, b: Real) -> Real;

    /// `a / b`.
    fn quotient(&self, a: Real, b: Real) -> Real;

    /// The shortest decimal text that reads back as `value`.
    fn shown(&self, value: Real) -> String;

    /// `value` with two digits after the decimal point.
    fn shown_to_hundredths(&self, value: Real) -> String;
}

/// Whether the arithmetic always gives the same result for the same operands.
pub open spec fn steady<N: Numbers>(numbers: &N) -> bool {
    &&& forall|a: Real, b: Real, p: Real, q: Real|
        #[trigger] call_ensures(N::sum, (numbers, a, b), p) && #[trigger] call_ensures(
            N::sum,
            (numbers, a, b),
            q,
        ) ==> p == q
    &&& forall|a: Real, b: Real, p: Real, q: Real|
        #[trigger] call_ensures(N::difference, (numbers, a, b), p) && #[trigger] call_ensures(
            N::difference,
            (numbers, a, b),
            q,
        ) ==> p == q
    &&& forall|a: Real, b: Real, p: Real, q: Real|
        #[trigger] call_ensures(N::product, (numbers, a, b), p) && #[trigger] call_ensures(
            N::product,
            (numbers, a, b),
            q,
        ) ==> p == q
    &&& forall|a: Real, b: Real, p: Real, q: Real|
        #[trigger] call_ensures(N::quotient, (numbers, a, b), p) && #[trigger] call_ensures(
            N::quotient,
            (numbers, a, b),
            q,
        ) ==> p == q
}

impl Default for Real {
    /// Zero.
    fn default() -> (r: Self)
        ensures
            r == (Real { bits: ZERO }),
    {
        Real { bits: ZERO }
    }
}

impl Real {
    /// Whether the sign bit is set.
    pub open spec fn negative(self) -> bool {
        self.bits >= SIGN
    }

    /// The bit pattern without its sign bit.
    pub open spec fn magnitude(self) -> int {
        if self.negative() {
            self.bits - SIGN
        } else {
            self.bits as int
        }
    }

    /// Whether the pattern is not a number.
    pub open spec fn nan(self) -> bool {
        self.magnitude() > INFINITE
    }

    /// Whether the value is neither infinite nor not-a-number.
    pub open spec fn finite(self) -> bool {
        self.magnitude() < INFINITE
    }

    /// The place of the value in numeric order. Both zeros share one place.
    pub open spec fn rank(self) -> int {
        if self.negative() {
            -self.magnitude()
        } else {
            self.magnitude()
        }
    }

    /// The place of the pattern in the total order of all patterns: negative
    /// before positive, and a negative zero before a positive one.
    pub open spec fn place(self) -> int {
        if self.negative() {
            -1 - self.magnitude()
        } else {
            self.magnitude()
        }
    }

    /// `self < other`: false when either one is not a number.
    pub open spec fn below(self, other: Real) -> bool {
        !self.nan() && !other.nan() && self.rank() < other.rank()
    }

    /// `self <= other`: false when either one is not a number.
    pub open spec fn at_most(self, other: Real) -> bool {
        !self.nan() && !other.nan() && self.rank() <= other.rank()
    }

    /// Whether the value lies in `0.0..=1.0`.
    pub open spec fn in_unit(self) -> bool {
        (Real { bits: ZERO }).at_most(self) && self.at_most(Real { bits: ONE })
    }

    /// The value held inside `0.0..=1.0`. A pattern that is not a number
    /// stays as it is.
    pub open spec fn unit_clamped(self) -> Real {
        if self.below(Real { bits: ZERO }) {
            Real { bits: ZERO }
        } else if (Real { bits: ONE }).below(self) {
            Real { bits: ONE }
        } else {
            self
        }
    }

    /// The smaller of two values; the other one when one is not a number.
    pub open spec fn lesser(self, other: Real) -> Real {
        if self.nan() || other.below(self) {
            other
        } else {
            self
        }
    }

    /// The larger of two values; the other one when one is not a number.
    pub open spec fn greater(self, other: Real) -> Real {
        if self.nan() || self.below(other) {
            other
        } else {
            self
        }
    }

    /// The value itself when it is finite, and zero when it is not.
    pub open spec fn finite_or_zero(self) -> Real {
        if self.finite() {
            self
        } else {
            Real { bits: ZERO }
        }
    }

    /// The bit pattern without its sign bit, and whether that bit was set.
    fn parts(self) -> (r: (bool, u64))
        ensures
            r.0 == self.negative(),
            r.1 == self.magnitude(),
    {
        if self.bits >= SIGN {
            (true, self.bits - SIGN)
        } else {
            (false, self.bits)
        }
    }

    /// Whether the pattern is not a number.
    pub fn is_nan(self) -> (r: bool)
        ensures
            r == self.nan(),
    {
        self.parts().1 > INFINITE
    }

    /// Whether the value is neither infinite nor not-a-number.
    pub fn is_finite(self) -> (r: bool)
        ensures
            r == self.finite(),
    {
        self.parts().1 < INFINITE
    }

    /// `self < other`: false when either one is not a number.
    pub fn is_below(self, other: Real) -> (r: bool)
        ensures
            r == self.below(other),
    {
        if self.is_nan() || other.is_nan() {
            return false;
        }
        let (left_negative, left) = self.parts();
        let (right_negative, right) = other.parts();
        if left_negative {
            if right_negative {
                right < left
            } else {
                left > 0 || right > 0
            }
        } else {
            !right_negative && left < right
        }
    }

    /// `self <= other`: false when either one is not a number.
    pub fn is_at_most(self, other: Real) -> (r: bool)
        ensures
            r == self.at_most(other),
    {
        !self.is_nan() && !other.is_nan() && !other.is_below(self)
    }

    /// Whether the pattern stands before `other` in the total order of all
    /// patterns.
    pub fn stands_before(self, other: Real) -> (r: bool)
        ensures
            r == (self.place() < other.place()),
    {
        let (left_negative, left) = self.parts();
        let (right_negative, right) = other.parts();
        if left_negative {
            !right_negative || right < left
        } else {
            !right_negative && left < right
        }
    }

    /// Whether the value lies in `0.0..=1.0`.
    pub fn is_in_unit(self) -> (r: bool)
        ensures
            r == self.in_unit(),
    {
        (Real { bits: ZERO }).is_at_most(self) && self.is_at_most(Real { bits: ONE })
    }

    /// The value held inside `0.0..=1.0`. A pattern that is not a number
    /// stays as it is.
    pub fn clamp_to_unit(self) -> (r: Real)
        ensures
            r == self.unit_clamped(),
    {
        let zero = Real { bits: ZERO };
        let one = Real { bits: ONE };
        if self.is_below(zero) {
            zero
        } else if one.is_below(self) {
            one
        } else {
            self
        }
    }

    /// The smaller of two values; the other one when one is not a number.
    pub fn min(self, other: Real) -> (r: Real)
        ensures
            r == self.lesser(other),
    {
        if self.is_nan() || other.is_below(self) {
            other
        } else {
            self
        }
    }

    /// The larger of two values; the other one when one is not a number.
    pub fn max(self, other: Real) -> (r: Real)
        ensures
            r == self.greater(other),
    {
        if self.is_nan() || self.is_below(other) {
            other
        } else {
            self
        }
    }

    /// The value itself when it is finite, and zero when it is not.
    pub fn or_zero(self) -> (r: Real)
        ensures
            r == self.finite_or_zero(),
    {
        if self.is_finite() {
            self
        } else {
            Real { bits: ZERO }
        }
    }
}

/// Holding a number inside `0.0..=1.0` always gives a value inside it.
pub proof fn clamped_is_in_unit(value: Real)
    requires
        !value.nan(),
    ensures
        value.unit_clamped().in_unit(),
{
}

/// A value inside `0.0..=1.0` is not moved by the clamp.
pub proof fn clamp_keeps_unit(value: Real)
    requires
        value.in_unit(),
    ensures
        value.unit_clamped() == value,
{
}

/// The total order tells any two different patterns apart, and on numbers it
/// never disagrees with the numeric order.
pub proof fn places_are_distinct(a: Real, b: Real)
    ensures
        a.place() == b.place() ==> a == b,
        a.below(b) ==> a.place() < b.place(),
{
}

/// The number that a pattern stands for, in units of the smallest one: its
/// fraction where its exponent is zero, and else its fraction with the hidden
/// bit, doubled for each step of the exponent.
pub open spec fn units(magnitude: nat) -> nat {
    let exponent = magnitude / 0x10_0000_0000_0000;
    let fraction = magnitude % 0x10_0000_0000_0000;
    if exponent == 0 {
        fraction
    } else {
        (0x10_0000_0000_0000 + fraction) * vstd::arithmetic::power2::pow2((exponent - 1) as nat)
    }
}

/// The number that a pattern stands for, in units of the smallest one, with its
/// sign.
pub open spec fn amount(value: Real) -> int {
    let bare = (value.bits % 0x8000_0000_0000_0000) as nat;
    if value.bits >= 0x8000_0000_0000_0000 {
        -(units(bare) as int)
    } else {
        units(bare) as int
    }
}

proof fn lemma_units_rise(a: nat, b: nat)
    requires
        a < b,
    ensures
        units(a) < units(b),
{
    let size: nat = 0x10_0000_0000_0000;
    let ea = a / size;
    let eb = b / size;
    let fa = a % size;
    let fb = b % size;
    assert(ea <= eb) by (nonlinear_arith)
        requires
            a < b,
            size == 0x10_0000_0000_0000,
            ea == a / size,
            eb == b / size,
    ;
    assert(a == ea * size + fa && b == eb * size + fb && fa < size && fb < size)
        by (nonlinear_arith)
        requires
            size == 0x10_0000_0000_0000,
            ea == a / size,
            eb == b / size,
            fa == a % size,
            fb == b % size,
    ;
    if ea == eb {
        assert(fa < fb);
        if ea > 0 {
            let p = vstd::arithmetic::power2::pow2((ea - 1) as nat);
            vstd::arithmetic::power2::lemma_pow2_pos((ea - 1) as nat);
            assert((size + fa) * p < (size + fb) * p) by (nonlinear_arith)
                requires
                    fa < fb,
                    p > 0,
            ;
        }
    } else {
        let pb = vstd::arithmetic::power2::pow2((eb - 1) as nat);
        vstd::arithmetic::power2::lemma_pow2_pos((eb - 1) as nat);
        assert((size + fb) * pb >= size * pb) by (nonlinear_arith)
            requires
                pb > 0,
        ;
        if ea == 0 {
            assert(size * pb >= size) by (nonlinear_arith)
                requires
                    pb >= 1,
            ;
        } else {
            let pa = vstd::arithmetic::power2::pow2((ea - 1) as nat);
            vstd::arithmetic::power2::lemma_pow2_unfold(ea);
            assert(vstd::arithmetic::power2::pow2(ea) == 2 * pa);
            if ea < eb - 1 {
                vstd::arithmetic::power2::lemma_pow2_strictly_increases(ea, (eb - 1) as nat);
            }
            assert(pb >= 2 * pa);
            vstd::arithmetic::power2::lemma_pow2_pos((ea - 1) as nat);
            assert((size + fa) * pa < size * pb) by (nonlinear_arith)
                requires
                    fa < size,
                    pa > 0,
                    pb >= 2 * pa,
            ;
        }
    }
}

/// Comparing patterns compares the numbers that they stand for: of two patterns
/// that are numbers, the one is below the other exactly when its number is less,
/// and both zeros are the same number. What is no number is below nothing, and
/// nothing is below it.
pub proof fn comparing_compares_the_numbers(a: Real, b: Real)
    ensures
        a.nan() <==> a.bits % 0x8000_0000_0000_0000 > 0x7FF0_0000_0000_0000,
        a.finite() <==> a.bits % 0x8000_0000_0000_0000 < 0x7FF0_0000_0000_0000,
        !a.nan() && !b.nan() ==> (a.below(b) <==> amount(a) < amount(b)),
        !a.nan() && !b.nan() ==> (a.at_most(b) <==> amount(a) <= amount(b)),
        a.nan() || b.nan() ==> !a.below(b) && !a.at_most(b),
{
    let ma = a.magnitude() as nat;
    let mb = b.magnitude() as nat;
    assert(ma == a.bits % 0x8000_0000_0000_0000);
    assert(mb == b.bits % 0x8000_0000_0000_0000);
    assert(units(0) == 0);
    if ma < mb {
        lemma_units_rise(ma, mb);
    } else if mb < ma {
        lemma_units_rise(mb, ma);
    }
    if ma > 0 {
        lemma_units_rise(0, ma);
    }
    if mb > 0 {
        lemma_units_rise(0, mb);
    }
}

/// The lesser and the greater of two numbers is one of them, and is no greater or
/// no less than either. What is no number gives way to the other. A value is held
/// inside zero to one: what lies there stays, what is less becomes zero, and what
/// is more becomes one.
pub proof fn bounds_are_the_nearest(a: Real, b: Real)
    ensures
        !a.nan() && !b.nan() ==> (a.lesser(b) == a || a.lesser(b) == b) && a.lesser(b).at_most(a)
            && a.lesser(b).at_most(b),
        !a.nan() && !b.nan() ==> (a.greater(b) == a || a.greater(b) == b) && a.at_most(a.greater(b))
            && b.at_most(a.greater(b)),
        a.nan() ==> a.lesser(b) == b && a.greater(b) == b,
        b.nan() && !a.nan() ==> a.lesser(b) == a && a.greater(b) == a,
        a.finite() ==> a.finite_or_zero() == a,
        !a.finite() ==> a.finite_or_zero().bits == 0,
        !a.nan() && a.rank() < 0 ==> a.unit_clamped().bits == 0,
        !a.nan() && a.rank() > 0x3FF0_0000_0000_0000 ==> a.unit_clamped().bits
            == 0x3FF0_0000_0000_0000,
        !a.nan() && 0 <= a.rank() <= 0x3FF0_0000_0000_0000 ==> a.unit_clamped() == a && a.in_unit(),
        a.in_unit() ==> !a.nan() && 0 <= a.rank() <= 0x3FF0_0000_0000_0000,
{
}

/// Every two patterns have an order, and a lesser number stands before a greater
/// one. A negative zero stands before a positive one. A pattern that is not a
/// number stands before all numbers where its sign bit is set, and behind them
/// where it is not.
pub proof fn patterns_stand_in_the_order_of_their_numbers(a: Real, b: Real, before: bool)
    requires
        call_ensures(Real::stands_before, (a, b), before),
    ensures
        a.below(b) ==> before,
        b.below(a) || a == b ==> !before,
        a.bits == 0x8000_0000_0000_0000 && b.bits == 0 ==> before,
        a.bits == 0 && b.bits == 0x8000_0000_0000_0000 ==> !before,
        a.nan() && !b.nan() ==> (before <==> a.bits >= 0x8000_0000_0000_0000),
        b.nan() && !a.nan() ==> (before <==> b.bits < 0x8000_0000_0000_0000),
{
}

} // verus!
