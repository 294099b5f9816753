//! Numbers and plane vectors as the library carries them.
use vstd::prelude::*;

verus! {

/// A single-precision number, held as the 32 bits of its encoding: the sign
/// in the highest bit, below it eight bits of exponent and 23 of fraction.
///
/// The library stores such numbers, hands them on, and compares them. It
/// never computes with them. Two `Num`s are equal with `==` when their bits
/// are, which is not the order of numbers: the two zeros differ in their
/// bits and are neither less than the other.
#[derive(Clone, Copy, Debug, PartialEq, Eq, Structural)]
pub struct Num {
    pub bits: u32,
}

impl Num {
    /// Positive zero, whose bits are all clear.
    pub fn zero() -> (n: Num)
        ensures
            n == Num::zero_spec(),
    {
        Num { bits: 0 }
    }

    /// Positive zero.
    pub open spec fn zero_spec() -> Num {
        Num { bits: 0 }
    }

    /// The bits say "not a number": the exponent is all ones and the
    /// fraction is not zero.
    pub open spec fn is_nan(self) -> bool {
        self.bits & 0x7fff_ffff > 0x7f80_0000
    }

    /// The number's place among the numbers: the bits below the sign, read
    /// as an integer, with the sign before it. Both zeros have place 0, and
    /// of two numbers the greater has the greater place.
    pub open spec fn rank(self) -> int {
        if self.bits & 0x8000_0000 == 0 {
            (self.bits & 0x7fff_ffff) as int
        } else {
            -((self.bits & 0x7fff_ffff) as int)
        }
    }

    /// `self < other` as numbers. Nothing is less than what is not a number,
    /// and what is not a number is less than nothing.
    pub open spec fn lt_spec(self, other: Num) -> bool {
        !self.is_nan() && !other.is_nan() && self.rank() < other.rank()
    }

    /// `self <= other` as numbers. What is not a number is neither at most
    /// nor at least anything.
    pub open spec fn le_spec(self, other: Num) -> bool {
        !self.is_nan() && !other.is_nan() && self.rank() <= other.rank()
    }

    /// `self <= 0` as numbers.
    pub open spec fn le_zero(self) -> bool {
        self.le_spec(Num::zero_spec())
    }

    /// Whether the bits say "not a number".
    fn nan(self) -> (r: bool)
        ensures
            r == self.is_nan(),
    {
        self.bits & 0x7fff_ffff > 0x7f80_0000
    }

    /// The number's place among the numbers.
    fn place(self) -> (r: i64)
        ensures
            r == self.rank(),
    {
        let below: u32 = self.bits & 0x7fff_ffff;
        if self.bits & 0x8000_0000 == 0 {
            below as i64
        } else {
            -(below as i64)
        }
    }

    /// Whether `self < other` as numbers.
    pub fn lt(self, other: Num) -> (r: bool)
        ensures
            r == self.lt_spec(other),
    {
        !self.nan() && !other.nan() && self.place() < other.place()
    }

    /// Whether `self <= other` as numbers.
    pub fn le(self, other: Num) -> (r: bool)
        ensures
            r == self.le_spec(other),
    {
        !self.nan() && !other.nan() && self.place() <= other.place()
    }
}

/// A vector in the plane.
#[derive(Clone, Copy, Debug, PartialEq, Eq, Structural)]
pub struct Vec2 {
    pub x: Num,
    pub y: Num,
}

impl Vec2 {
    /// The vector with the given components.
    pub fn new(x: Num, y: Num) -> (v: Vec2)
        ensures
            v.x == x,
            v.y == y,
    {
        Vec2 { x, y }
    }

    /// The vector whose components are both positive zero.
    pub fn zero() -> (v: Vec2)
        ensures
            v == Vec2::zero_spec(),
    {
        Vec2 { x: Num::zero(), y: Num::zero() }
    }

    /// The zero vector.
    pub open spec fn zero_spec() -> Vec2 {
        Vec2 { x: Num::zero_spec(), y: Num::zero_spec() }
    }
}

} // verus!
