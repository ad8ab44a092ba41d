//! Grid cells and vectors of binary64 bit patterns.
use vstd::prelude::*;

verus! {

/// The sign bit of a binary64 pattern. It is also the pattern of negative zero.
pub const SIGN_BIT: u64 = 0x8000_0000_0000_0000;

/// The pattern of positive infinity. The patterns below it and above zero are
/// exactly the positive finite numbers.
pub const INFINITY_BITS: u64 = 0x7FF0_0000_0000_0000;

/// The pattern stands for a number that compares equal to zero: positive or
/// negative zero.
pub open spec fn zero_bits(bits: u64) -> bool {
    bits == 0 || bits == SIGN_BIT
}

/// The pattern stands for a number greater than zero and less than infinity.
/// Zeros, negative numbers, infinities and NaNs are left out.
pub open spec fn positive_finite_bits(bits: u64) -> bool {
    0 < bits < INFINITY_BITS
}

/// Tells whether the number with this pattern compares equal to zero.
pub fn is_zero(bits: u64) -> (r: bool)
    ensures
        r == zero_bits(bits),
{
    bits == 0 || bits == SIGN_BIT
}

/// Tells whether a vector of this length can be scaled to unit length: the
/// length, given by its pattern, has to be a positive finite number, so that
/// dividing by it divides neither by zero nor by something that is no number.
pub fn direction_usable(length: u64) -> (r: bool)
    ensures
        r == positive_finite_bits(length),
{
    0 < length && length < INFINITY_BITS
}

/// Integer coordinates of one unit cube of the grid: those of its minimum corner.
#[derive(Clone, Copy, Debug, PartialEq, Eq, Structural)]
pub struct Cell {
    pub x: i32,
    pub y: i32,
    pub z: i32,
}

impl Cell {
    pub fn new(x: i32, y: i32, z: i32) -> (c: Cell)
        ensures
            c == (Cell { x, y, z }),
    {
        Cell { x, y, z }
    }
}

/// A point or a direction in space. Each component is the bit pattern of a
/// binary64 number.
#[derive(Clone, Copy, Debug, PartialEq, Eq, Structural)]
pub struct Vec3 {
    pub x: u64,
    pub y: u64,
    pub z: u64,
}

impl Vec3 {
    /// The vector whose three components are positive zero.
    pub open spec fn spec_zero() -> Vec3 {
        Vec3 { x: 0, y: 0, z: 0 }
    }

    /// Every component compares equal to zero. A vector with a NaN component
    /// is not zero.
    pub open spec fn spec_is_zero(self) -> bool {
        zero_bits(self.x) && zero_bits(self.y) && zero_bits(self.z)
    }

    pub fn new(x: u64, y: u64, z: u64) -> (v: Vec3)
        ensures
            v == (Vec3 { x, y, z }),
    {
        Vec3 { x, y, z }
    }

    pub fn zero() -> (v: Vec3)
        ensures
            v == Vec3::spec_zero(),
            v.spec_is_zero(),
    {
        Vec3 { x: 0, y: 0, z: 0 }
    }

    /// Tells whether the vector compares equal to the zero vector.
    pub fn is_zero(&self) -> (r: bool)
        ensures
            r == self.spec_is_zero(),
    {
        is_zero(self.x) && is_zero(self.y) && is_zero(self.z)
    }
}

} // verus!
