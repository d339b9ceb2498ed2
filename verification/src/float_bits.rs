//! Floating-point numbers held by their IEEE 754 encoding.
//!
//! The library never adds or multiplies such numbers. It carries them, tells
//! finite ones from the rest and compares them, and all of that can be read off
//! the encoding: below the sign bit the encodings of numbers of one sign are
//! ordered as the numbers are.
use vstd::prelude::*;

verus! {

/// The encoding of positive infinity in single precision.
pub const FLOAT32_INFINITY: u32 = 0x7f80_0000;

/// The encoding of one in single precision.
pub const FLOAT32_ONE: u32 = 0x3f80_0000;

/// The encoding of one half in single precision.
pub const FLOAT32_HALF: u32 = 0x3f00_0000;

/// The sign bit of a single-precision number.
pub const FLOAT32_SIGN: u32 = 0x8000_0000;

/// The encoding of positive infinity in double precision.
pub const FLOAT64_INFINITY: u64 = 0x7ff0_0000_0000_0000;

/// A single-precision number, held by its encoding.
#[derive(Clone, Copy, Debug, PartialEq, Eq, Structural)]
pub struct Float32 {
    pub bits: u32,
}

impl Float32 {
    /// The encoding without its sign.
    pub open spec fn magnitude(self) -> int {
        if self.bits >= FLOAT32_SIGN {
            self.bits - FLOAT32_SIGN
        } else {
            self.bits as int
        }
    }

    /// Whether the encoding stands for no number.
    pub open spec fn nan(self) -> bool {
        self.magnitude() > FLOAT32_INFINITY
    }

    /// Whether the encoding stands for a finite number.
    pub open spec fn finite(self) -> bool {
        self.magnitude() < FLOAT32_INFINITY
    }

    /// The place of the number on the number line: of two numbers the smaller
    /// one has the smaller rank, and both zeros have rank zero.
    pub open spec fn rank(self) -> int {
        if self.bits >= FLOAT32_SIGN {
            -self.magnitude()
        } else {
            self.magnitude()
        }
    }

    /// Whether both encodings stand for the same number.
    pub open spec fn equals(self, other: Float32) -> bool {
        !self.nan() && !other.nan() && self.rank() == other.rank()
    }

    /// Whether `self` is a smaller number than `other`.
    pub open spec fn less(self, other: Float32) -> bool {
        !self.nan() && !other.nan() && self.rank() < other.rank()
    }

    /// Whether `self` is a number that is at most `other`.
    pub open spec fn at_most(self, other: Float32) -> bool {
        !self.nan() && !other.nan() && self.rank() <= other.rank()
    }

    /// The number zero.
    pub open spec fn spec_zero() -> Float32 {
        Float32 { bits: 0 }
    }

    /// Takes an encoding.
    pub fn from_bits(bits: u32) -> (number: Float32)
        ensures
            number.bits == bits,
    {
        Float32 { bits }
    }

    /// The number zero.
    pub fn zero() -> (number: Float32)
        ensures
            number == Float32::spec_zero(),
    {
        Float32 { bits: 0 }
    }

    /// Whether the number is finite.
    pub fn is_finite(self) -> (result: bool)
        ensures
            result == self.finite(),
    {
        let magnitude: u32 = if self.bits >= FLOAT32_SIGN {
            self.bits - FLOAT32_SIGN
        } else {
            self.bits
        };
        magnitude < FLOAT32_INFINITY
    }

    /// Whether the encoding stands for no number.
    pub fn is_nan(self) -> (result: bool)
        ensures
            result == self.nan(),
    {
        let magnitude: u32 = if self.bits >= FLOAT32_SIGN {
            self.bits - FLOAT32_SIGN
        } else {
            self.bits
        };
        magnitude > FLOAT32_INFINITY
    }

    fn position(self) -> (result: i64)
        ensures
            result as int == self.rank(),
    {
        if self.bits >= FLOAT32_SIGN {
            -((self.bits - FLOAT32_SIGN) as i64)
        } else {
            self.bits as i64
        }
    }

    /// Whether both encodings stand for the same number.
    pub fn is_equal(self, other: Float32) -> (result: bool)
        ensures
            result == self.equals(other),
    {
        !self.is_nan() && !other.is_nan() && self.position() == other.position()
    }

    /// Whether `self` is smaller than `other`.
    pub fn is_less(self, other: Float32) -> (result: bool)
        ensures
            result == self.less(other),
    {
        !self.is_nan() && !other.is_nan() && self.position() < other.position()
    }

    /// Whether `self` is at most `other`.
    pub fn is_at_most(self, other: Float32) -> (result: bool)
        ensures
            result == self.at_most(other),
    {
        !self.is_nan() && !other.is_nan() && self.position() <= other.position()
    }

    /// Whether the number is finite and greater than zero.
    pub open spec fn positive_finite(self) -> bool {
        self.finite() && Float32::spec_zero().less(self)
    }

    /// Whether the number is finite and greater than zero.
    pub fn is_positive_finite(self) -> (result: bool)
        ensures
            result == self.positive_finite(),
    {
        self.is_finite() && Float32::zero().is_less(self)
    }

    /// The greater of two numbers; `other` where neither is greater.
    pub open spec fn spec_greater(self, other: Float32) -> Float32 {
        if other.less(self) {
            self
        } else {
            other
        }
    }

    /// The greater of two numbers; `other` where neither is greater.
    pub fn greater(self, other: Float32) -> (result: Float32)
        ensures
            result == self.spec_greater(other),
    {
        if other.is_less(self) {
            self
        } else {
            other
        }
    }

    /// The smaller of two numbers; `other` where neither is smaller.
    pub open spec fn spec_smaller(self, other: Float32) -> Float32 {
        if self.less(other) {
            self
        } else {
            other
        }
    }

    /// The smaller of two numbers; `other` where neither is smaller.
    pub fn smaller(self, other: Float32) -> (result: Float32)
        ensures
            result == self.spec_smaller(other),
    {
        if self.is_less(other) {
            self
        } else {
            other
        }
    }

    /// Whether the difference `self - other` is at most zero. The difference of
    /// two equal infinities is no number, so it is not.
    pub open spec fn not_above(self, other: Float32) -> bool {
        self.less(other) || (self.equals(other) && self.finite())
    }

    /// Whether the difference `self - other` is at most zero.
    pub fn is_not_above(self, other: Float32) -> (result: bool)
        ensures
            result == self.not_above(other),
    {
        self.is_less(other) || (self.is_equal(other) && self.is_finite())
    }
}

/// A double-precision number, held by its encoding.
#[derive(Clone, Copy, Debug, PartialEq, Eq, Structural)]
pub struct Float64 {
    pub bits: u64,
}

impl Float64 {
    /// Whether the number is finite and greater than zero: the sign is clear,
    /// and the encoding lies strictly between those of zero and infinity.
    pub open spec fn positive_finite(self) -> bool {
        0 < self.bits < FLOAT64_INFINITY
    }

    /// Takes an encoding.
    pub fn from_bits(bits: u64) -> (number: Float64)
        ensures
            number.bits == bits,
    {
        Float64 { bits }
    }

    /// Whether the number is finite and greater than zero.
    pub fn is_positive_finite(self) -> (result: bool)
        ensures
            result == self.positive_finite(),
    {
        0 < self.bits && self.bits < FLOAT64_INFINITY
    }
}

} // verus!
