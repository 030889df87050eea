//! Double-precision numbers, carried by their bit pattern.
//!
//! Scores, costs and sampling parameters are doubles. The library stores and orders them; the
//! arithmetic on them belongs to the caller. Ordering is read off the bit pattern: the sign bit,
//! then the remaining sixty-three bits as a magnitude.

use vstd::prelude::*;

verus! {

/// A double, held as the integer whose bits encode it.
#[derive(Debug, Clone, Copy, PartialEq, Eq, Structural)]
pub struct Double {
    /// The bit pattern.
    pub bits: u64,
}

/// The bit pattern of an infinite magnitude: every exponent bit set, no fraction bit set.
pub const INFINITE: u64 = 0x7ff0_0000_0000_0000;

/// The sign bit.
pub const SIGN: u64 = 0x8000_0000_0000_0000;

impl Double {
    /// The magnitude: the bit pattern without the sign bit.
    pub open spec fn magnitude(self) -> int {
        if self.bits >= SIGN {
            self.bits - SIGN
        } else {
            self.bits as int
        }
    }

    /// Whether the pattern encodes no number.
    pub open spec fn nan(self) -> bool {
        self.magnitude() > INFINITE
    }

    /// Whether the pattern encodes a finite number.
    pub open spec fn finite(self) -> bool {
        self.magnitude() < INFINITE
    }

    /// An integer that orders the numbers; the two zeros share one.
    pub open spec fn rank(self) -> int {
        if self.bits >= SIGN {
            -self.magnitude()
        } else {
            self.magnitude()
        }
    }

    /// `self < other`; nothing is less than, or greater than, what encodes no number.
    pub open spec fn below(self, other: Double) -> bool {
        !self.nan() && !other.nan() && self.rank() < other.rank()
    }

    /// `self >= other`.
    pub open spec fn at_least(self, other: Double) -> bool {
        !self.nan() && !other.nan() && self.rank() >= other.rank()
    }

    /// Whether the pattern encodes zero, of either sign.
    pub open spec fn null(self) -> bool {
        self.magnitude() == 0
    }

    /// Whether the pattern encodes zero, of either sign.
    pub fn is_null(self) -> (r: bool)
        ensures
            r == self.null(),
    {
        self.magnitude_of() == 0
    }

    /// The double zero.
    pub fn zero() -> (r: Double)
        ensures
            r == (Double { bits: 0 }),
    {
        Double { bits: 0 }
    }

    /// The double one.
    pub fn one() -> (r: Double)
        ensures
            r == (Double { bits: 0x3ff0_0000_0000_0000 }),
    {
        Double { bits: 0x3ff0_0000_0000_0000 }
    }

    /// The number with the other sign.
    pub open spec fn opposite(self) -> Double {
        if self.bits >= SIGN {
            Double { bits: (self.bits - SIGN) as u64 }
        } else {
            Double { bits: (self.bits + SIGN) as u64 }
        }
    }

    /// The number without its sign.
    pub open spec fn unsigned(self) -> Double {
        Double { bits: self.magnitude() as u64 }
    }

    /// The number with the other sign.
    pub fn negated(self) -> (r: Double)
        ensures
            r == self.opposite(),
    {
        if self.bits >= SIGN {
            Double { bits: self.bits - SIGN }
        } else {
            Double { bits: self.bits + SIGN }
        }
    }

    /// The number without its sign.
    pub fn abs(self) -> (r: Double)
        ensures
            r == self.unsigned(),
    {
        Double { bits: self.magnitude_of() }
    }

    /// The lesser of two; what encodes no number gives way to the other.
    pub open spec fn lesser(self, other: Double) -> Double {
        if self.nan() || other.below(self) {
            other
        } else {
            self
        }
    }

    /// The lesser of two; what encodes no number gives way to the other.
    pub fn min_with(self, other: Double) -> (r: Double)
        ensures
            r == self.lesser(other),
    {
        if self.is_nan() || other.is_below(self) {
            other
        } else {
            self
        }
    }

    /// The greater of two; what encodes no number gives way to the other.
    pub open spec fn greater(self, other: Double) -> Double {
        if self.nan() || self.below(other) {
            other
        } else {
            self
        }
    }

    /// The greater of two; what encodes no number gives way to the other.
    pub fn max_with(self, other: Double) -> (r: Double)
        ensures
            r == self.greater(other),
    {
        if self.is_nan() || self.is_below(other) {
            other
        } else {
            self
        }
    }

    /// The number held between zero and one.
    pub open spec fn held(self) -> Double {
        let zero = Double { bits: 0 };
        let one = Double { bits: 0x3ff0_0000_0000_0000 };
        if self.below(zero) {
            zero
        } else if one.below(self) {
            one
        } else {
            self
        }
    }

    /// The number held between zero and one.
    pub fn clamped(self) -> (r: Double)
        ensures
            r == self.held(),
    {
        if self.is_below(Double::zero()) {
            Double::zero()
        } else if Double::one().is_below(self) {
            Double::one()
        } else {
            self
        }
    }

    fn rank_of(self) -> (r: i128)
        ensures
            r == self.rank(),
    {
        if self.bits >= SIGN {
            -((self.bits - SIGN) as i128)
        } else {
            self.bits as i128
        }
    }

    fn magnitude_of(self) -> (r: u64)
        ensures
            r == self.magnitude(),
    {
        if self.bits >= SIGN {
            self.bits - SIGN
        } else {
            self.bits
        }
    }

    /// Whether the pattern encodes no number.
    pub fn is_nan(self) -> (r: bool)
        ensures
            r == self.nan(),
    {
        self.magnitude_of() > INFINITE
    }

    /// Whether the pattern encodes a finite number.
    pub fn is_finite(self) -> (r: bool)
        ensures
            r == self.finite(),
    {
        self.magnitude_of() < INFINITE
    }

    /// `self < other`.
    pub fn is_below(self, other: Double) -> (r: bool)
        ensures
            r == self.below(other),
    {
        !self.is_nan() && !other.is_nan() && self.rank_of() < other.rank_of()
    }

    /// `self >= other`.
    pub fn is_at_least(self, other: Double) -> (r: bool)
        ensures
            r == self.at_least(other),
    {
        !self.is_nan() && !other.is_nan() && self.rank_of() >= other.rank_of()
    }
}

impl Double {
    /// A number between zero and one is held as it is; what lies outside is held at the nearer end.
    pub proof fn held_lies_between_zero_and_one(self)
        requires
            !self.nan(),
        ensures
            self.held().at_least(Double { bits: 0 }),
            (Double { bits: 0x3ff0_0000_0000_0000 }).at_least(self.held()),
            self.at_least(Double { bits: 0 }) && (Double { bits: 0x3ff0_0000_0000_0000 }).at_least(
                self,
            ) ==> self.held() == self,
            self.below(Double { bits: 0 }) ==> self.held() == (Double { bits: 0 }),
            (Double { bits: 0x3ff0_0000_0000_0000 }).below(self) ==> self.held() == (Double {
                bits: 0x3ff0_0000_0000_0000,
            }),
    {
    }

    /// The lesser and the greater of two are these two, in order; what is no number gives way.
    pub proof fn lesser_and_greater_are_the_two(self, other: Double)
        ensures
            !self.nan() && !other.nan() ==> self.at_least(self.lesser(other)) && other.at_least(
                self.lesser(other),
            ) && self.greater(other).at_least(self) && self.greater(other).at_least(other),
            self.lesser(other) == self || self.lesser(other) == other,
            self.greater(other) == self || self.greater(other) == other,
            self.nan() ==> self.lesser(other) == other && self.greater(other) == other,
            !self.nan() && other.nan() ==> self.lesser(other) == self && self.greater(other) == self,
    {
    }
}

impl Double {
    /// The numbers are in order: of two, one is below the other or they are equal in rank; turning their
    /// signs turns their order; and the larger of two magnitudes lies further from zero.
    pub proof fn numbers_are_in_order(self, other: Double)
        requires
            !self.nan(),
            !other.nan(),
        ensures
            self.below(other) <==> !self.at_least(other),
            self.below(other) <==> other.opposite().below(self.opposite()),
            self.opposite().opposite() == self,
            self.unsigned().at_least(Double { bits: 0 }),
            self.at_least(Double { bits: 0 }) && !self.null() ==> self.unsigned() == self,
            self.below(Double { bits: 0 }) ==> self.unsigned() == self.opposite(),
            self.bits < SIGN && other.bits < SIGN ==> (self.below(other) <==> self.bits < other.bits),
            self.bits > SIGN ==> self.below(Double { bits: 0 }),
    {
    }
}

} // verus!
