use vstd::prelude::*;

verus! {

/// A double-precision number, held by its IEEE 754 bit pattern.
///
/// The library compares, negates and clamps such numbers; it does no
/// arithmetic on them.
#[derive(Clone, Copy, Debug, PartialEq, Eq, Structural)]
pub struct Double {
    pub bits: u64,
}

/// The sign bit on its own: every pattern from here on is negative.
pub const SIGN_BIT: u64 = 0x8000_0000_0000_0000;

/// The magnitude of an infinity: anything above it is not a number.
pub const INFINITE_MAGNITUDE: u64 = 0x7ff0_0000_0000_0000;

impl Double {
    /// The bits below the sign.
    pub open spec fn magnitude(self) -> int {
        if self.bits >= SIGN_BIT {
            self.bits - SIGN_BIT
        } else {
            self.bits as int
        }
    }

    /// Where the number stands on the number line: numbers compare as their
    /// ranks do, and both zeros have rank 0.
    pub open spec fn rank(self) -> int {
        if self.bits >= SIGN_BIT {
            -self.magnitude()
        } else {
            self.magnitude()
        }
    }

    /// It is not a number.
    pub open spec fn nan(self) -> bool {
        self.magnitude() > INFINITE_MAGNITUDE
    }

    /// It is a number, and not infinite.
    pub open spec fn finite(self) -> bool {
        self.magnitude() < INFINITE_MAGNITUDE
    }

    /// `self < other`: false as soon as either is not a number.
    pub open spec fn below(self, other: Double) -> bool {
        !self.nan() && !other.nan() && self.rank() < other.rank()
    }

    /// `self <= other`: false as soon as either is not a number.
    pub open spec fn up_to(self, other: Double) -> bool {
        !self.nan() && !other.nan() && self.rank() <= other.rank()
    }

    /// `self == other` as numbers: the two zeros are equal, a NaN equals nothing.
    pub open spec fn same_number(self, other: Double) -> bool {
        !self.nan() && !other.nan() && self.rank() == other.rank()
    }

    /// `-self`.
    pub open spec fn opposite(self) -> Double {
        if self.bits >= SIGN_BIT {
            Double { bits: (self.bits - SIGN_BIT) as u64 }
        } else {
            Double { bits: (self.bits + SIGN_BIT) as u64 }
        }
    }

    /// `|self|`.
    pub open spec fn size(self) -> Double {
        if self.bits >= SIGN_BIT {
            Double { bits: (self.bits - SIGN_BIT) as u64 }
        } else {
            self
        }
    }

    /// The nearest number to `self` in `[low, high]`; a NaN stays a NaN.
    pub open spec fn held_within(self, low: Double, high: Double) -> Double {
        if self.below(low) {
            low
        } else if high.below(self) {
            high
        } else {
            self
        }
    }

    fn magnitude_bits(self) -> (r: u64)
        ensures
            r == self.magnitude(),
    {
        if self.bits >= SIGN_BIT {
            self.bits - SIGN_BIT
        } else {
            self.bits
        }
    }

    pub fn is_nan(self) -> (r: bool)
        ensures
            r == self.nan(),
    {
        self.magnitude_bits() > INFINITE_MAGNITUDE
    }

    pub fn is_finite(self) -> (r: bool)
        ensures
            r == self.finite(),
    {
        self.magnitude_bits() < INFINITE_MAGNITUDE
    }

    pub fn is_below(self, other: Double) -> (r: bool)
        ensures
            r == self.below(other),
    {
        if self.is_nan() || other.is_nan() {
            return false;
        }
        self.ranks_below(other)
    }

    /// Compares the ranks, which also puts what is not a number in a place.
    pub fn ranks_below(self, other: Double) -> (r: bool)
        ensures
            r == (self.rank() < other.rank()),
    {
        let a: u64 = self.magnitude_bits();
        let b: u64 = other.magnitude_bits();
        if self.bits >= SIGN_BIT {
            if other.bits >= SIGN_BIT {
                a > b
            } else {
                a > 0 || b > 0
            }
        } else {
            if other.bits >= SIGN_BIT {
                false
            } else {
                a < b
            }
        }
    }

    /// The rank as a number.
    pub fn rank_number(self) -> (r: i128)
        ensures
            r == self.rank(),
    {
        let m: u64 = self.magnitude_bits();
        if self.bits >= SIGN_BIT {
            -(m as i128)
        } else {
            m as i128
        }
    }

    pub fn is_up_to(self, other: Double) -> (r: bool)
        ensures
            r == self.up_to(other),
    {
        !self.is_nan() && !other.is_nan() && !other.is_below(self)
    }

    pub fn is_same_number(self, other: Double) -> (r: bool)
        ensures
            r == self.same_number(other),
    {
        self.is_up_to(other) && other.is_up_to(self)
    }

    pub fn negated(self) -> (r: Double)
        ensures
            r == self.opposite(),
    {
        if self.bits >= SIGN_BIT {
            Double { bits: self.bits - SIGN_BIT }
        } else {
            Double { bits: self.bits + SIGN_BIT }
        }
    }

    pub fn absolute(self) -> (r: Double)
        ensures
            r == self.size(),
    {
        if self.bits >= SIGN_BIT {
            Double { bits: self.bits - SIGN_BIT }
        } else {
            self
        }
    }

    /// Brings the number into `[low, high]`.
    pub fn clamped(self, low: Double, high: Double) -> (r: Double)
        requires
            low.up_to(high),
        ensures
            r == self.held_within(low, high),
            self.nan() ==> r == self,
            !self.nan() ==> low.up_to(r) && r.up_to(high),
            low.up_to(self) && self.up_to(high) ==> r == self,
    {
        if self.is_below(low) {
            low
        } else if high.is_below(self) {
            high
        } else {
            self
        }
    }
}

/// Numbers are totally ordered: of two that are no NaN, exactly one comes
/// first or they are equal; the order is transitive.
pub proof fn numbers_are_totally_ordered(a: Double, b: Double, c: Double)
    requires
        !a.nan(),
        !b.nan(),
        !c.nan(),
    ensures
        a.below(b) || b.below(a) || a.same_number(b),
        !(a.below(b) && b.below(a)),
        a.below(b) ==> !a.same_number(b),
        a.below(b) && b.below(c) ==> a.below(c),
        a.up_to(b) <==> !b.below(a),
{
}

/// Negation undoes itself and turns the order round.
pub proof fn negation_reverses_the_order(a: Double, b: Double)
    ensures
        a.opposite().opposite() == a,
        a.opposite().rank() == -a.rank(),
        a.below(b) <==> b.opposite().below(a.opposite()),
{
}

} // verus!
