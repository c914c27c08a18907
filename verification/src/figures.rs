//! Results of floating-point arithmetic that the numeric side of the program
//! works out and the library decides by.
use vstd::prelude::*;

use crate::double::Double;

verus! {

/// A place on the site, in metres.
#[derive(Clone, Copy, Debug, PartialEq, Eq, Structural)]
pub struct Pt {
    pub x: Double,
    pub y: Double,
}

/// What stands for a result that was not worked out: not a number.
pub const NO_RESULT: u64 = 0x7ff8_0000_0000_0000;

/// Differences `a - b` of doubles.
#[derive(Debug)]
pub struct Differences {
    pub entries: Vec<(Double, Double, Double)>,
}

/// The result of the first entry for a pair; not a number if there is none.
pub open spec fn first_difference(
    entries: Seq<(Double, Double, Double)>,
    a: Double,
    b: Double,
) -> Double
    decreases entries.len(),
{
    if entries.len() == 0 {
        Double { bits: NO_RESULT }
    } else if entries[0].0 == a && entries[0].1 == b {
        entries[0].2
    } else {
        first_difference(entries.drop_first(), a, b)
    }
}

impl Differences {
    /// `a - b`.
    pub open spec fn difference(self, a: Double, b: Double) -> Double {
        first_difference(self.entries@, a, b)
    }

    /// `|a - b|` lies below a bound.
    pub open spec fn within(self, a: Double, b: Double, bound: Double) -> bool {
        self.difference(a, b).size().below(bound)
    }

    /// Looks a difference up.
    pub fn minus(&self, a: Double, b: Double) -> (r: Double)
        ensures
            r == self.difference(a, b),
    {
        let mut i: usize = 0;
        assert(self.entries@.skip(0) =~= self.entries@);
        while i < self.entries.len()
            invariant
                i <= self.entries@.len(),
                first_difference(self.entries@, a, b) == first_difference(
                    self.entries@.skip(i as int),
                    a,
                    b,
                ),
            decreases self.entries@.len() - i,
        {
            assert(self.entries@.skip(i as int)[0] == self.entries@[i as int]);
            if self.entries[i].0 == a && self.entries[i].1 == b {
                return self.entries[i].2;
            }
            assert(self.entries@.skip(i as int).drop_first() =~= self.entries@.skip(i + 1));
            i += 1;
        }
        Double { bits: NO_RESULT }
    }

    /// Whether two numbers differ by less than a bound.
    pub fn is_within(&self, a: Double, b: Double, bound: Double) -> (r: bool)
        ensures
            r == self.within(a, b, bound),
    {
        self.minus(a, b).absolute().is_below(bound)
    }
}

/// Distances between places, in metres.
#[derive(Debug)]
pub struct Distances {
    pub entries: Vec<(Pt, Pt, Double)>,
}

/// The distance in the first entry for a pair; not a number if there is none.
pub open spec fn first_distance(
    entries: Seq<(Pt, Pt, Double)>,
    a: Pt,
    b: Pt,
) -> Double
    decreases entries.len(),
{
    if entries.len() == 0 {
        Double { bits: NO_RESULT }
    } else if entries[0].0 == a && entries[0].1 == b {
        entries[0].2
    } else {
        first_distance(entries.drop_first(), a, b)
    }
}

impl Distances {
    /// How far apart two places are.
    pub open spec fn distance(self, a: Pt, b: Pt) -> Double {
        first_distance(self.entries@, a, b)
    }

    /// Looks a distance up.
    pub fn between(&self, a: Pt, b: Pt) -> (r: Double)
        ensures
            r == self.distance(a, b),
    {
        let mut i: usize = 0;
        assert(self.entries@.skip(0) =~= self.entries@);
        while i < self.entries.len()
            invariant
                i <= self.entries@.len(),
                first_distance(self.entries@, a, b) == first_distance(
                    self.entries@.skip(i as int),
                    a,
                    b,
                ),
            decreases self.entries@.len() - i,
        {
            assert(self.entries@.skip(i as int)[0] == self.entries@[i as int]);
            if self.entries[i].0 == a && self.entries[i].1 == b {
                return self.entries[i].2;
            }
            assert(self.entries@.skip(i as int).drop_first() =~= self.entries@.skip(i + 1));
            i += 1;
        }
        Double { bits: NO_RESULT }
    }
}

/// Whole numbers as doubles: each with the double nearest to it.
#[derive(Debug)]
pub struct Wholes {
    pub entries: Vec<(i128, Double)>,
}

/// The double in the first entry for a whole number; not a number if there is
/// none.
pub open spec fn first_whole(entries: Seq<(i128, Double)>, n: int) -> Double
    decreases entries.len(),
{
    if entries.len() == 0 {
        Double { bits: NO_RESULT }
    } else if entries[0].0 == n {
        entries[0].1
    } else {
        first_whole(entries.drop_first(), n)
    }
}

impl Wholes {
    /// A whole number as a double.
    pub open spec fn nearest(self, n: int) -> Double {
        first_whole(self.entries@, n)
    }

    /// Looks a whole number up.
    pub fn double_of(&self, n: i128) -> (r: Double)
        ensures
            r == self.nearest(n as int),
    {
        let mut i: usize = 0;
        assert(self.entries@.skip(0) =~= self.entries@);
        while i < self.entries.len()
            invariant
                i <= self.entries@.len(),
                first_whole(self.entries@, n as int) == first_whole(
                    self.entries@.skip(i as int),
                    n as int,
                ),
            decreases self.entries@.len() - i,
        {
            assert(self.entries@.skip(i as int)[0] == self.entries@[i as int]);
            if self.entries[i].0 == n {
                return self.entries[i].1;
            }
            assert(self.entries@.skip(i as int).drop_first() =~= self.entries@.skip(i + 1));
            i += 1;
        }
        Double { bits: NO_RESULT }
    }
}

} // verus!
