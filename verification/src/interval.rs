//! Intervals of numbers, given by their two ends.
//!
//! The ends are not ordered by construction: an interval whose lower end lies
//! above its upper end holds no number at all.

use vstd::prelude::*;
use crate::fixed::Fixed;
use crate::fixed::MAX_RAW;

verus! {

/// The numbers from `min` to `max`.
#[derive(Clone, Copy, Debug, PartialEq, Eq, Structural)]
pub struct Interval {
    pub min: Fixed,
    pub max: Fixed,
}

impl Interval {
    /// The interval that holds no number: from positive to negative infinity.
    pub open spec fn empty_spec() -> Interval {
        Interval { min: Fixed::of(MAX_RAW as int), max: Fixed::of(-MAX_RAW) }
    }

    /// The interval that holds every number in range.
    pub open spec fn universe_spec() -> Interval {
        Interval { min: Fixed::of(-MAX_RAW), max: Fixed::of(MAX_RAW as int) }
    }

    /// The upper end less the lower end.
    pub open spec fn size_spec(self) -> Fixed {
        self.max.minus(self.min)
    }

    /// `x` lies in the interval, ends counted.
    pub open spec fn contains_spec(self, x: Fixed) -> bool {
        self.min.raw <= x.raw <= self.max.raw
    }

    /// `x` lies strictly between the ends.
    pub open spec fn surrounds_spec(self, x: Fixed) -> bool {
        self.min.raw < x.raw < self.max.raw
    }

    /// The nearest number to `x` between the ends; the lower end wins where
    /// the ends are out of order.
    pub open spec fn clamp_spec(self, x: Fixed) -> Fixed {
        if x.raw < self.min.raw {
            self.min
        } else if x.raw > self.max.raw {
            self.max
        } else {
            x
        }
    }

    /// The interval from `min` to `max`.
    pub fn new(min: Fixed, max: Fixed) -> (r: Interval)
        ensures
            r == (Interval { min, max }),
    {
        Interval { min, max }
    }

    /// The upper end less the lower end: negative where the interval
    /// holds nothing.
    pub fn size(&self) -> (r: Fixed)
        ensures
            r == self.size_spec(),
    {
        self.max - self.min
    }

    /// Whether `other` lies in the interval, ends counted.
    pub fn contains(&self, other: Fixed) -> (r: bool)
        ensures
            r == self.contains_spec(other),
    {
        self.min.raw <= other.raw && other.raw <= self.max.raw
    }

    /// Whether `other` lies strictly between the ends.
    pub fn surrounds(&self, other: Fixed) -> (r: bool)
        ensures
            r == self.surrounds_spec(other),
    {
        self.min.raw < other.raw && other.raw < self.max.raw
    }

    /// The interval that holds no number.
    pub fn empty() -> (r: Interval)
        ensures
            r == Interval::empty_spec(),
    {
        Interval { min: Fixed { raw: MAX_RAW }, max: Fixed { raw: -MAX_RAW } }
    }

    /// The interval that holds every number in range.
    pub fn universe() -> (r: Interval)
        ensures
            r == Interval::universe_spec(),
    {
        Interval { min: Fixed { raw: -MAX_RAW }, max: Fixed { raw: MAX_RAW } }
    }

    /// The nearest number to `x` in the interval.
    pub fn clamp(&self, x: Fixed) -> (r: Fixed)
        ensures
            r == self.clamp_spec(x),
    {
        if x.raw < self.min.raw {
            return self.min;
        }
        if x.raw > self.max.raw {
            return self.max;
        }
        x
    }
}

impl Default for Interval {
    /// The empty interval.
    fn default() -> (r: Interval)
        ensures
            r == Interval::empty_spec(),
    {
        Interval::empty()
    }
}

/// The empty interval contains nothing, and the universe contains every
/// number in range.
pub proof fn lemma_empty_and_universe(x: Fixed)
    ensures
        !Interval::empty_spec().contains_spec(x),
        !Interval::empty_spec().surrounds_spec(x),
        x.in_range() ==> Interval::universe_spec().contains_spec(x),
{
}

/// A number in the interval is left as it is. Where the ends are in order,
/// a clamped number lies in the interval and clamping twice changes nothing.
pub proof fn lemma_clamp(iv: Interval, x: Fixed)
    ensures
        iv.min.raw <= iv.max.raw ==> iv.contains_spec(iv.clamp_spec(x)),
        iv.contains_spec(x) ==> iv.clamp_spec(x) == x,
        iv.min.raw <= iv.max.raw ==> iv.clamp_spec(iv.clamp_spec(x)) == iv.clamp_spec(x),
{
}

} // verus!
