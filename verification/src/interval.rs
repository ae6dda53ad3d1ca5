//! Time-of-day intervals within one calendar day, and their geometric
//! operations: containment, intersection, merge and the six-way subtraction
//! that the whole diff algebra is built on.

use vstd::prelude::*;

use crate::types::TimeOfDay;

verus! {

/// A window of time within one day, `start <= end`. By convention the
/// window is half-open: the minute `end` itself is already outside.
#[derive(PartialEq, Eq, Structural, Debug, Clone, Copy, Hash)]
pub struct Interval {
    pub start: TimeOfDay,
    pub end: TimeOfDay,
}

/// The result of computing `a - b` on intervals.
#[derive(PartialEq, Eq, Structural, Debug, Clone, Copy)]
pub enum IntervalSubtraction {
    /// No overlap: `b` ends at or before the start of `a`.
    MissLeft(Interval),
    /// Overlap: `b` eats the left or the right of `a`; the surviving
    /// remnant is carried.
    HitLeft(Interval),
    /// `b` lies strictly inside `a`: two remnants survive.
    HitCenter(Interval, Interval),
    /// Overlap that leaves a single strictly smaller remnant and does not
    /// match the `HitLeft` shape.
    HitRight(Interval),
    /// No overlap: `b` starts at or after the end of `a`.
    MissRight(Interval),
    /// `a` is fully contained in `b`: nothing survives.
    Empty,
}

impl Interval {
    /// Both endpoints are valid times of day and the interval does not run
    /// backwards.
    pub open spec fn wf(self) -> bool {
        self.start.wf() && self.end.wf() && self.start.spec_le(self.end)
    }

    /// Length of the interval, in minutes.
    pub open spec fn spec_len(self) -> int {
        self.end.spec_minutes() - self.start.spec_minutes()
    }

    /// Two intervals intersect when either one's start lies within the
    /// other's closed range. Touching endpoints count as intersecting, so
    /// that merging is conservative.
    pub open spec fn spec_intersects(self, other: Interval) -> bool {
        (self.start.spec_le(other.start) && other.start.spec_le(self.end)) || (
        other.start.spec_le(self.start) && self.start.spec_le(other.end))
    }

    /// Exact shape of `self - other`, by the six-way case split.
    pub open spec fn spec_subtract(self, other: Interval) -> IntervalSubtraction {
        if other.start.spec_le(self.start) && self.end.spec_le(other.end) {
            IntervalSubtraction::Empty
        } else if other.end.spec_le(self.start) {
            IntervalSubtraction::MissLeft(self)
        } else if self.end.spec_le(other.start) {
            IntervalSubtraction::MissRight(self)
        } else if other.start.spec_le(self.start) && other.end.spec_lt(self.end) {
            IntervalSubtraction::HitLeft(Interval { start: other.end, end: self.end })
        } else if self.start.spec_le(other.start) && self.end.spec_le(other.end) {
            IntervalSubtraction::HitLeft(Interval { start: self.start, end: other.start })
        } else {
            IntervalSubtraction::HitCenter(
                Interval { start: self.start, end: other.start },
                Interval { start: other.end, end: self.end },
            )
        }
    }

    /// Minutes left in the interval at time `time`: `None` when `time` is
    /// outside the closed range, else the distance to `end`.
    pub fn remaining(&self, time: TimeOfDay) -> (r: Option<u16>)
        requires
            self.wf(),
            time.wf(),
        ensures
            r is Some <==> (self.start.spec_le(time) && time.spec_le(self.end)),
            r is Some ==> r->0 == self.end.spec_minutes() - time.spec_minutes(),
    {
        if time.lt(self.start) || self.end.lt(time) {
            return None;
        }
        Some(self.end.as_minutes() - time.as_minutes())
    }

    /// The length of an interval, in minutes.
    pub fn len(&self) -> (r: u16)
        requires
            self.wf(),
        ensures
            r == self.spec_len(),
    {
        self.end.as_minutes() - self.start.as_minutes()
    }

    pub fn intersects(&self, other: &Interval) -> (r: bool)
        ensures
            r == self.spec_intersects(*other),
    {
        if self.start.le(other.start) && other.start.le(self.end) {
            return true;
        }
        if other.start.le(self.start) && self.start.le(other.end) {
            return true;
        }
        false
    }

    /// The union of two intersecting intervals; `None` when they do not
    /// intersect.
    pub fn merge(&self, other: &Interval) -> (r: Option<Interval>)
        ensures
            r is Some <==> self.spec_intersects(*other),
            r is Some ==> r->0 == (Interval {
                start: if self.start.spec_le(other.start) { self.start } else { other.start },
                end: if other.end.spec_le(self.end) { self.end } else { other.end },
            }),
    {
        if !self.intersects(other) {
            return None;
        }
        let start = if self.start.le(other.start) {
            self.start
        } else {
            other.start
        };
        let end = if other.end.le(self.end) {
            self.end
        } else {
            other.end
        };
        Some(Interval { start, end })
    }

    /// Whether the interval covers at least one minute. (The name is
    /// historical; the result is true for a non-degenerate interval.)
    pub fn is_empty(&self) -> (r: bool)
        requires
            self.wf(),
        ensures
            r == self.start.spec_lt(self.end),
    {
        self.start.lt(self.end)
    }

    /// Subtract `other` from `self`, reporting which of the six geometric
    /// shapes the result takes.
    pub fn subtract(self, other: Interval) -> (r: IntervalSubtraction)
        ensures
            r == self.spec_subtract(other),
    {
        if other.start.le(self.start) && self.end.le(other.end) {
            IntervalSubtraction::Empty
        } else if other.end.le(self.start) {
            IntervalSubtraction::MissLeft(self)
        } else if self.end.le(other.start) {
            IntervalSubtraction::MissRight(self)
        } else if other.start.le(self.start) && other.end.lt(self.end) {
            IntervalSubtraction::HitLeft(Interval { start: other.end, end: self.end })
        } else if self.start.le(other.start) && self.end.le(other.end) {
            IntervalSubtraction::HitLeft(Interval { start: self.start, end: other.start })
        } else {
            IntervalSubtraction::HitCenter(
                Interval { start: self.start, end: other.start },
                Interval { start: other.end, end: self.end },
            )
        }
    }
}

/// The interval that covers the whole day.
pub fn full_day() -> (r: Interval)
    ensures
        r == spec_full_day(),
{
    Interval {
        start: TimeOfDay { hours: 0, minutes: 0 },
        end: TimeOfDay { hours: 24, minutes: 0 },
    }
}

pub open spec fn spec_full_day() -> Interval {
    Interval {
        start: TimeOfDay { hours: 0, minutes: 0 },
        end: TimeOfDay { hours: 24, minutes: 0 },
    }
}

/// Subtracting an interval from itself leaves nothing.
pub proof fn lemma_subtract_self(a: Interval)
    ensures
        a.spec_subtract(a) == IntervalSubtraction::Empty,
{
}

/// Subtracting a strictly disjoint interval misses: the whole of `a`
/// survives, on the left when `b` lies before it and on the right when `b`
/// lies after it.
pub proof fn lemma_subtract_disjoint(a: Interval, b: Interval)
    requires
        a.wf(),
        b.wf(),
        b.end.spec_lt(a.start) || a.end.spec_lt(b.start),
    ensures
        b.end.spec_lt(a.start) ==> a.spec_subtract(b) == IntervalSubtraction::MissLeft(a),
        a.end.spec_lt(b.start) ==> a.spec_subtract(b) == IntervalSubtraction::MissRight(a),
{
}

} // verus!
