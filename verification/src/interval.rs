use vstd::prelude::*;

verus! {

/// A labelled half-open range `[start, end)` on one chromosome.
#[derive(Debug)]
pub struct Interval {
    pub start: u64,
    pub end: u64,
    pub label: String,
}

/// The mathematical value of an [`Interval`].
pub struct IntervalSpec {
    pub start: nat,
    pub end: nat,
    pub label: Seq<char>,
}

impl View for Interval {
    type V = IntervalSpec;

    open spec fn view(&self) -> IntervalSpec {
        IntervalSpec { start: self.start as nat, end: self.end as nat, label: self.label@ }
    }
}

impl IntervalSpec {
    /// The positions `start <= x < end` are the ones the interval covers.
    pub open spec fn covers(self, x: nat) -> bool {
        self.start <= x < self.end
    }

    /// The interval starts after the position `x`.
    pub open spec fn ahead_of(self, x: nat) -> bool {
        x < self.start
    }

    /// The interval has started and ended at or before the position `x`.
    pub open spec fn behind(self, x: nat) -> bool {
        self.start <= x && self.end <= x
    }
}

/// The values of a run of intervals, in the same order.
pub open spec fn views(s: Seq<Interval>) -> Seq<IntervalSpec> {
    Seq::new(s.len(), |k: int| s[k]@)
}

impl Interval {
    /// The interval from `start` up to `end`, labelled `label`.
    pub fn new(start: u64, end: u64, label: String) -> (interval: Interval)
        ensures
            interval.start == start,
            interval.end == end,
            interval.label == label,
    {
        Interval { start, end, label }
    }

    /// The number of positions between the two coordinates, whichever is larger.
    pub fn length(&self) -> (n: u64)
        ensures
            n == span(self@),
    {
        if self.end >= self.start {
            self.end - self.start
        } else {
            self.start - self.end
        }
    }
}

/// Distance between the two coordinates of an interval.
pub open spec fn span(x: IntervalSpec) -> nat {
    if x.end >= x.start {
        (x.end - x.start) as nat
    } else {
        (x.start - x.end) as nat
    }
}

} // verus!
