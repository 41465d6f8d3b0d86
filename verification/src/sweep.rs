use vstd::prelude::*;
use crate::interval::{Interval, IntervalSpec, views};
use crate::overlap::{far_end, lemma_sweep_counts_overlaps, lemma_sweep_covers_union, ordered, overlaps, union_length};

verus! {

/// What a sweep over one chromosome found.
#[derive(Debug, Clone, Copy, PartialEq, Eq, Structural)]
pub struct ChromosomeTally {
    /// Positions passed over inside an interval of either side.
    pub covered_length: u64,
    /// Stretches in which an interval of each side was active at once.
    pub regions: u64,
    /// Those stretches whose two intervals carry the same label.
    pub matching_regions: u64,
    /// Total length of the stretches with the same label.
    pub matching_length: u64,
    /// The larger of the two last interval ends.
    pub chromosome_length: u64,
}

/// The mathematical value of a [`ChromosomeTally`].
pub struct TallySpec {
    pub covered_length: nat,
    pub regions: nat,
    pub matching_regions: nat,
    pub matching_length: nat,
    pub chromosome_length: nat,
}

impl View for ChromosomeTally {
    type V = TallySpec;

    open spec fn view(&self) -> TallySpec {
        TallySpec {
            covered_length: self.covered_length as nat,
            regions: self.regions as nat,
            matching_regions: self.matching_regions as nat,
            matching_length: self.matching_length as nat,
            chromosome_length: self.chromosome_length as nat,
        }
    }
}

impl TallySpec {
    pub open spec fn plus(self, other: TallySpec) -> TallySpec {
        TallySpec {
            covered_length: self.covered_length + other.covered_length,
            regions: self.regions + other.regions,
            matching_regions: self.matching_regions + other.matching_regions,
            matching_length: self.matching_length + other.matching_length,
            chromosome_length: self.chromosome_length + other.chromosome_length,
        }
    }
}

/// How the scanning position `c` lies against the current interval of each
/// side. Each interval is ahead of `c`, covers it, or lies behind it; every
/// pairing but "both behind" is one placement.
pub enum Placement {
    /// Both intervals start after `c`.
    BothAhead,
    /// `c` is inside the first interval and the second has not started.
    FirstOnly,
    /// `c` is inside the second interval and the first has not started.
    SecondOnly,
    /// `c` is inside both intervals.
    Overlap,
    /// The first interval lies behind `c`, which is inside the second.
    FirstEnded,
    /// The second interval lies behind `c`, which is inside the first.
    SecondEnded,
    /// The first interval lies behind `c` and the second has not started.
    FirstBehind,
    /// The second interval lies behind `c` and the first has not started.
    SecondBehind,
}

/// At least one of the two intervals still ends after `c`.
pub open spec fn live(a: IntervalSpec, b: IntervalSpec, c: nat) -> bool {
    c < a.end || c < b.end
}

pub open spec fn placement(a: IntervalSpec, b: IntervalSpec, c: nat) -> Placement
    recommends
        live(a, b, c),
{
    if a.ahead_of(c) && b.ahead_of(c) {
        Placement::BothAhead
    } else if a.covers(c) && b.ahead_of(c) {
        Placement::FirstOnly
    } else if a.ahead_of(c) && b.covers(c) {
        Placement::SecondOnly
    } else if a.covers(c) && b.covers(c) {
        Placement::Overlap
    } else if a.behind(c) && b.covers(c) {
        Placement::FirstEnded
    } else if a.covers(c) && b.behind(c) {
        Placement::SecondEnded
    } else if a.behind(c) && b.ahead_of(c) {
        Placement::FirstBehind
    } else {
        Placement::SecondBehind
    }
}

pub open spec fn smaller(x: nat, y: nat) -> nat {
    if x <= y { x } else { y }
}

pub open spec fn larger(x: nat, y: nat) -> nat {
    if x >= y { x } else { y }
}

/// Where the scanning position moves to from `c`: to the nearest start
/// or end after it that changes the placement.
pub open spec fn next_position(a: IntervalSpec, b: IntervalSpec, c: nat) -> nat {
    match placement(a, b, c) {
        Placement::BothAhead => smaller(a.start, b.start),
        Placement::FirstOnly => smaller(a.end, b.start),
        Placement::SecondOnly => smaller(b.end, a.start),
        Placement::Overlap => smaller(a.end, b.end),
        Placement::FirstEnded => b.end,
        Placement::SecondEnded => a.end,
        Placement::FirstBehind => b.start,
        Placement::SecondBehind => a.start,
    }
}

/// Whether the move from `c` passes over positions that an interval covers.
pub open spec fn passes_cover(a: IntervalSpec, b: IntervalSpec, c: nat) -> bool {
    match placement(a, b, c) {
        Placement::BothAhead => false,
        Placement::FirstBehind => false,
        Placement::SecondBehind => false,
        _ => true,
    }
}

/// What the move from `c` to the next position adds to the tally: the
/// length of the move where it passes over covered positions, and a
/// region where both intervals cover them.
pub open spec fn gain(a: IntervalSpec, b: IntervalSpec, c: nat) -> TallySpec {
    let moved = (next_position(a, b, c) - c) as nat;
    let none = TallySpec {
        covered_length: 0,
        regions: 0,
        matching_regions: 0,
        matching_length: 0,
        chromosome_length: 0,
    };
    if placement(a, b, c) == Placement::Overlap {
        if a.label == b.label {
            TallySpec { covered_length: moved, regions: 1, matching_regions: 1, matching_length: moved, ..none }
        } else {
            TallySpec { covered_length: moved, regions: 1, ..none }
        }
    } else if passes_cover(a, b, c) {
        TallySpec { covered_length: moved, ..none }
    } else {
        none
    }
}

/// The rightmost coordinate of the two intervals.
pub open spec fn reach(a: IntervalSpec, b: IntervalSpec) -> nat {
    larger(larger(a.start, a.end), larger(b.start, b.end))
}

/// The tally of the rest of the sweep, taken up at interval `i` of `a`,
/// interval `j` of `b` and scanning position `c`.
///
/// An interval that has ended is left behind unless it is the last of its
/// side. When none is left behind and neither current interval ends after
/// `c`, the sweep is over and only the length estimate remains to be set.
pub open spec fn sweep_from(a: Seq<IntervalSpec>, b: Seq<IntervalSpec>, i: nat, j: nat, c: nat) -> TallySpec
    decreases a.len() - i + b.len() - j, reach(a[i as int], b[j as int]) - c,
    when i < a.len() && j < b.len()
{
    let leave_a = a[i as int].end <= c && i + 1 < a.len();
    let leave_b = b[j as int].end <= c && j + 1 < b.len();
    if leave_a || leave_b {
        sweep_from(a, b, if leave_a { i + 1 } else { i }, if leave_b { j + 1 } else { j }, c)
    } else if !live(a[i as int], b[j as int], c) {
        TallySpec {
            covered_length: 0,
            regions: 0,
            matching_regions: 0,
            matching_length: 0,
            chromosome_length: larger(a.last().end, b.last().end),
        }
    } else {
        gain(a[i as int], b[j as int], c).plus(
            sweep_from(a, b, i, j, next_position(a[i as int], b[j as int], c)),
        )
    }
}

/// The tally of the whole sweep over two non-empty runs of intervals.
pub open spec fn sweep(a: Seq<IntervalSpec>, b: Seq<IntervalSpec>) -> TallySpec
    recommends
        a.len() > 0,
        b.len() > 0,
{
    sweep_from(a, b, 0, 0, 0)
}

/// `c` lies at or after both starts and after both ends.
pub open spec fn both_ended(a: IntervalSpec, b: IntervalSpec, c: nat) -> bool {
    c >= a.start && c >= b.start && c > a.end && c > b.end
}

/// A position after both ends never decides a step of the sweep: the
/// state is then not live.
pub proof fn lemma_both_ended_settles(a: IntervalSpec, b: IntervalSpec, c: nat)
    ensures
        both_ended(a, b, c) ==> !live(a, b, c),
        a.behind(c) && b.behind(c) ==> !live(a, b, c),
{
}

/// In a live state the eight placements are told apart by their own
/// conditions: the last one holds whenever the seven before it fail.
/// Every step moves the position forward, and not beyond the intervals.
pub proof fn lemma_placement_exhaustive(a: IntervalSpec, b: IntervalSpec, c: nat)
    requires
        live(a, b, c),
    ensures
        placement(a, b, c) == Placement::SecondBehind ==> a.ahead_of(c) && b.behind(c),
        next_position(a, b, c) > c,
        next_position(a, b, c) <= reach(a, b),
{
}

/// Swapping the two intervals mirrors the placement and leaves the next
/// position and the gain as they are.
pub proof fn lemma_step_symmetric(a: IntervalSpec, b: IntervalSpec, c: nat)
    requires
        live(a, b, c),
    ensures
        next_position(b, a, c) == next_position(a, b, c),
        gain(b, a, c) == gain(a, b, c),
{
}

/// From any state on, the sweep counts no more matching regions than
/// regions and no more matching length than covered length.
pub proof fn lemma_sweep_from_bounds(a: Seq<IntervalSpec>, b: Seq<IntervalSpec>, i: nat, j: nat, c: nat)
    requires
        i < a.len(),
        j < b.len(),
    ensures
        sweep_from(a, b, i, j, c).matching_regions <= sweep_from(a, b, i, j, c).regions,
        sweep_from(a, b, i, j, c).matching_length <= sweep_from(a, b, i, j, c).covered_length,
    decreases a.len() - i + b.len() - j, reach(a[i as int], b[j as int]) - c,
{
    let leave_a = a[i as int].end <= c && i + 1 < a.len();
    let leave_b = b[j as int].end <= c && j + 1 < b.len();
    if leave_a || leave_b {
        lemma_sweep_from_bounds(a, b, if leave_a { i + 1 } else { i }, if leave_b { j + 1 } else { j }, c);
    } else if live(a[i as int], b[j as int], c) {
        lemma_placement_exhaustive(a[i as int], b[j as int], c);
        lemma_sweep_from_bounds(a, b, i, j, next_position(a[i as int], b[j as int], c));
    }
}

/// From any state on, the sweep of `b` against `a` tallies what the sweep
/// of `a` against `b` does.
pub proof fn lemma_sweep_from_symmetric(a: Seq<IntervalSpec>, b: Seq<IntervalSpec>, i: nat, j: nat, c: nat)
    requires
        i < a.len(),
        j < b.len(),
    ensures
        sweep_from(b, a, j, i, c) == sweep_from(a, b, i, j, c),
    decreases a.len() - i + b.len() - j, reach(a[i as int], b[j as int]) - c,
{
    let leave_a = a[i as int].end <= c && i + 1 < a.len();
    let leave_b = b[j as int].end <= c && j + 1 < b.len();
    if leave_a || leave_b {
        lemma_sweep_from_symmetric(a, b, if leave_a { i + 1 } else { i }, if leave_b { j + 1 } else { j }, c);
    } else if live(a[i as int], b[j as int], c) {
        lemma_placement_exhaustive(a[i as int], b[j as int], c);
        lemma_step_symmetric(a[i as int], b[j as int], c);
        lemma_sweep_from_symmetric(a, b, i, j, next_position(a[i as int], b[j as int], c));
    }
}

/// The tally of a sweep does not depend on which side is taken first.
pub proof fn lemma_sweep_symmetric(a: Seq<IntervalSpec>, b: Seq<IntervalSpec>)
    requires
        a.len() > 0,
        b.len() > 0,
    ensures
        sweep(b, a) == sweep(a, b),
{
    lemma_sweep_from_symmetric(a, b, 0, 0, 0);
}

/// A sweep counts no more matching regions than regions and no more
/// matching length than covered length.
pub proof fn lemma_sweep_bounds(a: Seq<IntervalSpec>, b: Seq<IntervalSpec>)
    requires
        a.len() > 0,
        b.len() > 0,
    ensures
        sweep(a, b).matching_regions <= sweep(a, b).regions,
        sweep(a, b).matching_length <= sweep(a, b).covered_length,
{
    lemma_sweep_from_bounds(a, b, 0, 0, 0);
}

/// Compares the intervals of one chromosome from each side by a sweep of a
/// scanning position along the coordinate axis.
///
/// Any two non-empty runs of intervals are accepted, and the sweep ends on
/// each. Where both are ordered, the covered length is the length of the
/// union of all intervals, the regions are the pairs of intervals that share
/// a position, and the matching length is what the pairs with equal labels
/// share.
pub fn compare(a: &Vec<Interval>, b: &Vec<Interval>) -> (tally: ChromosomeTally)
    requires
        a.len() > 0,
        b.len() > 0,
    ensures
        tally@ == sweep(views(a@), views(b@)),
        tally.matching_length <= tally.covered_length,
        tally.matching_regions <= tally.regions,
        ordered(views(a@)) && ordered(views(b@)) ==> {
            &&& tally.covered_length == union_length(views(a@), views(b@), 0, far_end(views(a@), views(b@)))
            &&& tally.regions == overlaps(views(a@), views(b@)).regions
            &&& tally.matching_regions == overlaps(views(a@), views(b@)).matching_regions
            &&& tally.matching_length == overlaps(views(a@), views(b@)).matching_length
            &&& tally.chromosome_length == far_end(views(a@), views(b@))
            &&& tally.covered_length <= tally.chromosome_length
        },
{
    let ghost av = views(a@);
    let ghost bv = views(b@);
    proof {
        if ordered(av) && ordered(bv) {
            lemma_sweep_counts_overlaps(av, bv);
            lemma_sweep_covers_union(av, bv);
        }
    }
    let mut i: usize = 0;
    let mut j: usize = 0;
    let mut c: u64 = 0;
    let mut covered: u64 = 0;
    let mut regions: u64 = 0;
    let mut matching_regions: u64 = 0;
    let mut matching_length: u64 = 0;
    let mut running: bool = true;
    while running
        invariant
            av == views(a@),
            bv == views(b@),
            i < a.len(),
            j < b.len(),
            matching_regions <= regions <= covered <= c,
            matching_regions <= matching_length <= covered,
            running ==> (TallySpec {
                covered_length: covered as nat,
                regions: regions as nat,
                matching_regions: matching_regions as nat,
                matching_length: matching_length as nat,
                chromosome_length: 0,
            }).plus(sweep_from(av, bv, i as nat, j as nat, c as nat)) == sweep(av, bv),
            !running ==> (TallySpec {
                covered_length: covered as nat,
                regions: regions as nat,
                matching_regions: matching_regions as nat,
                matching_length: matching_length as nat,
                chromosome_length: larger(av.last().end, bv.last().end),
            }) == sweep(av, bv),
        decreases a.len() - i + b.len() - j, u64::MAX - c, if running { 1int } else { 0int },
    {
        let first = &a[i];
        let second = &b[j];
        assert(av[i as int] == first@);
        assert(bv[j as int] == second@);
        let leave_first = first.end <= c && i + 1 < a.len();
        let leave_second = second.end <= c && j + 1 < b.len();
        if leave_first || leave_second {
            if leave_first {
                i = i + 1;
            }
            if leave_second {
                j = j + 1;
            }
        } else if first.end <= c && second.end <= c {
            running = false;
        } else {
            proof {
                lemma_placement_exhaustive(first@, second@, c as nat);
            }
            let first_ahead = c < first.start;
            let second_ahead = c < second.start;
            let in_first = first.start <= c && c < first.end;
            let in_second = second.start <= c && c < second.end;
            if first_ahead && second_ahead {
                c = if first.start <= second.start { first.start } else { second.start };
            } else if in_first && second_ahead {
                let stop: u64 = if first.end <= second.start { first.end } else { second.start };
                covered = covered + (stop - c);
                c = stop;
            } else if first_ahead && in_second {
                let stop: u64 = if second.end <= first.start { second.end } else { first.start };
                covered = covered + (stop - c);
                c = stop;
            } else if in_first && in_second {
                let stop: u64 = if first.end <= second.end { first.end } else { second.end };
                covered = covered + (stop - c);
                regions = regions + 1;
                if first.label == second.label {
                    matching_regions = matching_regions + 1;
                    matching_length = matching_length + (stop - c);
                }
                c = stop;
            } else if in_second {
                covered = covered + (second.end - c);
                c = second.end;
            } else if in_first {
                covered = covered + (first.end - c);
                c = first.end;
            } else if second_ahead {
                c = second.start;
            } else {
                c = first.start;
            }
        }
    }
    let last_first: u64 = a[a.len() - 1].end;
    let last_second: u64 = b[b.len() - 1].end;
    assert(av.last() == a@.last()@);
    assert(bv.last() == b@.last()@);
    ChromosomeTally {
        covered_length: covered,
        regions,
        matching_regions,
        matching_length,
        chromosome_length: if last_first >= last_second { last_first } else { last_second },
    }
}

} // verus!
