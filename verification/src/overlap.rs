use vstd::prelude::*;
use crate::interval::{Interval, IntervalSpec, views};
use crate::sweep::{Placement, larger, live, next_position, passes_cover, placement, reach, smaller, sweep, sweep_from};

verus! {

/// The intervals of one side as an annotation file lists them: none ends
/// before it starts, and each ends before the next one starts.
pub open spec fn ordered(s: Seq<IntervalSpec>) -> bool {
    &&& forall|k: int| 0 <= k < s.len() ==> (#[trigger] s[k]).start <= s[k].end
    &&& forall|k: int, m: int| 0 <= k < m < s.len() ==> (#[trigger] s[k]).end <= (#[trigger] s[m]).start
}

/// Where no interval ends before it starts and each ends before its
/// successor starts, each ends before all that follow it.
proof fn lemma_chain(s: Seq<IntervalSpec>, k: int, m: int)
    requires
        0 <= k < m < s.len(),
        forall|p: int| 0 <= p < s.len() ==> (#[trigger] s[p]).start <= s[p].end,
        forall|p: int| 0 < p < s.len() ==> s[p - 1].end <= (#[trigger] s[p]).start,
    ensures
        s[k].end <= s[m].start,
    decreases m - k,
{
    if k + 1 < m {
        lemma_chain(s, k, m - 1);
        assert(s[m - 1].start <= s[m - 1].end);
    }
}

/// Whether the intervals are ordered.
pub fn is_ordered(s: &Vec<Interval>) -> (yes: bool)
    ensures
        yes == ordered(views(s@)),
{
    let ghost all = views(s@);
    let mut k: usize = 0;
    while k < s.len()
        invariant
            k <= s.len(),
            all == views(s@),
            forall|p: int| 0 <= p < k ==> (#[trigger] all[p]).start <= all[p].end,
            forall|p: int| 0 < p < k ==> all[p - 1].end <= (#[trigger] all[p]).start,
        decreases s.len() - k,
    {
        if s[k].start > s[k].end {
            assert(!(all[k as int].start <= all[k as int].end));
            return false;
        }
        if k > 0 && s[k - 1].end > s[k].start {
            assert(!(all[k - 1].end <= all[k as int].start));
            return false;
        }
        k = k + 1;
    }
    proof {
        assert forall|p: int, m: int| 0 <= p < m < all.len() implies (#[trigger] all[p]).end <= (#[trigger] all[m]).start by {
            lemma_chain(all, p, m);
        }
    }
    true
}

/// The number of positions at or after `c` that both `x` and `y` cover.
pub open spec fn shared_from(x: IntervalSpec, y: IntervalSpec, c: nat) -> nat {
    let lo = larger(larger(x.start, y.start), c);
    let hi = smaller(x.end, y.end);
    if lo < hi {
        (hi - lo) as nat
    } else {
        0
    }
}

/// What the overlaps of intervals of two sides amount to.
pub struct Overlaps {
    /// Pairs of intervals, one of each side, that share a position.
    pub regions: nat,
    /// Those pairs whose two labels agree.
    pub matching_regions: nat,
    /// The positions shared by the pairs whose labels agree.
    pub matching_length: nat,
}

impl Overlaps {
    pub open spec fn none() -> Overlaps {
        Overlaps { regions: 0, matching_regions: 0, matching_length: 0 }
    }

    pub open spec fn plus(self, other: Overlaps) -> Overlaps {
        Overlaps {
            regions: self.regions + other.regions,
            matching_regions: self.matching_regions + other.matching_regions,
            matching_length: self.matching_length + other.matching_length,
        }
    }
}

/// The overlap of the pair `x`, `y` at or after `c`.
pub open spec fn pair_overlap(x: IntervalSpec, y: IntervalSpec, c: nat) -> Overlaps {
    let shared = shared_from(x, y, c);
    let same = x.label == y.label;
    Overlaps {
        regions: if shared > 0 { 1 } else { 0 },
        matching_regions: if shared > 0 && same { 1 } else { 0 },
        matching_length: if same { shared } else { 0 },
    }
}

/// The overlaps at or after `c` of `x` with the first `n` intervals of `b`.
pub open spec fn row_overlaps(x: IntervalSpec, b: Seq<IntervalSpec>, c: nat, n: nat) -> Overlaps
    decreases n,
{
    if n == 0 {
        Overlaps::none()
    } else {
        row_overlaps(x, b, c, (n - 1) as nat).plus(pair_overlap(x, b[n - 1], c))
    }
}

/// The overlaps at or after `c` of the first `m` intervals of `a` with all of `b`.
pub open spec fn overlaps_from(a: Seq<IntervalSpec>, b: Seq<IntervalSpec>, c: nat, m: nat) -> Overlaps
    decreases m,
{
    if m == 0 {
        Overlaps::none()
    } else {
        overlaps_from(a, b, c, (m - 1) as nat).plus(row_overlaps(a[m - 1], b, c, b.len()))
    }
}

/// The overlaps of all pairs of an interval of `a` and an interval of `b`.
pub open spec fn overlaps(a: Seq<IntervalSpec>, b: Seq<IntervalSpec>) -> Overlaps {
    overlaps_from(a, b, 0, a.len())
}

/// The pair at places `i`, `j` apart, moving the lower bound from `c` to
/// `d` changes no pair among the first `n` of a row.
spec fn row_unchanged(x: IntervalSpec, b: Seq<IntervalSpec>, c: nat, d: nat, n: nat, skip: int) -> bool {
    forall|k: int| 0 <= k < n && k != skip ==> pair_overlap(x, #[trigger] b[k], c) == pair_overlap(x, b[k], d)
}

proof fn lemma_row_same(x: IntervalSpec, b: Seq<IntervalSpec>, c: nat, d: nat, n: nat)
    requires
        n <= b.len(),
        row_unchanged(x, b, c, d, n, -1),
    ensures
        row_overlaps(x, b, c, n) == row_overlaps(x, b, d, n),
    decreases n,
{
    if n > 0 {
        lemma_row_same(x, b, c, d, (n - 1) as nat);
        assert(pair_overlap(x, b[n - 1], c) == pair_overlap(x, b[n - 1], d));
    }
}

proof fn lemma_row_one(x: IntervalSpec, b: Seq<IntervalSpec>, c: nat, d: nat, n: nat, j: int)
    requires
        n <= b.len(),
        0 <= j < n,
        row_unchanged(x, b, c, d, n, j),
    ensures
        row_overlaps(x, b, c, n).plus(pair_overlap(x, b[j], d)) == row_overlaps(x, b, d, n).plus(
            pair_overlap(x, b[j], c),
        ),
    decreases n,
{
    if j == n - 1 {
        lemma_row_same(x, b, c, d, (n - 1) as nat);
    } else {
        lemma_row_one(x, b, c, d, (n - 1) as nat, j);
        assert(pair_overlap(x, b[n - 1], c) == pair_overlap(x, b[n - 1], d));
    }
}

/// Moving the lower bound from `c` to `d` changes no pair of the first
/// `m` intervals of `a` with an interval of `b`, the pair `i`, `j` apart.
spec fn pairs_unchanged(a: Seq<IntervalSpec>, b: Seq<IntervalSpec>, c: nat, d: nat, m: nat, i: int, j: int) -> bool {
    forall|k: int, l: int|
        0 <= k < m && 0 <= l < b.len() && !(k == i && l == j) ==> pair_overlap(#[trigger] a[k], #[trigger] b[l], c)
            == pair_overlap(a[k], b[l], d)
}

proof fn lemma_pairs_same(a: Seq<IntervalSpec>, b: Seq<IntervalSpec>, c: nat, d: nat, m: nat)
    requires
        m <= a.len(),
        pairs_unchanged(a, b, c, d, m, -1, -1),
    ensures
        overlaps_from(a, b, c, m) == overlaps_from(a, b, d, m),
    decreases m,
{
    if m > 0 {
        lemma_pairs_same(a, b, c, d, (m - 1) as nat);
        let x = a[m - 1];
        assert forall|l: int| 0 <= l < b.len() implies pair_overlap(x, #[trigger] b[l], c) == pair_overlap(
            x,
            b[l],
            d,
        ) by {
            assert(pair_overlap(a[m - 1], b[l], c) == pair_overlap(a[m - 1], b[l], d));
        }
        lemma_row_same(x, b, c, d, b.len());
    }
}

proof fn lemma_pairs_one(a: Seq<IntervalSpec>, b: Seq<IntervalSpec>, c: nat, d: nat, m: nat, i: int, j: int)
    requires
        m <= a.len(),
        0 <= i < m,
        0 <= j < b.len(),
        pairs_unchanged(a, b, c, d, m, i, j),
    ensures
        overlaps_from(a, b, c, m).plus(pair_overlap(a[i], b[j], d)) == overlaps_from(a, b, d, m).plus(
            pair_overlap(a[i], b[j], c),
        ),
    decreases m,
{
    let x = a[m - 1];
    if i == m - 1 {
        lemma_pairs_same(a, b, c, d, (m - 1) as nat);
        assert forall|l: int| 0 <= l < b.len() && l != j implies pair_overlap(x, #[trigger] b[l], c)
            == pair_overlap(x, b[l], d) by {
            assert(pair_overlap(a[m - 1], b[l], c) == pair_overlap(a[m - 1], b[l], d));
        }
        lemma_row_one(x, b, c, d, b.len(), j);
    } else {
        lemma_pairs_one(a, b, c, d, (m - 1) as nat, i, j);
        assert forall|l: int| 0 <= l < b.len() implies pair_overlap(x, #[trigger] b[l], c) == pair_overlap(
            x,
            b[l],
            d,
        ) by {
            assert(pair_overlap(a[m - 1], b[l], c) == pair_overlap(a[m - 1], b[l], d));
        }
        lemma_row_same(x, b, c, d, b.len());
    }
}

/// Where every interval of `a` has ended at or before `c`, nothing overlaps from `c` on.
proof fn lemma_nothing_left(a: Seq<IntervalSpec>, b: Seq<IntervalSpec>, c: nat, m: nat)
    requires
        m <= a.len(),
        forall|k: int| 0 <= k < a.len() ==> (#[trigger] a[k]).end <= c,
    ensures
        overlaps_from(a, b, c, m) == Overlaps::none(),
    decreases m,
{
    if m > 0 {
        lemma_nothing_left(a, b, c, (m - 1) as nat);
        lemma_row_nothing(a[m - 1], b, c, b.len());
    }
}

proof fn lemma_row_nothing(x: IntervalSpec, b: Seq<IntervalSpec>, c: nat, n: nat)
    requires
        n <= b.len(),
        x.end <= c,
    ensures
        row_overlaps(x, b, c, n) == Overlaps::none(),
    decreases n,
{
    if n > 0 {
        lemma_row_nothing(x, b, c, (n - 1) as nat);
    }
}

/// What the sweep has yet to count of regions, matching regions and
/// matching length.
pub open spec fn counted(a: Seq<IntervalSpec>, b: Seq<IntervalSpec>, i: nat, j: nat, c: nat) -> Overlaps {
    Overlaps {
        regions: sweep_from(a, b, i, j, c).regions,
        matching_regions: sweep_from(a, b, i, j, c).matching_regions,
        matching_length: sweep_from(a, b, i, j, c).matching_length,
    }
}

/// From a state in which the intervals left behind have ended, the sweep
/// of ordered intervals counts the overlaps that lie at or after its
/// position.
pub proof fn lemma_sweep_from_counts_overlaps(a: Seq<IntervalSpec>, b: Seq<IntervalSpec>, i: nat, j: nat, c: nat)
    requires
        ordered(a),
        ordered(b),
        i < a.len(),
        j < b.len(),
        forall|k: int| 0 <= k < i ==> (#[trigger] a[k]).end <= c,
        forall|k: int| 0 <= k < j ==> (#[trigger] b[k]).end <= c,
    ensures
        counted(a, b, i, j, c) == overlaps_from(a, b, c, a.len()),
    decreases a.len() - i + b.len() - j, reach(a[i as int], b[j as int]) - c,
{
    let x = a[i as int];
    let y = b[j as int];
    let leave_a = x.end <= c && i + 1 < a.len();
    let leave_b = y.end <= c && j + 1 < b.len();
    if leave_a || leave_b {
        lemma_sweep_from_counts_overlaps(a, b, if leave_a { i + 1 } else { i }, if leave_b { j + 1 } else { j }, c);
    } else if !live(x, y, c) {
        assert forall|k: int| 0 <= k < a.len() implies (#[trigger] a[k]).end <= c by {
            if k > i {
                assert(a[i as int].end <= a[k].start);
            }
        }
        lemma_nothing_left(a, b, c, a.len());
    } else {
        crate::sweep::lemma_placement_exhaustive(x, y, c);
        let d = next_position(x, y, c);
        lemma_sweep_from_counts_overlaps(a, b, i, j, d);
        let whole = placement(x, y, c) == Placement::Overlap;
        assert forall|k: int, l: int|
            0 <= k < a.len() && 0 <= l < b.len() && !(whole && k == i && l == j) implies pair_overlap(
            #[trigger] a[k],
            #[trigger] b[l],
            c,
        ) == pair_overlap(a[k], b[l], d) by {
            if k > i {
                assert(a[i as int].end <= a[k].start);
            }
            if l > j {
                assert(b[j as int].end <= b[l].start);
            }
            if k < i {
                assert(a[k].end <= c);
            }
            if l < j {
                assert(b[l].end <= c);
            }
            assert(shared_from(a[k], b[l], c) == shared_from(a[k], b[l], d));
        }
        if whole {
            lemma_pairs_one(a, b, c, d, a.len(), i as int, j as int);
            assert(shared_from(x, y, d) == 0);
            assert(shared_from(x, y, c) == d - c);
        } else {
            lemma_pairs_same(a, b, c, d, a.len());
        }
    }
}

/// The sweep of two ordered runs of intervals counts each pair of
/// intervals that share a position as one region, as a matching region
/// where the two labels agree, and the positions that such a pair shares
/// as matching length.
pub proof fn lemma_sweep_counts_overlaps(a: Seq<IntervalSpec>, b: Seq<IntervalSpec>)
    requires
        ordered(a),
        ordered(b),
        a.len() > 0,
        b.len() > 0,
    ensures
        sweep(a, b).regions == overlaps(a, b).regions,
        sweep(a, b).matching_regions == overlaps(a, b).matching_regions,
        sweep(a, b).matching_length == overlaps(a, b).matching_length,
{
    lemma_sweep_from_counts_overlaps(a, b, 0, 0, 0);
}

/// Some interval of `a` or of `b` covers the position `x`.
pub open spec fn touched(a: Seq<IntervalSpec>, b: Seq<IntervalSpec>, x: nat) -> bool {
    (exists|k: int| 0 <= k < a.len() && (#[trigger] a[k]).covers(x)) || (exists|k: int|
        0 <= k < b.len() && (#[trigger] b[k]).covers(x))
}

/// The number of positions from `lo` up to `hi` that some interval of
/// `a` or of `b` covers: the length of their union in that range.
pub open spec fn union_length(a: Seq<IntervalSpec>, b: Seq<IntervalSpec>, lo: nat, hi: nat) -> nat
    decreases hi,
{
    if lo >= hi {
        0
    } else {
        union_length(a, b, lo, (hi - 1) as nat) + if touched(a, b, (hi - 1) as nat) {
            1nat
        } else {
            0nat
        }
    }
}

/// The larger of the two last interval ends.
pub open spec fn far_end(a: Seq<IntervalSpec>, b: Seq<IntervalSpec>) -> nat {
    larger(a.last().end, b.last().end)
}

/// The union length of a range is that of its two parts.
pub proof fn lemma_union_split(a: Seq<IntervalSpec>, b: Seq<IntervalSpec>, lo: nat, mid: nat, hi: nat)
    requires
        lo <= mid <= hi,
    ensures
        union_length(a, b, lo, hi) == union_length(a, b, lo, mid) + union_length(a, b, mid, hi),
    decreases hi,
{
    if mid < hi {
        lemma_union_split(a, b, lo, mid, (hi - 1) as nat);
    }
}

/// The union length of a range is at most the length of the range: that
/// length where every position is covered, 0 where none is.
pub proof fn lemma_union_bounds(a: Seq<IntervalSpec>, b: Seq<IntervalSpec>, lo: nat, hi: nat)
    requires
        lo <= hi,
    ensures
        union_length(a, b, lo, hi) <= hi - lo,
        (forall|x: nat| lo <= x < hi ==> touched(a, b, x)) ==> union_length(a, b, lo, hi) == hi - lo,
        (forall|x: nat| lo <= x < hi ==> !touched(a, b, x)) ==> union_length(a, b, lo, hi) == 0,
    decreases hi,
{
    if lo < hi {
        lemma_union_bounds(a, b, lo, (hi - 1) as nat);
    }
}

/// In ordered intervals no end lies after the last one, and no start
/// before the first one.
pub proof fn lemma_ordered_ends(s: Seq<IntervalSpec>, k: int)
    requires
        ordered(s),
        0 <= k < s.len(),
    ensures
        s[k].end <= s.last().end,
        s.first().start <= s[k].start,
        s[k].start <= s[k].end,
{
    if k < s.len() - 1 {
        assert(s[k].end <= s[s.len() - 1].start);
    }
    if 0 < k {
        assert(s[0].end <= s[k].start);
    }
}

/// From any state on, the sweep sets the length estimate to the larger
/// of the two last interval ends.
pub proof fn lemma_sweep_from_length(a: Seq<IntervalSpec>, b: Seq<IntervalSpec>, i: nat, j: nat, c: nat)
    requires
        i < a.len(),
        j < b.len(),
    ensures
        sweep_from(a, b, i, j, c).chromosome_length == far_end(a, b),
    decreases a.len() - i + b.len() - j, reach(a[i as int], b[j as int]) - c,
{
    let leave_a = a[i as int].end <= c && i + 1 < a.len();
    let leave_b = b[j as int].end <= c && j + 1 < b.len();
    if leave_a || leave_b {
        lemma_sweep_from_length(a, b, if leave_a { i + 1 } else { i }, if leave_b { j + 1 } else { j }, c);
    } else if live(a[i as int], b[j as int], c) {
        crate::sweep::lemma_placement_exhaustive(a[i as int], b[j as int], c);
        lemma_sweep_from_length(a, b, i, j, next_position(a[i as int], b[j as int], c));
    }
}

/// From a state in which the intervals left behind have ended, the sweep
/// of ordered intervals counts as covered the union of the intervals from
/// its position on.
pub proof fn lemma_sweep_from_covers_union(a: Seq<IntervalSpec>, b: Seq<IntervalSpec>, i: nat, j: nat, c: nat)
    requires
        ordered(a),
        ordered(b),
        i < a.len(),
        j < b.len(),
        forall|k: int| 0 <= k < i ==> (#[trigger] a[k]).end <= c,
        forall|k: int| 0 <= k < j ==> (#[trigger] b[k]).end <= c,
    ensures
        sweep_from(a, b, i, j, c).covered_length == union_length(a, b, c, far_end(a, b)),
    decreases a.len() - i + b.len() - j, reach(a[i as int], b[j as int]) - c,
{
    let x = a[i as int];
    let y = b[j as int];
    let end = far_end(a, b);
    let leave_a = x.end <= c && i + 1 < a.len();
    let leave_b = y.end <= c && j + 1 < b.len();
    lemma_ordered_ends(a, i as int);
    lemma_ordered_ends(b, j as int);
    if leave_a || leave_b {
        lemma_sweep_from_covers_union(a, b, if leave_a { i + 1 } else { i }, if leave_b { j + 1 } else { j }, c);
    } else if !live(x, y, c) {
        assert(end <= c);
    } else {
        crate::sweep::lemma_placement_exhaustive(x, y, c);
        let d = next_position(x, y, c);
        lemma_sweep_from_covers_union(a, b, i, j, d);
        assert(c < d <= end);
        lemma_union_split(a, b, c, d, end);
        lemma_union_bounds(a, b, c, d);
        if passes_cover(x, y, c) {
            assert forall|p: nat| c <= p < d implies touched(a, b, p) by {
                assert(x.covers(p) || y.covers(p));
            }
        } else {
            assert forall|p: nat| c <= p < d implies !touched(a, b, p) by {
                assert forall|k: int| 0 <= k < a.len() implies !(#[trigger] a[k]).covers(p) by {
                    if k > i {
                        assert(a[i as int].end <= a[k].start);
                    } else if k < i {
                        assert(a[k].end <= c);
                    }
                }
                assert forall|k: int| 0 <= k < b.len() implies !(#[trigger] b[k]).covers(p) by {
                    if k > j {
                        assert(b[j as int].end <= b[k].start);
                    } else if k < j {
                        assert(b[k].end <= c);
                    }
                }
            }
        }
    }
}

/// The sweep of two ordered runs of intervals counts as covered the
/// positions that some interval of either side covers, each once: the
/// length of the union. That is never more than the length estimate, the
/// larger of the two last ends.
pub proof fn lemma_sweep_covers_union(a: Seq<IntervalSpec>, b: Seq<IntervalSpec>)
    requires
        ordered(a),
        ordered(b),
        a.len() > 0,
        b.len() > 0,
    ensures
        sweep(a, b).chromosome_length == far_end(a, b),
        sweep(a, b).covered_length == union_length(a, b, 0, far_end(a, b)),
        sweep(a, b).covered_length <= far_end(a, b),
{
    lemma_sweep_from_length(a, b, 0, 0, 0);
    lemma_sweep_from_covers_union(a, b, 0, 0, 0);
    lemma_union_bounds(a, b, 0, far_end(a, b));
}

} // verus!
