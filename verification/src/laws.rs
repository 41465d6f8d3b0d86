use vstd::prelude::*;
use crate::genome::{GenomeSpec, absent_names, chromosome_names, genome, intervals_of, names, share, sum_shares};
use crate::overlap::{far_end, lemma_sweep_counts_overlaps, lemma_sweep_covers_union, ordered, overlaps, union_length};
use crate::sweep::{lemma_sweep_bounds, lemma_sweep_symmetric};
use crate::table::{ChromosomeSpec, holds, valid_table};

verus! {

/// The seven counts of `g` and `h` agree.
pub open spec fn same_counts(g: GenomeSpec, h: GenomeSpec) -> bool {
    g.within(h) && h.within(g)
}

/// No sum of shares counts more matching regions than regions, nor more
/// matching length than covered length.
pub proof fn lemma_sum_shares_bounds(a: Seq<ChromosomeSpec>, b: Seq<ChromosomeSpec>, of: Seq<Seq<char>>)
    ensures
        sum_shares(a, b, of).matching_regions <= sum_shares(a, b, of).regions,
        sum_shares(a, b, of).matching_length <= sum_shares(a, b, of).covered_length,
    decreases of.len(),
{
    if of.len() > 0 {
        lemma_sum_shares_bounds(a, b, of.drop_last());
        let x = intervals_of(a, of.last());
        let y = intervals_of(b, of.last());
        if x.len() > 0 && y.len() > 0 {
            lemma_sweep_bounds(x, y);
        }
    }
}

/// Whatever the two tables hold, the comparison counts at least as much
/// covered length as matching length, and at least as many regions as
/// matching regions.
pub proof fn lemma_matching_within_covered(a: Seq<ChromosomeSpec>, b: Seq<ChromosomeSpec>)
    ensures
        genome(a, b).matching_length <= genome(a, b).covered_length,
        genome(a, b).matching_regions <= genome(a, b).regions,
{
    lemma_sum_shares_bounds(a, b, chromosome_names(a, b));
}

/// A chromosome that both tables hold, with ordered intervals in each,
/// adds the length of the union of its intervals to the covered length,
/// the pairs of intervals that share a position to the regions, what the
/// pairs with equal labels share to the matching length, and the larger
/// of its two last ends to the genome length.
pub proof fn lemma_paired_share_is_union(a: Seq<ChromosomeSpec>, b: Seq<ChromosomeSpec>, name: Seq<char>)
    requires
        valid_table(a),
        valid_table(b),
        holds(a, name),
        holds(b, name),
        ordered(intervals_of(a, name)),
        ordered(intervals_of(b, name)),
    ensures
        share(a, b, name).covered_length == union_length(
            intervals_of(a, name),
            intervals_of(b, name),
            0,
            far_end(intervals_of(a, name), intervals_of(b, name)),
        ),
        share(a, b, name).regions == overlaps(intervals_of(a, name), intervals_of(b, name)).regions,
        share(a, b, name).matching_regions == overlaps(
            intervals_of(a, name),
            intervals_of(b, name),
        ).matching_regions,
        share(a, b, name).matching_length == overlaps(
            intervals_of(a, name),
            intervals_of(b, name),
        ).matching_length,
        share(a, b, name).genome_length == far_end(intervals_of(a, name), intervals_of(b, name)),
        share(a, b, name).missing_chromosomes == 0,
{
    let x = intervals_of(a, name);
    let y = intervals_of(b, name);
    let k = crate::table::place_of(a, name);
    let m = crate::table::place_of(b, name);
    assert(0 <= k < a.len() && a[k].name == name);
    assert(0 <= m < b.len() && b[m].name == name);
    assert(x.len() > 0 && y.len() > 0);
    lemma_sweep_covers_union(x, y);
    lemma_sweep_counts_overlaps(x, y);
}

/// The matching length in hundredths of the covered length is undefined
/// where the comparison covers nothing, and lies between 0 and 100 otherwise.
pub proof fn lemma_percent_bounded(a: Seq<ChromosomeSpec>, b: Seq<ChromosomeSpec>)
    ensures
        genome(a, b).covered_length == 0 ==> genome(a, b).matching_percent() is None,
        genome(a, b).covered_length > 0 ==> genome(a, b).matching_percent() is Some && 0
            <= genome(a, b).matching_percent()->0 <= 100,
{
    lemma_matching_within_covered(a, b);
    let matching = genome(a, b).matching_length;
    let covered = genome(a, b).covered_length;
    if covered > 0 {
        assert(100 * matching / covered <= 100) by (nonlinear_arith)
            requires
                matching <= covered,
                covered > 0,
        ;
        assert(100 * matching / covered >= 0) by (nonlinear_arith)
            requires
                matching >= 0,
                covered > 0,
        ;
    }
}

/// The names that `a` lacks among the first `n` chromosomes of `b` are
/// names of those chromosomes, each listed once, and none is held by `a`.
pub proof fn lemma_absent_names_members(a: Seq<ChromosomeSpec>, b: Seq<ChromosomeSpec>, n: nat)
    requires
        valid_table(b),
        n <= b.len(),
    ensures
        absent_names(a, b, n).no_duplicates(),
        forall|x: Seq<char>| #[trigger]
            absent_names(a, b, n).contains(x) <==> !holds(a, x) && exists|k: int|
                0 <= k < n && #[trigger] b[k].name == x,
    decreases n,
{
    if n > 0 {
        let short = absent_names(a, b, (n - 1) as nat);
        let fresh = b[n - 1].name;
        lemma_absent_names_members(a, b, (n - 1) as nat);
        assert forall|x: Seq<char>| #[trigger]
            absent_names(a, b, n).contains(x) <==> !holds(a, x) && exists|k: int|
                0 <= k < n && #[trigger] b[k].name == x by {
            if absent_names(a, b, n).contains(x) {
                let p = choose|p: int| 0 <= p < absent_names(a, b, n).len() && absent_names(a, b, n)[p] == x;
                if p < short.len() {
                    assert(short[p] == x);
                    assert(short.contains(x));
                    let k = choose|k: int| 0 <= k < n - 1 && #[trigger] b[k].name == x;
                    assert(0 <= k < n && b[k].name == x);
                } else {
                    assert(b[n - 1].name == x);
                }
            }
            if !holds(a, x) && exists|k: int| 0 <= k < n && #[trigger] b[k].name == x {
                let k = choose|k: int| 0 <= k < n && #[trigger] b[k].name == x;
                if k < n - 1 {
                    assert(short.contains(x));
                    let p = choose|p: int| 0 <= p < short.len() && short[p] == x;
                    assert(absent_names(a, b, n)[p] == x);
                } else {
                    assert(absent_names(a, b, n)[short.len() as int] == x);
                }
            }
        }
        if !holds(a, fresh) {
            if short.contains(fresh) {
                let k = choose|k: int| 0 <= k < n - 1 && #[trigger] b[k].name == fresh;
                assert(b[k].name != b[n - 1].name);
            }
            assert forall|p: int, q: int| 0 <= p < short.len() + 1 && 0 <= q < short.len() + 1 && p != q implies short.push(
                fresh,
            )[p] != short.push(fresh)[q] by {
                if p < short.len() && q < short.len() {
                    assert(short[p] != short[q]);
                } else if p < short.len() {
                    assert(short.contains(short[p]));
                } else {
                    assert(short.contains(short[q]));
                }
            }
        }
    }
}

/// Every chromosome of either table is counted once: the genome-wide
/// totals are the sum of the shares of the chromosome names, the list of
/// names repeats none, and it holds exactly the names of the two tables.
pub proof fn lemma_chromosomes_counted_once(a: Seq<ChromosomeSpec>, b: Seq<ChromosomeSpec>)
    requires
        valid_table(a),
        valid_table(b),
    ensures
        genome(a, b) == sum_shares(a, b, chromosome_names(a, b)),
        chromosome_names(a, b).no_duplicates(),
        forall|x: Seq<char>| #[trigger] chromosome_names(a, b).contains(x) <==> holds(a, x) || holds(b, x),
{
    let first = names(a);
    let rest = absent_names(a, b, b.len());
    let all = chromosome_names(a, b);
    lemma_absent_names_members(a, b, b.len());
    assert forall|x: Seq<char>| #[trigger] all.contains(x) <==> holds(a, x) || holds(b, x) by {
        if all.contains(x) {
            let p = choose|p: int| 0 <= p < all.len() && all[p] == x;
            if p < first.len() {
                assert(a[p].name == x);
            } else {
                assert(rest[p - first.len()] == x);
                assert(rest.contains(x));
            }
        }
        if holds(a, x) {
            let k = choose|k: int| 0 <= k < a.len() && #[trigger] a[k].name == x;
            assert(all[k] == x);
        } else if holds(b, x) {
            let k = choose|k: int| 0 <= k < b.len() && #[trigger] b[k].name == x;
            assert(rest.contains(x));
            let p = choose|p: int| 0 <= p < rest.len() && rest[p] == x;
            assert(all[first.len() + p] == x);
        }
    }
    assert forall|p: int, q: int| 0 <= p < all.len() && 0 <= q < all.len() && p != q implies all[p] != all[q] by {
        if p < first.len() && q < first.len() {
            if p < q {
                assert(a[p].name != a[q].name);
            } else {
                assert(a[q].name != a[p].name);
            }
        } else if p >= first.len() && q >= first.len() {
            assert(rest[p - first.len()] != rest[q - first.len()]);
        } else if p < first.len() {
            assert(rest.contains(rest[q - first.len()]));
            assert(a[p].name == first[p]);
        } else {
            assert(rest.contains(rest[p - first.len()]));
            assert(a[q].name == first[q]);
        }
    }
}

/// What a chromosome adds does not depend on which table is taken first.
pub proof fn lemma_share_symmetric(a: Seq<ChromosomeSpec>, b: Seq<ChromosomeSpec>, name: Seq<char>)
    ensures
        same_counts(share(b, a, name), share(a, b, name)),
{
    let x = intervals_of(a, name);
    let y = intervals_of(b, name);
    if x.len() > 0 && y.len() > 0 {
        lemma_sweep_symmetric(x, y);
    } else if x.len() == 0 && y.len() == 0 {
        assert(x =~= y);
    }
}

/// The shares of any names add up to the same counts with the tables swapped.
pub proof fn lemma_sum_shares_mirrored(a: Seq<ChromosomeSpec>, b: Seq<ChromosomeSpec>, of: Seq<Seq<char>>)
    ensures
        same_counts(sum_shares(b, a, of), sum_shares(a, b, of)),
    decreases of.len(),
{
    if of.len() > 0 {
        lemma_sum_shares_mirrored(a, b, of.drop_last());
        lemma_share_symmetric(a, b, of.last());
    }
}

/// The counts of a sum of shares are those of the sum without the name
/// at place `p`, and the share of that name.
pub proof fn lemma_sum_shares_without(a: Seq<ChromosomeSpec>, b: Seq<ChromosomeSpec>, of: Seq<Seq<char>>, p: int)
    requires
        0 <= p < of.len(),
    ensures
        same_counts(sum_shares(a, b, of), sum_shares(a, b, of.remove(p)).plus(share(a, b, of[p]))),
    decreases of.len(),
{
    if p == of.len() - 1 {
        assert(of.remove(p) =~= of.drop_last());
    } else {
        lemma_sum_shares_without(a, b, of.drop_last(), p);
        assert(of.remove(p).drop_last() =~= of.drop_last().remove(p));
        assert(of.remove(p).last() == of.last());
    }
}

/// Two lists of the same names, each without repeats, give sums of
/// shares with the same counts.
pub proof fn lemma_sum_shares_rearranged(
    a: Seq<ChromosomeSpec>,
    b: Seq<ChromosomeSpec>,
    s: Seq<Seq<char>>,
    t: Seq<Seq<char>>,
)
    requires
        s.no_duplicates(),
        t.no_duplicates(),
        forall|x: Seq<char>| s.contains(x) <==> t.contains(x),
    ensures
        same_counts(sum_shares(a, b, s), sum_shares(a, b, t)),
    decreases s.len(),
{
    if s.len() == 0 {
        if t.len() > 0 {
            assert(t.contains(t[0]));
            assert(s.contains(t[0]));
        }
    } else {
        let last = s.last();
        assert(s.contains(last));
        assert(t.contains(last));
        let p = choose|p: int| 0 <= p < t.len() && t[p] == last;
        let s1 = s.drop_last();
        let t1 = t.remove(p);
        assert forall|x: Seq<char>| s1.contains(x) <==> t1.contains(x) by {
            if s1.contains(x) {
                let q = choose|q: int| 0 <= q < s1.len() && s1[q] == x;
                assert(s[q] == x);
                assert(s.contains(x));
                assert(t.contains(x));
                let r = choose|r: int| 0 <= r < t.len() && t[r] == x;
                if r < p {
                    assert(t1[r] == x);
                } else {
                    assert(r != p);
                    assert(t1[r - 1] == x);
                }
            }
            if t1.contains(x) {
                let r = choose|r: int| 0 <= r < t1.len() && t1[r] == x;
                let r0 = if r < p { r } else { r + 1 };
                assert(t[r0] == x);
                assert(t.contains(x));
                assert(s.contains(x));
                let q = choose|q: int| 0 <= q < s.len() && s[q] == x;
                assert(q != s.len() - 1);
                assert(s1[q] == x);
            }
        }
        assert(s1.no_duplicates());
        assert forall|i: int, j: int| 0 <= i < t1.len() && 0 <= j < t1.len() && i != j implies t1[i] != t1[j] by {
            let i0 = if i < p { i } else { i + 1 };
            let j0 = if j < p { j } else { j + 1 };
            assert(t[i0] != t[j0]);
        }
        lemma_sum_shares_without(a, b, t, p);
        lemma_sum_shares_rearranged(a, b, s1, t1);
    }
}

/// Among the first `k` chromosomes of `a`, the shares list as missing
/// from the second table the names that `b` lacks, and none as missing
/// from the first.
pub proof fn lemma_missing_after_first(a: Seq<ChromosomeSpec>, b: Seq<ChromosomeSpec>, k: nat)
    requires
        valid_table(a),
        valid_table(b),
        k <= a.len(),
    ensures
        sum_shares(a, b, names(a).take(k as int)).missing_from_first == Seq::<Seq<char>>::empty(),
        sum_shares(a, b, names(a).take(k as int)).missing_from_second == absent_names(b, a, k),
    decreases k,
{
    if k > 0 {
        lemma_missing_after_first(a, b, (k - 1) as nat);
        crate::genome::lemma_share_of_first(a, b, k - 1);
        let of = names(a).take(k as int);
        assert(of.drop_last() =~= names(a).take(k - 1));
        assert(of.last() == a[k - 1].name);
        let sum = sum_shares(a, b, of);
        assert(sum.missing_from_first =~= Seq::<Seq<char>>::empty());
        assert(sum.missing_from_second =~= absent_names(b, a, k));
    }
}

/// After all chromosomes of `a` and the first `k` of `b`, the shares list
/// as missing from the first table the names that `a` lacks among those
/// `k`, and as missing from the second the names of `a` that `b` lacks.
pub proof fn lemma_missing_after_second(a: Seq<ChromosomeSpec>, b: Seq<ChromosomeSpec>, k: nat)
    requires
        valid_table(a),
        valid_table(b),
        k <= b.len(),
    ensures
        sum_shares(a, b, names(a) + absent_names(a, b, k)).missing_from_first == absent_names(a, b, k),
        sum_shares(a, b, names(a) + absent_names(a, b, k)).missing_from_second == absent_names(b, a, a.len()),
    decreases k,
{
    let of = names(a) + absent_names(a, b, k);
    if k == 0 {
        lemma_missing_after_first(a, b, a.len());
        assert(of =~= names(a).take(a.len() as int));
    } else {
        lemma_missing_after_second(a, b, (k - 1) as nat);
        let before = names(a) + absent_names(a, b, (k - 1) as nat);
        if !holds(a, b[k - 1].name) {
            crate::genome::lemma_share_of_second(a, b, k - 1);
            assert(of.drop_last() =~= before);
            assert(of.last() == b[k - 1].name);
            let sum = sum_shares(a, b, of);
            assert(sum.missing_from_first =~= absent_names(a, b, k));
            assert(sum.missing_from_second =~= absent_names(b, a, a.len()));
        }
    }
}

/// The comparison lists as missing from the first table the chromosome
/// names that only the second holds, in the order of the second table,
/// and as missing from the second those that only the first holds, in the
/// order of the first.
pub proof fn lemma_missing_names(a: Seq<ChromosomeSpec>, b: Seq<ChromosomeSpec>)
    requires
        valid_table(a),
        valid_table(b),
    ensures
        genome(a, b).missing_from_first == absent_names(a, b, b.len()),
        genome(a, b).missing_from_second == absent_names(b, a, a.len()),
{
    lemma_missing_after_second(a, b, b.len());
}

/// Swapping the two tables leaves every count of the comparison as it is
/// and exchanges the two lists of missing chromosome names.
pub proof fn lemma_swap_symmetric(a: Seq<ChromosomeSpec>, b: Seq<ChromosomeSpec>)
    requires
        valid_table(a),
        valid_table(b),
    ensures
        same_counts(genome(b, a), genome(a, b)),
        genome(b, a).missing_from_first == genome(a, b).missing_from_second,
        genome(b, a).missing_from_second == genome(a, b).missing_from_first,
{
    lemma_missing_names(a, b);
    lemma_missing_names(b, a);
    lemma_chromosomes_counted_once(a, b);
    lemma_chromosomes_counted_once(b, a);
    let forth = chromosome_names(a, b);
    let back = chromosome_names(b, a);
    assert forall|x: Seq<char>| back.contains(x) <==> forth.contains(x) by {
    }
    lemma_sum_shares_rearranged(a, b, back, forth);
    lemma_sum_shares_mirrored(a, b, back);
}

} // verus!
