use vstd::prelude::*;
use crate::interval::{Interval, IntervalSpec, span, views};
use crate::sweep::{ChromosomeTally, TallySpec, compare, larger, sweep};
use crate::table::{ChromosomeSpec, IntervalTable, holds, place_of, valid_table};

verus! {

/// Genome-wide totals of a comparison of two interval tables.
#[derive(Debug)]
pub struct GenomeResult {
    /// Sum of the chromosome length estimates.
    pub genome_length: u64,
    /// Sum of the covered lengths.
    pub covered_length: u64,
    /// Number of regions found.
    pub regions: u64,
    /// Number of regions whose two labels agree.
    pub matching_regions: u64,
    /// Length of the regions whose two labels agree.
    pub matching_length: u64,
    /// Number of chromosomes that only one table holds.
    pub missing_chromosomes: u64,
    /// Number of regions on those chromosomes.
    pub missing_regions: u64,
    /// Names of the chromosomes that the first table lacks.
    pub missing_from_first: Vec<String>,
    /// Names of the chromosomes that the second table lacks.
    pub missing_from_second: Vec<String>,
}

/// The mathematical value of a [`GenomeResult`], and of what one
/// chromosome adds to it.
pub struct GenomeSpec {
    pub genome_length: nat,
    pub covered_length: nat,
    pub regions: nat,
    pub matching_regions: nat,
    pub matching_length: nat,
    pub missing_chromosomes: nat,
    pub missing_regions: nat,
    pub missing_from_first: Seq<Seq<char>>,
    pub missing_from_second: Seq<Seq<char>>,
}

/// The values of a run of strings, in the same order.
pub open spec fn texts(s: Seq<String>) -> Seq<Seq<char>> {
    Seq::new(s.len(), |k: int| s[k]@)
}

impl View for GenomeResult {
    type V = GenomeSpec;

    open spec fn view(&self) -> GenomeSpec {
        GenomeSpec {
            genome_length: self.genome_length as nat,
            covered_length: self.covered_length as nat,
            regions: self.regions as nat,
            matching_regions: self.matching_regions as nat,
            matching_length: self.matching_length as nat,
            missing_chromosomes: self.missing_chromosomes as nat,
            missing_regions: self.missing_regions as nat,
            missing_from_first: texts(self.missing_from_first@),
            missing_from_second: texts(self.missing_from_second@),
        }
    }
}

impl GenomeSpec {
    pub open spec fn zero() -> GenomeSpec {
        GenomeSpec {
            genome_length: 0,
            covered_length: 0,
            regions: 0,
            matching_regions: 0,
            matching_length: 0,
            missing_chromosomes: 0,
            missing_regions: 0,
            missing_from_first: Seq::empty(),
            missing_from_second: Seq::empty(),
        }
    }

    /// Counts are added, name lists are joined.
    pub open spec fn plus(self, other: GenomeSpec) -> GenomeSpec {
        GenomeSpec {
            genome_length: self.genome_length + other.genome_length,
            covered_length: self.covered_length + other.covered_length,
            regions: self.regions + other.regions,
            matching_regions: self.matching_regions + other.matching_regions,
            matching_length: self.matching_length + other.matching_length,
            missing_chromosomes: self.missing_chromosomes + other.missing_chromosomes,
            missing_regions: self.missing_regions + other.missing_regions,
            missing_from_first: self.missing_from_first + other.missing_from_first,
            missing_from_second: self.missing_from_second + other.missing_from_second,
        }
    }

    /// Every count fits in 64 bits.
    pub open spec fn fits(self) -> bool {
        &&& self.genome_length <= u64::MAX
        &&& self.covered_length <= u64::MAX
        &&& self.regions <= u64::MAX
        &&& self.matching_regions <= u64::MAX
        &&& self.matching_length <= u64::MAX
        &&& self.missing_chromosomes <= u64::MAX
        &&& self.missing_regions <= u64::MAX
    }

    /// The matching length in hundredths of the covered length, rounded
    /// down; undefined where nothing is covered.
    pub open spec fn matching_percent(self) -> Option<nat> {
        if self.covered_length == 0 {
            None
        } else {
            Some((100 * self.matching_length / self.covered_length) as nat)
        }
    }

    /// No count of `self` exceeds that of `other`.
    pub open spec fn within(self, other: GenomeSpec) -> bool {
        &&& self.genome_length <= other.genome_length
        &&& self.covered_length <= other.covered_length
        &&& self.regions <= other.regions
        &&& self.matching_regions <= other.matching_regions
        &&& self.matching_length <= other.matching_length
        &&& self.missing_chromosomes <= other.missing_chromosomes
        &&& self.missing_regions <= other.missing_regions
    }
}

/// One of the two tables that are compared.
#[derive(Debug, Clone, Copy, PartialEq, Eq, Structural)]
pub enum Side {
    First,
    Second,
}

/// Sum of the lengths of the intervals, one by one.
pub open spec fn total_span(s: Seq<IntervalSpec>) -> nat
    decreases s.len(),
{
    if s.len() == 0 {
        0
    } else {
        total_span(s.drop_last()) + span(s.last())
    }
}

/// The labels of the intervals, in the same order.
pub open spec fn labels(s: Seq<IntervalSpec>) -> Seq<Seq<char>> {
    Seq::new(s.len(), |k: int| s[k].label)
}

/// The number of different labels among the intervals.
pub open spec fn distinct_labels(s: Seq<IntervalSpec>) -> nat {
    labels(s).to_set().len()
}

/// The end of the last interval, or 0 where there is none.
pub open spec fn last_end(s: Seq<IntervalSpec>) -> nat {
    if s.len() == 0 {
        0
    } else {
        s.last().end
    }
}

/// What a chromosome adds that only one table holds; `lacking` is the
/// table without it. Each different label counts as one region, and the
/// interval lengths are summed as they stand.
pub open spec fn lone_share(name: Seq<char>, s: Seq<IntervalSpec>, lacking: Side) -> GenomeSpec {
    GenomeSpec {
        genome_length: last_end(s),
        covered_length: total_span(s),
        regions: distinct_labels(s),
        matching_regions: 0,
        matching_length: 0,
        missing_chromosomes: 1,
        missing_regions: distinct_labels(s),
        missing_from_first: if lacking == Side::First { seq![name] } else { Seq::empty() },
        missing_from_second: if lacking == Side::Second { seq![name] } else { Seq::empty() },
    }
}

/// What a chromosome adds that both tables hold, given the tally of its sweep.
pub open spec fn paired_share(t: TallySpec) -> GenomeSpec {
    GenomeSpec {
        genome_length: t.chromosome_length,
        covered_length: t.covered_length,
        regions: t.regions,
        matching_regions: t.matching_regions,
        matching_length: t.matching_length,
        missing_chromosomes: 0,
        missing_regions: 0,
        missing_from_first: Seq::empty(),
        missing_from_second: Seq::empty(),
    }
}

/// The intervals that `t` holds under `name`; none where it holds no such chromosome.
pub open spec fn intervals_of(t: Seq<ChromosomeSpec>, name: Seq<char>) -> Seq<IntervalSpec> {
    if holds(t, name) {
        t[place_of(t, name)].intervals
    } else {
        Seq::empty()
    }
}

/// What the chromosome called `name` adds to the comparison of `a` and `b`.
pub open spec fn share(a: Seq<ChromosomeSpec>, b: Seq<ChromosomeSpec>, name: Seq<char>) -> GenomeSpec {
    let x = intervals_of(a, name);
    let y = intervals_of(b, name);
    if x.len() == 0 {
        lone_share(name, y, Side::First)
    } else if y.len() == 0 {
        lone_share(name, x, Side::Second)
    } else {
        paired_share(sweep(x, y))
    }
}

/// The chromosome names of a table, in its order.
pub open spec fn names(t: Seq<ChromosomeSpec>) -> Seq<Seq<char>> {
    Seq::new(t.len(), |k: int| t[k].name)
}

/// The names among the first `n` chromosomes of `b` that `a` does not hold.
pub open spec fn absent_names(a: Seq<ChromosomeSpec>, b: Seq<ChromosomeSpec>, n: nat) -> Seq<Seq<char>>
    decreases n,
{
    if n == 0 {
        Seq::empty()
    } else if holds(a, b[n - 1].name) {
        absent_names(a, b, (n - 1) as nat)
    } else {
        absent_names(a, b, (n - 1) as nat).push(b[n - 1].name)
    }
}

/// Every chromosome name of either table, once: those of `a`, then those
/// that only `b` holds.
pub open spec fn chromosome_names(a: Seq<ChromosomeSpec>, b: Seq<ChromosomeSpec>) -> Seq<Seq<char>> {
    names(a) + absent_names(a, b, b.len())
}

/// The shares of the chromosomes called `of`, added up in that order.
pub open spec fn sum_shares(a: Seq<ChromosomeSpec>, b: Seq<ChromosomeSpec>, of: Seq<Seq<char>>) -> GenomeSpec
    decreases of.len(),
{
    if of.len() == 0 {
        GenomeSpec::zero()
    } else {
        sum_shares(a, b, of.drop_last()).plus(share(a, b, of.last()))
    }
}

/// The genome-wide totals of the comparison of `a` and `b`: the sum of the
/// shares of all their chromosomes.
pub open spec fn genome(a: Seq<ChromosomeSpec>, b: Seq<ChromosomeSpec>) -> GenomeSpec {
    sum_shares(a, b, chromosome_names(a, b))
}

/// The sum of two counts, where it fits in 64 bits.
fn sum_within(x: u64, y: u64) -> (sum: Option<u64>)
    ensures
        match sum {
            Some(s) => s == x + y,
            None => x + y > u64::MAX,
        },
{
    if x > u64::MAX - y {
        None
    } else {
        Some(x + y)
    }
}

impl GenomeResult {
    /// The result of comparing nothing: every count 0, no name.
    pub fn new() -> (result: GenomeResult)
        ensures
            result@ == GenomeSpec::zero(),
    {
        let result = GenomeResult {
            genome_length: 0,
            covered_length: 0,
            regions: 0,
            matching_regions: 0,
            matching_length: 0,
            missing_chromosomes: 0,
            missing_regions: 0,
            missing_from_first: Vec::new(),
            missing_from_second: Vec::new(),
        };
        assert(result@.missing_from_first =~= Seq::<Seq<char>>::empty());
        assert(result@.missing_from_second =~= Seq::<Seq<char>>::empty());
        result
    }

    /// The matching length in hundredths of the covered length, rounded
    /// down; `None` where nothing is covered.
    pub fn matching_percent(&self) -> (percent: Option<u64>)
        requires
            self.matching_length <= self.covered_length,
        ensures
            match percent {
                Some(p) => self@.matching_percent() == Some(p as nat) && p <= 100,
                None => self@.matching_percent() is None,
            },
    {
        if self.covered_length == 0 {
            None
        } else {
            let matching: u128 = self.matching_length as u128;
            let covered: u128 = self.covered_length as u128;
            let percent: u128 = 100 * matching / covered;
            proof {
                let m = matching as int;
                let c = covered as int;
                assert(0 <= 100 * m / c <= 100) by (nonlinear_arith)
                    requires
                        0 <= m <= c,
                        c > 0,
                ;
            }
            Some(percent as u64)
        }
    }

    /// What a chromosome adds that both tables hold, from the tally of its sweep.
    pub fn paired(tally: &ChromosomeTally) -> (result: GenomeResult)
        ensures
            result@ == paired_share(tally@),
    {
        let result = GenomeResult {
            genome_length: tally.chromosome_length,
            covered_length: tally.covered_length,
            regions: tally.regions,
            matching_regions: tally.matching_regions,
            matching_length: tally.matching_length,
            missing_chromosomes: 0,
            missing_regions: 0,
            missing_from_first: Vec::new(),
            missing_from_second: Vec::new(),
        };
        assert(result@.missing_from_first =~= Seq::<Seq<char>>::empty());
        assert(result@.missing_from_second =~= Seq::<Seq<char>>::empty());
        result
    }

    /// What a chromosome adds that the table `lacking` does not hold, from
    /// its intervals in the other table; `None` where the sum of their
    /// lengths does not fit in 64 bits.
    pub fn lone(name: &String, intervals: &Vec<Interval>, lacking: Side) -> (result: Option<GenomeResult>)
        ensures
            match result {
                Some(r) => r@ == lone_share(name@, views(intervals@), lacking),
                None => !lone_share(name@, views(intervals@), lacking).fits(),
            },
    {
        let ghost s = views(intervals@);
        let covered: u64 = match sum_lengths(intervals) {
            Some(n) => n,
            None => {
                return None;
            },
        };
        let distinct: u64 = count_labels(intervals) as u64;
        let last: u64 = if intervals.len() == 0 {
            0
        } else {
            assert(s.last() == intervals@.last()@);
            intervals[intervals.len() - 1].end
        };
        let mut missing_from_first: Vec<String> = Vec::new();
        let mut missing_from_second: Vec<String> = Vec::new();
        match lacking {
            Side::First => {
                missing_from_first.push(name.clone());
            },
            Side::Second => {
                missing_from_second.push(name.clone());
            },
        }
        let result = GenomeResult {
            genome_length: last,
            covered_length: covered,
            regions: distinct,
            matching_regions: 0,
            matching_length: 0,
            missing_chromosomes: 1,
            missing_regions: distinct,
            missing_from_first,
            missing_from_second,
        };
        assert(result@.missing_from_first =~= lone_share(name@, s, lacking).missing_from_first);
        assert(result@.missing_from_second =~= lone_share(name@, s, lacking).missing_from_second);
        Some(result)
    }

    /// The sum of two results: counts added, name lists joined; `None`
    /// where a count does not fit in 64 bits.
    pub fn absorb(self, other: GenomeResult) -> (sum: Option<GenomeResult>)
        ensures
            match sum {
                Some(r) => r@ == self@.plus(other@),
                None => !self@.plus(other@).fits(),
            },
    {
        let ghost wanted = self@.plus(other@);
        let genome_length = match sum_within(self.genome_length, other.genome_length) {
            Some(n) => n,
            None => { return None; },
        };
        let covered_length = match sum_within(self.covered_length, other.covered_length) {
            Some(n) => n,
            None => { return None; },
        };
        let regions = match sum_within(self.regions, other.regions) {
            Some(n) => n,
            None => { return None; },
        };
        let matching_regions = match sum_within(self.matching_regions, other.matching_regions) {
            Some(n) => n,
            None => { return None; },
        };
        let matching_length = match sum_within(self.matching_length, other.matching_length) {
            Some(n) => n,
            None => { return None; },
        };
        let missing_chromosomes = match sum_within(self.missing_chromosomes, other.missing_chromosomes) {
            Some(n) => n,
            None => { return None; },
        };
        let missing_regions = match sum_within(self.missing_regions, other.missing_regions) {
            Some(n) => n,
            None => { return None; },
        };
        let mut missing_from_first = self.missing_from_first;
        let mut more_first = other.missing_from_first;
        missing_from_first.append(&mut more_first);
        let mut missing_from_second = self.missing_from_second;
        let mut more_second = other.missing_from_second;
        missing_from_second.append(&mut more_second);
        let result = GenomeResult {
            genome_length,
            covered_length,
            regions,
            matching_regions,
            matching_length,
            missing_chromosomes,
            missing_regions,
            missing_from_first,
            missing_from_second,
        };
        assert(result@.missing_from_first =~= wanted.missing_from_first);
        assert(result@.missing_from_second =~= wanted.missing_from_second);
        Some(result)
    }
}

/// The shares of the first `n` names sum to no more than those of all.
pub proof fn lemma_sum_shares_grows(a: Seq<ChromosomeSpec>, b: Seq<ChromosomeSpec>, of: Seq<Seq<char>>, n: nat)
    requires
        n <= of.len(),
    ensures
        sum_shares(a, b, of.take(n as int)).within(sum_shares(a, b, of)),
    decreases of.len(),
{
    if n == of.len() {
        assert(of.take(n as int) =~= of);
    } else {
        assert(of.drop_last().take(n as int) =~= of.take(n as int));
        lemma_sum_shares_grows(a, b, of.drop_last(), n);
    }
}

/// The names that `a` lacks among the first `k` chromosomes of `b` come
/// first among those that it lacks among the first `n`.
pub proof fn lemma_absent_names_prefix(a: Seq<ChromosomeSpec>, b: Seq<ChromosomeSpec>, k: nat, n: nat)
    requires
        k <= n,
    ensures
        absent_names(a, b, k).len() <= absent_names(a, b, n).len(),
        absent_names(a, b, k) == absent_names(a, b, n).take(absent_names(a, b, k).len() as int),
    decreases n,
{
    if k == n {
        assert(absent_names(a, b, n).take(absent_names(a, b, n).len() as int) =~= absent_names(a, b, n));
    } else {
        lemma_absent_names_prefix(a, b, k, (n - 1) as nat);
        let short = absent_names(a, b, (n - 1) as nat);
        let len = absent_names(a, b, k).len() as int;
        assert(absent_names(a, b, n).take(len) =~= short.take(len));
    }
}

/// What the chromosome at place `k` of `a` adds, told by whether `b` holds its name.
pub proof fn lemma_share_of_first(a: Seq<ChromosomeSpec>, b: Seq<ChromosomeSpec>, k: int)
    requires
        valid_table(a),
        valid_table(b),
        0 <= k < a.len(),
    ensures
        holds(b, a[k].name) ==> share(a, b, a[k].name) == paired_share(
            sweep(a[k].intervals, b[place_of(b, a[k].name)].intervals),
        ),
        !holds(b, a[k].name) ==> share(a, b, a[k].name) == lone_share(a[k].name, a[k].intervals, Side::Second),
{
    crate::table::lemma_place_of(a, a[k].name, k);
    if holds(b, a[k].name) {
        let m = place_of(b, a[k].name);
        assert(0 <= m < b.len() && b[m].name == a[k].name);
    }
}

/// What the chromosome at place `k` of `b` adds where `a` does not hold its name.
pub proof fn lemma_share_of_second(a: Seq<ChromosomeSpec>, b: Seq<ChromosomeSpec>, k: int)
    requires
        valid_table(b),
        0 <= k < b.len(),
        !holds(a, b[k].name),
    ensures
        share(a, b, b[k].name) == lone_share(b[k].name, b[k].intervals, Side::First),
{
    crate::table::lemma_place_of(b, b[k].name, k);
}

/// Compares two interval tables chromosome by chromosome and adds up what
/// each chromosome contributes; `None` where a total does not fit in 64 bits.
pub fn try_aggregate(first: &IntervalTable, second: &IntervalTable) -> (result: Option<GenomeResult>)
    requires
        first.wf(),
        second.wf(),
    ensures
        match result {
            Some(r) => r@ == genome(first@, second@) && r.matching_length <= r.covered_length
                && r.matching_regions <= r.regions,
            None => !genome(first@, second@).fits(),
        },
{
    proof {
        crate::laws::lemma_matching_within_covered(first@, second@);
    }
    let ghost a = first@;
    let ghost b = second@;
    let ghost all = chromosome_names(a, b);
    let mut total = GenomeResult::new();
    let mut k: usize = 0;
    while k < first.len()
        invariant
            first.wf(),
            second.wf(),
            a == first@,
            b == second@,
            all == chromosome_names(a, b),
            k <= a.len(),
            total@ == sum_shares(a, b, all.take(k as int)),
        decreases a.len() - k,
    {
        let chromosome = first.chromosome(k);
        let part = match second.find(&chromosome.name) {
            Some(m) => Some(GenomeResult::paired(&compare(&chromosome.intervals, &second.chromosome(m).intervals))),
            None => GenomeResult::lone(&chromosome.name, &chromosome.intervals, Side::Second),
        };
        proof {
            lemma_share_of_first(a, b, k as int);
            assert(all.take(k + 1).drop_last() =~= all.take(k as int));
            assert(all.take(k + 1).last() == a[k as int].name);
            lemma_sum_shares_grows(a, b, all, (k + 1) as nat);
        }
        let next = match part {
            Some(p) => total.absorb(p),
            None => None,
        };
        match next {
            Some(t) => {
                total = t;
            },
            None => {
                return None;
            },
        }
        k = k + 1;
    }
    let ghost base: int = a.len() as int;
    let mut k: usize = 0;
    while k < second.len()
        invariant
            first.wf(),
            second.wf(),
            a == first@,
            b == second@,
            all == chromosome_names(a, b),
            base == a.len(),
            k <= b.len(),
            total@ == sum_shares(a, b, all.take(base + absent_names(a, b, k as nat).len())),
        decreases b.len() - k,
    {
        let chromosome = second.chromosome(k);
        proof {
            lemma_absent_names_prefix(a, b, k as nat, b.len());
            lemma_absent_names_prefix(a, b, (k + 1) as nat, b.len());
        }
        if first.find(&chromosome.name).is_none() {
            let part = GenomeResult::lone(&chromosome.name, &chromosome.intervals, Side::First);
            proof {
                lemma_share_of_second(a, b, k as int);
                let done: int = base + absent_names(a, b, k as nat).len();
                assert(all.take(done + 1).drop_last() =~= all.take(done));
                assert(absent_names(a, b, (k + 1) as nat).last() == b[k as int].name);
                assert(all.take(done + 1).last() == b[k as int].name);
                lemma_sum_shares_grows(a, b, all, (done + 1) as nat);
            }
            let next = match part {
                Some(p) => total.absorb(p),
                None => None,
            };
            match next {
                Some(t) => {
                    total = t;
                },
                None => {
                    return None;
                },
            }
        }
        k = k + 1;
    }
    proof {
        assert(all.take(base + absent_names(a, b, b.len()).len()) =~= all);
    }
    Some(total)
}

/// Compares two interval tables chromosome by chromosome and adds up what
/// each chromosome contributes.
pub fn aggregate(first: &IntervalTable, second: &IntervalTable) -> (result: GenomeResult)
    requires
        first.wf(),
        second.wf(),
        genome(first@, second@).fits(),
    ensures
        result@ == genome(first@, second@),
        result.matching_length <= result.covered_length,
        result.matching_regions <= result.regions,
{
    try_aggregate(first, second).unwrap()
}

/// The number of different labels among the intervals.
pub fn count_labels(s: &Vec<Interval>) -> (n: usize)
    ensures
        n == distinct_labels(views(s@)),
{
    let ghost all = labels(views(s@));
    let mut n: usize = 0;
    let mut k: usize = 0;
    assert(all.take(0).to_set() =~= Set::<Seq<char>>::empty());
    while k < s.len()
        invariant
            k <= s.len(),
            all == labels(views(s@)),
            n <= k,
            n == all.take(k as int).to_set().len(),
        decreases s.len() - k,
    {
        let mut seen = false;
        let mut m: usize = 0;
        while m < k
            invariant
                m <= k < s.len(),
                all == labels(views(s@)),
                seen <==> exists|p: int| 0 <= p < m && #[trigger] all[p] == all[k as int],
            decreases k - m,
        {
            if s[m].label == s[k].label {
                seen = true;
                assert(all[m as int] == all[k as int]);
            }
            m = m + 1;
        }
        proof {
            let before = all.take(k as int);
            let label = all[k as int];
            assert(all.take(k + 1) =~= before.push(label));
            before.lemma_push_to_set_commute(label);
            vstd::seq_lib::seq_to_set_is_finite(before);
            if seen {
                let p = choose|p: int| 0 <= p < k && #[trigger] all[p] == all[k as int];
                assert(before[p] == label);
                assert(before.to_set().contains(label));
            } else {
                if before.to_set().contains(label) {
                    let p = choose|p: int| 0 <= p < before.len() && before[p] == label;
                    assert(all[p] == all[k as int]);
                }
            }
        }
        if !seen {
            n = n + 1;
        }
        k = k + 1;
    }
    assert(all.take(s.len() as int) =~= all);
    n
}

/// The sum of the interval lengths, where it fits in 64 bits.
pub fn sum_lengths(s: &Vec<Interval>) -> (sum: Option<u64>)
    ensures
        match sum {
            Some(n) => n == total_span(views(s@)),
            None => total_span(views(s@)) > u64::MAX,
        },
{
    let ghost all = views(s@);
    let mut sum: u64 = 0;
    let mut k: usize = 0;
    while k < s.len()
        invariant
            k <= s.len(),
            all == views(s@),
            sum == total_span(all.take(k as int)),
        decreases s.len() - k,
    {
        proof {
            assert(all.take(k + 1).drop_last() =~= all.take(k as int));
            assert(all.take(k + 1).last() == s@[k as int]@);
        }
        match sum_within(sum, s[k].length()) {
            Some(next) => {
                sum = next;
            },
            None => {
                proof {
                    lemma_total_span_grows(all, (k + 1) as nat);
                }
                return None;
            },
        }
        k = k + 1;
    }
    assert(all.take(s.len() as int) =~= all);
    Some(sum)
}

/// The lengths of the first `n` intervals sum to no more than those of all.
pub proof fn lemma_total_span_grows(s: Seq<IntervalSpec>, n: nat)
    requires
        n <= s.len(),
    ensures
        total_span(s.take(n as int)) <= total_span(s),
    decreases s.len(),
{
    if n == s.len() {
        assert(s.take(n as int) =~= s);
    } else {
        assert(s.drop_last().take(n as int) =~= s.take(n as int));
        lemma_total_span_grows(s.drop_last(), n);
    }
}

} // verus!
