use vstd::prelude::*;
use crate::interval::{Interval, IntervalSpec, views};

verus! {

/// The intervals of one chromosome, in the order in which they were added.
#[derive(Debug)]
pub struct Chromosome {
    pub name: String,
    pub intervals: Vec<Interval>,
}

/// The mathematical value of a [`Chromosome`].
pub struct ChromosomeSpec {
    pub name: Seq<char>,
    pub intervals: Seq<IntervalSpec>,
}

impl View for Chromosome {
    type V = ChromosomeSpec;

    open spec fn view(&self) -> ChromosomeSpec {
        ChromosomeSpec { name: self.name@, intervals: views(self.intervals@) }
    }
}

/// Some chromosome of `t` is called `name`.
pub open spec fn holds(t: Seq<ChromosomeSpec>, name: Seq<char>) -> bool {
    exists|k: int| 0 <= k < t.len() && #[trigger] t[k].name == name
}

/// The place of the chromosome called `name` in `t`, where `t` holds one.
pub open spec fn place_of(t: Seq<ChromosomeSpec>, name: Seq<char>) -> int {
    choose|k: int| 0 <= k < t.len() && #[trigger] t[k].name == name
}

/// No two chromosomes share a name, and none is without intervals.
pub open spec fn valid_table(t: Seq<ChromosomeSpec>) -> bool {
    &&& forall|k: int, m: int| 0 <= k < m < t.len() ==> #[trigger] t[k].name != #[trigger] t[m].name
    &&& forall|k: int| 0 <= k < t.len() ==> (#[trigger] t[k]).intervals.len() > 0
}

/// The table after one more interval was added under `name`: behind the
/// intervals of that chromosome, or as a new last chromosome.
pub open spec fn with_record(t: Seq<ChromosomeSpec>, name: Seq<char>, x: IntervalSpec) -> Seq<ChromosomeSpec> {
    if holds(t, name) {
        let k = place_of(t, name);
        t.update(k, ChromosomeSpec { name, intervals: t[k].intervals.push(x) })
    } else {
        t.push(ChromosomeSpec { name, intervals: seq![x] })
    }
}

/// In a valid table the chromosome called `name` stands at one place only.
pub proof fn lemma_place_of(t: Seq<ChromosomeSpec>, name: Seq<char>, k: int)
    requires
        valid_table(t),
        0 <= k < t.len(),
        t[k].name == name,
    ensures
        holds(t, name),
        place_of(t, name) == k,
{
    let p = place_of(t, name);
    assert(0 <= p < t.len() && t[p].name == name);
    if p < k {
        assert(t[p].name != t[k].name);
    } else if k < p {
        assert(t[k].name != t[p].name);
    }
}

/// The interval sets of one input, chromosome by chromosome.
#[derive(Debug)]
pub struct IntervalTable {
    chromosomes: Vec<Chromosome>,
}

impl View for IntervalTable {
    type V = Seq<ChromosomeSpec>;

    closed spec fn view(&self) -> Seq<ChromosomeSpec> {
        Seq::new(self.chromosomes@.len(), |k: int| self.chromosomes@[k]@)
    }
}

impl IntervalTable {
    /// What every table built by [`IntervalTable::new`] and
    /// [`IntervalTable::push`] satisfies: its value is a valid table.
    pub open spec fn wf(&self) -> bool {
        valid_table(self@)
    }

    /// A table without chromosomes.
    pub fn new() -> (table: IntervalTable)
        ensures
            table.wf(),
            table@ == Seq::<ChromosomeSpec>::empty(),
    {
        let table = IntervalTable { chromosomes: Vec::new() };
        assert(table@ =~= Seq::<ChromosomeSpec>::empty());
        table
    }

    /// The number of chromosomes.
    pub fn len(&self) -> (n: usize)
        ensures
            n == self@.len(),
    {
        self.chromosomes.len()
    }

    /// The chromosome at place `k`.
    pub fn chromosome(&self, k: usize) -> (chromosome: &Chromosome)
        requires
            self.wf(),
            k < self@.len(),
        ensures
            chromosome@ == self@[k as int],
            chromosome.intervals.len() > 0,
    {
        assert(self@[k as int].intervals.len() > 0);
        &self.chromosomes[k]
    }

    /// The place of the chromosome called `name`, if the table holds one.
    pub fn find(&self, name: &String) -> (found: Option<usize>)
        requires
            self.wf(),
        ensures
            match found {
                Some(k) => k < self@.len() && self@[k as int].name == name@ && k == place_of(self@, name@),
                None => !holds(self@, name@),
            },
    {
        let mut k: usize = 0;
        while k < self.chromosomes.len()
            invariant
                self.wf(),
                k <= self.chromosomes.len(),
                forall|m: int| 0 <= m < k ==> (#[trigger] self@[m]).name != name@,
            decreases self.chromosomes.len() - k,
        {
            if self.chromosomes[k].name == *name {
                proof {
                    lemma_place_of(self@, name@, k as int);
                }
                return Some(k);
            }
            assert(self@[k as int].name != name@);
            k = k + 1;
        }
        None
    }

    /// Adds `interval` to the chromosome called `name`.
    pub fn push(&mut self, name: String, interval: Interval)
        requires
            old(self).wf(),
        ensures
            final(self).wf(),
            final(self)@ == with_record(old(self)@, name@, interval@),
    {
        let ghost before = self@;
        match self.find(&name) {
            Some(k) => {
                self.chromosomes[k].intervals.push(interval);
                proof {
                    let grown = ChromosomeSpec {
                        name: name@,
                        intervals: before[k as int].intervals.push(interval@),
                    };
                    assert(self.chromosomes@[k as int]@.intervals =~= grown.intervals);
                    assert(self@ =~= before.update(k as int, grown));
                }
            },
            None => {
                let mut intervals: Vec<Interval> = Vec::new();
                intervals.push(interval);
                let ghost fresh = ChromosomeSpec { name: name@, intervals: seq![interval@] };
                let chromosome = Chromosome { name, intervals };
                assert(chromosome@.intervals =~= fresh.intervals);
                self.chromosomes.push(chromosome);
                assert(self@ =~= before.push(fresh));
            },
        }
    }
}

} // verus!
