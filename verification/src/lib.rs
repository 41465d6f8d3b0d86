//! Base-pair level comparison of two sets of labelled genomic intervals.
//!
//! * [`interval`]: a labelled half-open interval and its mathematical value.
//! * [`table`]: the intervals of one input, chromosome by chromosome.
//! * [`record`]: reading the lines of an annotation file into a table.
//! * [`sweep`]: the comparison of one chromosome by a two-cursor sweep.
//! * [`overlap`]: what the sweep amounts to on ordered intervals, in terms of
//!   overlapping pairs and of the union of the intervals.
//! * [`genome`]: the genome-wide totals, summed over the chromosomes of both
//!   inputs.
//! * [`laws`]: what holds of every comparison.
//! * [`report`]: the plain and the structured report on a result.

pub mod genome;
pub mod interval;
pub mod laws;
pub mod overlap;
pub mod record;
pub mod report;
pub mod sweep;
pub mod table;
