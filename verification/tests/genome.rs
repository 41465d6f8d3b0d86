use bedcompare::genome::{aggregate, count_labels, sum_lengths, try_aggregate, GenomeResult, Side};
use bedcompare::interval::Interval;
use bedcompare::sweep::compare;
use bedcompare::table::IntervalTable;

fn iv(start: u64, end: u64, label: &str) -> Interval {
    Interval::new(start, end, label.to_string())
}

fn table(records: &[(&str, u64, u64, &str)]) -> IntervalTable {
    let mut t = IntervalTable::new();
    for (name, start, end, label) in records {
        t.push(name.to_string(), iv(*start, *end, label));
    }
    t
}

fn names(v: &Vec<String>) -> Vec<&str> {
    let mut out: Vec<&str> = v.iter().map(|s| s.as_str()).collect();
    out.sort();
    out
}

#[test]
fn identical_tables_match_in_full() {
    let first = table(&[("chr1", 0, 100, "geneA")]);
    let second = table(&[("chr1", 0, 100, "geneA")]);
    let r = aggregate(&first, &second);
    assert_eq!(r.genome_length, 100);
    assert_eq!(r.covered_length, 100);
    assert_eq!(r.regions, 1);
    assert_eq!(r.matching_regions, 1);
    assert_eq!(r.matching_length, 100);
    assert_eq!(r.matching_percent(), Some(100));
    assert_eq!(r.missing_chromosomes, 0);
    assert_eq!(r.missing_regions, 0);
    assert!(r.missing_from_first.is_empty());
    assert!(r.missing_from_second.is_empty());
}

#[test]
fn different_labels_match_nowhere() {
    let first = table(&[("chr1", 0, 100, "geneA")]);
    let second = table(&[("chr1", 0, 100, "geneB")]);
    let r = aggregate(&first, &second);
    assert_eq!(r.covered_length, 100);
    assert_eq!(r.regions, 1);
    assert_eq!(r.matching_regions, 0);
    assert_eq!(r.matching_length, 0);
    assert_eq!(r.matching_percent(), Some(0));
}

#[test]
fn chromosomes_of_one_table_only_are_missing() {
    let first = table(&[("chr1", 0, 50, "geneA")]);
    let second = table(&[("chr2", 0, 80, "geneB")]);
    let r = aggregate(&first, &second);
    assert_eq!(r.missing_chromosomes, 2);
    assert_eq!(r.missing_regions, 2);
    assert_eq!(r.matching_regions, 0);
    assert_eq!(r.matching_length, 0);
    assert_eq!(r.regions, 2);
    assert_eq!(r.covered_length, 130);
    assert_eq!(r.genome_length, 130);
    assert_eq!(names(&r.missing_from_second), vec!["chr1"]);
    assert_eq!(names(&r.missing_from_first), vec!["chr2"]);
}

#[test]
fn partly_overlapping_intervals_match_a_third() {
    let first = table(&[("chr1", 0, 100, "geneA")]);
    let second = table(&[("chr1", 50, 150, "geneA")]);
    let r = aggregate(&first, &second);
    assert_eq!(r.covered_length, 150);
    assert_eq!(r.regions, 1);
    assert_eq!(r.matching_regions, 1);
    assert_eq!(r.matching_length, 50);
    assert_eq!(r.genome_length, 150);
    assert_eq!(r.matching_percent(), Some(33));
    let percent = 100.0 * r.matching_length as f64 / r.covered_length as f64;
    assert!((percent - 33.3).abs() < 0.1);
}

#[test]
fn empty_tables_cover_nothing_and_have_no_percentage() {
    let first = IntervalTable::new();
    let second = IntervalTable::new();
    let r = aggregate(&first, &second);
    assert_eq!(r.covered_length, 0);
    assert_eq!(r.genome_length, 0);
    assert_eq!(r.regions, 0);
    assert_eq!(r.missing_chromosomes, 0);
    assert_eq!(r.matching_percent(), None);
}

#[test]
fn empty_intervals_leave_the_percentage_undefined() {
    let first = table(&[("chr1", 7, 7, "g")]);
    let second = table(&[("chr1", 7, 7, "g")]);
    let r = aggregate(&first, &second);
    assert_eq!(r.covered_length, 0);
    assert_eq!(r.matching_percent(), None);
}

#[test]
fn lone_chromosome_counts_labels_once_and_sums_lengths() {
    let first = table(&[
        ("chrX", 0, 10, "g"),
        ("chrX", 5, 25, "h"),
        ("chrX", 30, 40, "g"),
    ]);
    let second = IntervalTable::new();
    let r = aggregate(&first, &second);
    assert_eq!(r.missing_chromosomes, 1);
    assert_eq!(r.missing_regions, 2);
    assert_eq!(r.regions, 2);
    // 10 + 20 + 10: the lengths are summed as they stand
    assert_eq!(r.covered_length, 40);
    assert_eq!(r.genome_length, 40);
    assert_eq!(names(&r.missing_from_second), vec!["chrX"]);
    assert!(r.missing_from_first.is_empty());
}

#[test]
fn totals_are_the_sum_over_chromosomes() {
    let first = table(&[
        ("chr1", 0, 100, "a"),
        ("chr2", 10, 20, "b"),
        ("chr2", 20, 45, "c"),
        ("chr3", 0, 9, "d"),
    ]);
    let second = table(&[
        ("chr2", 15, 40, "b"),
        ("chr1", 50, 150, "a"),
        ("chr4", 3, 5, "e"),
        ("chr4", 5, 6, "e"),
    ]);
    let r = aggregate(&first, &second);
    let chr1 = compare(&vec![iv(0, 100, "a")], &vec![iv(50, 150, "a")]);
    let chr2 = compare(&vec![iv(10, 20, "b"), iv(20, 45, "c")], &vec![iv(15, 40, "b")]);
    assert_eq!(r.covered_length, chr1.covered_length + chr2.covered_length + 9 + 3);
    assert_eq!(r.regions, chr1.regions + chr2.regions + 1 + 1);
    assert_eq!(r.matching_regions, chr1.matching_regions + chr2.matching_regions);
    assert_eq!(r.matching_length, chr1.matching_length + chr2.matching_length);
    assert_eq!(r.genome_length, chr1.chromosome_length + chr2.chromosome_length + 9 + 6);
    assert_eq!(r.missing_chromosomes, 2);
    assert_eq!(r.missing_regions, 2);
    assert_eq!(names(&r.missing_from_second), vec!["chr3"]);
    assert_eq!(names(&r.missing_from_first), vec!["chr4"]);
    assert_eq!(r.covered_length, 150 + 35 + 9 + 3);
    assert_eq!(r.matching_length, 50 + 5);
}

#[test]
fn swapping_tables_keeps_counts_and_swaps_names() {
    let first = table(&[
        ("chr1", 0, 100, "a"),
        ("chr2", 10, 20, "b"),
        ("chr2", 20, 45, "c"),
        ("chr3", 0, 9, "d"),
        ("chr5", 1, 2, "d"),
    ]);
    let second = table(&[
        ("chr2", 15, 40, "b"),
        ("chr1", 50, 150, "a"),
        ("chr4", 3, 5, "e"),
    ]);
    let forth = aggregate(&first, &second);
    let back = aggregate(&second, &first);
    assert_eq!(forth.genome_length, back.genome_length);
    assert_eq!(forth.covered_length, back.covered_length);
    assert_eq!(forth.regions, back.regions);
    assert_eq!(forth.matching_regions, back.matching_regions);
    assert_eq!(forth.matching_length, back.matching_length);
    assert_eq!(forth.missing_chromosomes, back.missing_chromosomes);
    assert_eq!(forth.missing_regions, back.missing_regions);
    assert_eq!(forth.missing_from_first, back.missing_from_second);
    assert_eq!(forth.missing_from_second, back.missing_from_first);
    assert_eq!(forth.missing_from_second, vec!["chr3".to_string(), "chr5".to_string()]);
    assert_eq!(forth.missing_from_first, vec!["chr4".to_string()]);
}

#[test]
fn matching_never_exceeds_covered() {
    let first = table(&[("chr1", 0, 10, "a"), ("chr1", 10, 30, "b"), ("chr2", 0, 5, "a")]);
    let second = table(&[("chr1", 2, 12, "a"), ("chr1", 12, 50, "b"), ("chr3", 0, 5, "a")]);
    let r = aggregate(&first, &second);
    assert!(r.matching_length <= r.covered_length);
    assert!(r.matching_regions <= r.regions);
    let p = r.matching_percent().unwrap();
    assert!(p <= 100);
}

#[test]
fn totals_beyond_64_bits_are_refused() {
    let first = table(&[("chr1", 0, u64::MAX, "a"), ("chr2", 0, 1, "a")]);
    let second = IntervalTable::new();
    assert!(try_aggregate(&first, &second).is_none());
    let second = table(&[("chr1", 0, u64::MAX, "a"), ("chr2", 0, 1, "a")]);
    assert!(try_aggregate(&first, &second).is_none());
    let fitting = table(&[("chr1", 0, u64::MAX, "a")]);
    let r = try_aggregate(&fitting, &IntervalTable::new()).unwrap();
    assert_eq!(r.covered_length, u64::MAX);
}

#[test]
fn lone_share_overflow_is_refused() {
    let intervals = vec![iv(0, u64::MAX, "a"), iv(0, 1, "b")];
    assert!(GenomeResult::lone(&"chr1".to_string(), &intervals, Side::First).is_none());
    assert_eq!(sum_lengths(&intervals), None);
}

#[test]
fn lone_share_names_the_lacking_side() {
    let intervals = vec![iv(5, 10, "a"), iv(12, 20, "a")];
    let r = GenomeResult::lone(&"chr9".to_string(), &intervals, Side::First).unwrap();
    assert_eq!(r.missing_from_first, vec!["chr9".to_string()]);
    assert!(r.missing_from_second.is_empty());
    assert_eq!(r.covered_length, 13);
    assert_eq!(r.regions, 1);
    assert_eq!(r.missing_regions, 1);
    assert_eq!(r.missing_chromosomes, 1);
    assert_eq!(r.genome_length, 20);
    let r = GenomeResult::lone(&"chr9".to_string(), &intervals, Side::Second).unwrap();
    assert_eq!(r.missing_from_second, vec!["chr9".to_string()]);
    assert!(r.missing_from_first.is_empty());
}

#[test]
fn absorb_adds_counts_and_joins_names() {
    let a = GenomeResult::lone(&"chr1".to_string(), &vec![iv(0, 4, "a")], Side::First).unwrap();
    let b = GenomeResult::lone(&"chr2".to_string(), &vec![iv(0, 6, "b")], Side::First).unwrap();
    let sum = a.absorb(b).unwrap();
    assert_eq!(sum.covered_length, 10);
    assert_eq!(sum.genome_length, 10);
    assert_eq!(sum.missing_chromosomes, 2);
    assert_eq!(sum.missing_from_first, vec!["chr1".to_string(), "chr2".to_string()]);
    let big = GenomeResult::lone(&"chr3".to_string(), &vec![iv(0, u64::MAX, "a")], Side::First).unwrap();
    assert!(sum.absorb(big).is_none());
}

#[test]
fn paired_share_copies_the_tally() {
    let t = compare(&vec![iv(0, 100, "a")], &vec![iv(50, 150, "a")]);
    let r = GenomeResult::paired(&t);
    assert_eq!(r.genome_length, 150);
    assert_eq!(r.covered_length, 150);
    assert_eq!(r.regions, 1);
    assert_eq!(r.matching_regions, 1);
    assert_eq!(r.matching_length, 50);
    assert_eq!(r.missing_chromosomes, 0);
    assert_eq!(r.missing_regions, 0);
}

#[test]
fn labels_are_counted_once() {
    assert_eq!(count_labels(&vec![]), 0);
    assert_eq!(count_labels(&vec![iv(0, 1, "a"), iv(1, 2, "b"), iv(2, 3, "a"), iv(3, 4, "")]), 3);
}

#[test]
fn lengths_are_summed() {
    assert_eq!(sum_lengths(&vec![]), Some(0));
    assert_eq!(sum_lengths(&vec![iv(0, 10, "a"), iv(30, 25, "b")]), Some(15));
}

#[test]
fn table_keeps_chromosomes_in_order_of_first_record() {
    let t = table(&[("chr2", 0, 1, "a"), ("chr1", 0, 1, "b"), ("chr2", 1, 5, "c")]);
    assert_eq!(t.len(), 2);
    assert_eq!(t.find(&"chr2".to_string()), Some(0));
    assert_eq!(t.find(&"chr1".to_string()), Some(1));
    assert_eq!(t.find(&"chr3".to_string()), None);
    assert_eq!(t.chromosome(0).name, "chr2");
    assert_eq!(t.chromosome(0).intervals.len(), 2);
    assert_eq!(t.chromosome(0).intervals[1].end, 5);
    assert_eq!(t.chromosome(1).intervals.len(), 1);
}

#[test]
fn percent_is_rounded_down() {
    let mut r = GenomeResult::new();
    r.covered_length = 3;
    r.matching_length = 2;
    assert_eq!(r.matching_percent(), Some(66));
    r.covered_length = u64::MAX;
    r.matching_length = u64::MAX;
    assert_eq!(r.matching_percent(), Some(100));
    r.matching_length = 0;
    assert_eq!(r.matching_percent(), Some(0));
}

#[test]
fn paired_chromosome_adds_the_union_of_its_intervals() {
    let first = table(&[("chr1", 0, 10, "g"), ("chr1", 20, 30, "g")]);
    let second = table(&[("chr1", 0, 10, "g")]);
    let forth = aggregate(&first, &second);
    let back = aggregate(&second, &first);
    assert_eq!(forth.covered_length, 20);
    assert_eq!(back.covered_length, 20);
    assert_eq!(forth.matching_length, 10);
    assert_eq!(forth.regions, 1);
    assert_eq!(forth.genome_length, 30);
    assert_eq!(forth.matching_percent(), Some(50));
}
