use bedcompare::interval::Interval;
use bedcompare::overlap::is_ordered;
use bedcompare::sweep::{compare, ChromosomeTally};

fn iv(start: u64, end: u64, label: &str) -> Interval {
    Interval::new(start, end, label.to_string())
}

fn tally(covered: u64, regions: u64, matching_regions: u64, matching_length: u64, length: u64) -> ChromosomeTally {
    ChromosomeTally {
        covered_length: covered,
        regions,
        matching_regions,
        matching_length,
        chromosome_length: length,
    }
}

#[test]
fn identical_single_interval() {
    let a = vec![iv(0, 100, "geneA")];
    let b = vec![iv(0, 100, "geneA")];
    assert_eq!(compare(&a, &b), tally(100, 1, 1, 100, 100));
}

#[test]
fn same_coordinates_different_labels() {
    let a = vec![iv(0, 100, "geneA")];
    let b = vec![iv(0, 100, "geneB")];
    assert_eq!(compare(&a, &b), tally(100, 1, 0, 0, 100));
}

#[test]
fn partial_overlap() {
    let a = vec![iv(0, 100, "geneA")];
    let b = vec![iv(50, 150, "geneA")];
    assert_eq!(compare(&a, &b), tally(150, 1, 1, 50, 150));
}

#[test]
fn partial_overlap_swapped() {
    let a = vec![iv(50, 150, "geneA")];
    let b = vec![iv(0, 100, "geneA")];
    assert_eq!(compare(&a, &b), tally(150, 1, 1, 50, 150));
}

#[test]
fn leading_gap_is_not_covered() {
    let a = vec![iv(10, 20, "x")];
    let b = vec![iv(15, 30, "x")];
    assert_eq!(compare(&a, &b), tally(20, 1, 1, 5, 30));
}

#[test]
fn nested_interval() {
    let a = vec![iv(0, 100, "outer")];
    let b = vec![iv(20, 30, "inner")];
    assert_eq!(compare(&a, &b), tally(100, 1, 0, 0, 100));
}

#[test]
fn one_interval_against_two() {
    let a = vec![iv(0, 100, "g")];
    let b = vec![iv(0, 40, "g"), iv(40, 100, "h")];
    assert_eq!(compare(&a, &b), tally(100, 2, 1, 40, 100));
}

#[test]
fn tiling_segments_with_shifted_breaks() {
    let a = vec![iv(0, 10, "p"), iv(10, 30, "q"), iv(30, 50, "r")];
    let b = vec![iv(0, 20, "p"), iv(20, 50, "r")];
    // overlaps: [0,10) p/p, [10,20) q/p, [20,30) q/r, [30,50) r/r
    assert_eq!(compare(&a, &b), tally(50, 4, 2, 30, 50));
}

#[test]
fn both_sides_skip_a_common_gap() {
    let a = vec![iv(0, 10, "g"), iv(20, 30, "g")];
    let b = vec![iv(0, 10, "g"), iv(25, 30, "g")];
    // [0,10) overlap, jump to 20, [20,25) first only, [25,30) overlap
    assert_eq!(compare(&a, &b), tally(20, 2, 2, 15, 30));
}

#[test]
fn stretch_between_two_intervals_is_not_covered() {
    let a = vec![iv(0, 10, "g")];
    let b = vec![iv(50, 60, "h")];
    // 0 to 10 first only, a jump to 50, 50 to 60 second only
    assert_eq!(compare(&a, &b), tally(20, 0, 0, 0, 60));
    assert_eq!(compare(&b, &a), tally(20, 0, 0, 0, 60));
}

#[test]
fn nothing_is_counted_once_one_side_has_run_out() {
    let a = vec![iv(0, 10, "g"), iv(20, 30, "g")];
    let b = vec![iv(0, 10, "g")];
    // 0 to 10 overlap, a jump to 20 with the second side behind, 20 to 30
    // first only
    assert_eq!(compare(&a, &b), tally(20, 1, 1, 10, 30));
    assert_eq!(compare(&b, &a), tally(20, 1, 1, 10, 30));
}

#[test]
fn exhausted_side_stays_on_its_last_interval() {
    let a = vec![iv(0, 10, "g")];
    let b = vec![iv(5, 10, "g"), iv(50, 60, "g")];
    assert_eq!(compare(&a, &b), tally(20, 1, 1, 5, 60));
    assert_eq!(compare(&b, &a), tally(20, 1, 1, 5, 60));
}

#[test]
fn touching_intervals_do_not_overlap() {
    let a = vec![iv(0, 10, "g")];
    let b = vec![iv(10, 20, "g")];
    assert_eq!(compare(&a, &b), tally(20, 0, 0, 0, 20));
}

#[test]
fn empty_intervals_end_the_sweep_at_once() {
    let a = vec![iv(0, 0, "g")];
    let b = vec![iv(0, 0, "g")];
    assert_eq!(compare(&a, &b), tally(0, 0, 0, 0, 0));
}

#[test]
fn reversed_coordinates_still_terminate() {
    let a = vec![iv(10, 5, "g")];
    let b = vec![iv(0, 3, "g")];
    // 0 to 3 second only, then a jump to the start of the first interval,
    // where both have ended
    assert_eq!(compare(&a, &b), tally(3, 0, 0, 0, 5));
    assert_eq!(compare(&b, &a), tally(3, 0, 0, 0, 5));
}

#[test]
fn largest_coordinates() {
    let a = vec![iv(0, u64::MAX, "g")];
    let b = vec![iv(1, u64::MAX, "g")];
    assert_eq!(compare(&a, &b), tally(u64::MAX, 1, 1, u64::MAX - 1, u64::MAX));
}

#[test]
fn swapping_sides_keeps_the_tally() {
    let a = vec![iv(3, 8, "a"), iv(8, 21, "b"), iv(25, 40, "c"), iv(41, 42, "d")];
    let b = vec![iv(0, 5, "a"), iv(6, 30, "b"), iv(30, 31, "c"), iv(35, 50, "c")];
    let forth = compare(&a, &b);
    let back = compare(&b, &a);
    assert_eq!(forth, back);
    assert!(forth.matching_length <= forth.covered_length);
    assert!(forth.matching_regions <= forth.regions);
}

#[test]
fn interval_length_is_the_distance_of_its_coordinates() {
    assert_eq!(iv(3, 10, "g").length(), 7);
    assert_eq!(iv(10, 3, "g").length(), 7);
    assert_eq!(iv(4, 4, "g").length(), 0);
}

fn shared(x: &Interval, y: &Interval) -> u64 {
    let lo = x.start.max(y.start);
    let hi = x.end.min(y.end);
    if lo < hi { hi - lo } else { 0 }
}

fn union_length(a: &[Interval], b: &[Interval], hi: u64) -> u64 {
    (0..hi).filter(|x| a.iter().chain(b.iter()).any(|r| r.start <= *x && *x < r.end)).count() as u64
}

fn check_against_pairs(a: &Vec<Interval>, b: &Vec<Interval>) -> ChromosomeTally {
    let t = compare(a, b);
    let mut regions = 0;
    let mut matching_regions = 0;
    let mut matching_length = 0;
    for x in a.iter() {
        for y in b.iter() {
            let n = shared(x, y);
            if n > 0 {
                regions += 1;
                if x.label == y.label {
                    matching_regions += 1;
                    matching_length += n;
                }
            }
        }
    }
    assert_eq!(t.regions, regions);
    assert_eq!(t.matching_regions, matching_regions);
    assert_eq!(t.matching_length, matching_length);
    let end = a.last().unwrap().end.max(b.last().unwrap().end);
    assert_eq!(t.chromosome_length, end);
    assert_eq!(t.covered_length, union_length(a, b, end));
    assert!(t.covered_length <= end);
    t
}

#[test]
fn ordered_intervals_count_the_overlapping_pairs() {
    let a = vec![iv(3, 8, "a"), iv(8, 21, "b"), iv(25, 40, "c"), iv(41, 42, "d")];
    let b = vec![iv(0, 5, "a"), iv(6, 30, "b"), iv(30, 31, "c"), iv(35, 50, "c")];
    check_against_pairs(&a, &b);
    check_against_pairs(&b, &a);
    let a = vec![iv(0, 0, "a"), iv(0, 4, "a"), iv(4, 4, "b"), iv(9, 12, "a")];
    let b = vec![iv(2, 3, "a"), iv(3, 3, "a"), iv(3, 10, "a"), iv(11, 11, "a"), iv(11, 20, "b")];
    check_against_pairs(&a, &b);
    check_against_pairs(&b, &a);
    let a = vec![iv(100, 200, "a")];
    let b = vec![iv(0, 10, "a"), iv(20, 30, "a"), iv(150, 160, "a"), iv(190, 250, "b"), iv(300, 301, "a")];
    check_against_pairs(&a, &b);
    check_against_pairs(&b, &a);
}

#[test]
fn intervals_without_a_gap_cover_their_whole_span() {
    let a = vec![iv(5, 10, "p"), iv(10, 30, "q"), iv(40, 50, "r")];
    let b = vec![iv(7, 20, "p"), iv(25, 45, "r"), iv(45, 60, "r")];
    let t = check_against_pairs(&a, &b);
    assert_eq!(union_length(&a, &b, 60), 55);
    assert_eq!(t.covered_length, 55);
    let t = check_against_pairs(&b, &a);
    assert_eq!(t.covered_length, 55);
}

#[test]
fn a_gap_of_both_sides_is_not_covered() {
    let a = vec![iv(0, 10, "g"), iv(20, 30, "g")];
    let b = vec![iv(0, 12, "g"), iv(25, 30, "g")];
    let t = check_against_pairs(&a, &b);
    // the union has 12 + 10 positions; nothing covers 12 to 20
    assert_eq!(union_length(&a, &b, 30), 22);
    assert_eq!(t.covered_length, 22);
    assert_eq!(check_against_pairs(&b, &a).covered_length, 22);
}

#[test]
fn ordered_means_sorted_and_apart() {
    assert!(is_ordered(&vec![]));
    assert!(is_ordered(&vec![iv(5, 5, "a")]));
    assert!(is_ordered(&vec![iv(0, 10, "a"), iv(10, 10, "b"), iv(10, 20, "c"), iv(25, 30, "d")]));
    assert!(!is_ordered(&vec![iv(10, 5, "a")]));
    assert!(!is_ordered(&vec![iv(0, 10, "a"), iv(9, 20, "b")]));
    assert!(!is_ordered(&vec![iv(0, 10, "a"), iv(30, 40, "b"), iv(20, 25, "c")]));
}
