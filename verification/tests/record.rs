use bedcompare::record::{characters, parse_line, separates, ParseError};
use bedcompare::table::IntervalTable;

#[test]
fn four_fields_make_a_record() {
    let r = parse_line("chr1\t0\t100\tgeneA").unwrap().unwrap();
    assert_eq!(r.chromosome, "chr1");
    assert_eq!(r.interval.start, 0);
    assert_eq!(r.interval.end, 100);
    assert_eq!(r.interval.label, "geneA");
}

#[test]
fn any_whitespace_separates_fields() {
    let r = parse_line("  chr1 \t 5\u{a0}\u{3000}17   gene\u{2003}rest  ").unwrap().unwrap();
    assert_eq!(r.chromosome, "chr1");
    assert_eq!(r.interval.start, 5);
    assert_eq!(r.interval.end, 17);
    assert_eq!(r.interval.label, "gene");
}

#[test]
fn fields_after_the_fourth_are_not_read() {
    let r = parse_line("chr1 1 2 label 0 + not-a-number").unwrap().unwrap();
    assert_eq!(r.interval.label, "label");
    assert_eq!(r.interval.start, 1);
    assert_eq!(r.interval.end, 2);
}

#[test]
fn fewer_than_four_fields_say_nothing() {
    assert!(parse_line("").unwrap().is_none());
    assert!(parse_line("   \t ").unwrap().is_none());
    assert!(parse_line("chr1").unwrap().is_none());
    assert!(parse_line("chr1 10").unwrap().is_none());
    assert!(parse_line("chr1 10 20").unwrap().is_none());
    assert!(parse_line("chr1 x y").unwrap().is_none());
}

#[test]
fn start_must_be_a_number() {
    assert_eq!(parse_line("chr1 x 20 g").unwrap_err(), ParseError::BadStart);
    assert_eq!(parse_line("chr1 -1 20 g").unwrap_err(), ParseError::BadStart);
    assert_eq!(parse_line("chr1 1.5 20 g").unwrap_err(), ParseError::BadStart);
    assert_eq!(parse_line("chr1 + 20 g").unwrap_err(), ParseError::BadStart);
    assert_eq!(parse_line("chr1 ++1 20 g").unwrap_err(), ParseError::BadStart);
    assert_eq!(parse_line("chr1 x y g").unwrap_err(), ParseError::BadStart);
    assert_eq!(parse_line("chr1 18446744073709551616 20 g").unwrap_err(), ParseError::BadStart);
}

#[test]
fn end_must_be_a_number() {
    assert_eq!(parse_line("chr1 10 y g").unwrap_err(), ParseError::BadEnd);
    assert_eq!(parse_line("chr1 10 20x g").unwrap_err(), ParseError::BadEnd);
    assert_eq!(parse_line("chr1 10 99999999999999999999 g").unwrap_err(), ParseError::BadEnd);
    assert_eq!(parse_line("chr1 10 \u{663}\u{664} g").unwrap_err(), ParseError::BadEnd);
}

#[test]
fn numbers_as_the_standard_library_reads_them() {
    for text in ["0", "7", "+7", "007", "18446744073709551615", "+18446744073709551615", "000000000000000000000001"] {
        let line = format!("c {} {} l", text, text);
        let r = parse_line(&line).unwrap().unwrap();
        let expected: u64 = text.parse().unwrap();
        assert_eq!(r.interval.start, expected);
        assert_eq!(r.interval.end, expected);
    }
    for text in ["", "+", "-", "-0", "1_000", "0x10", "1e3", "18446744073709551616", "184467440737095516150", "１２"] {
        assert!(text.parse::<u64>().is_err());
        if !text.is_empty() {
            let line = format!("c {} 1 l", text);
            assert_eq!(parse_line(&line).unwrap_err(), ParseError::BadStart);
        }
    }
}

#[test]
fn separators_are_the_whitespace_characters() {
    let mut c = '\0';
    loop {
        assert_eq!(separates(c), c.is_whitespace());
        if c == char::MAX {
            break;
        }
        c = char::from_u32(c as u32 + 1).unwrap_or('\u{e000}');
    }
}

#[test]
fn fields_as_the_standard_library_splits_them() {
    for line in ["a 1 2 d", " a\t1  2\u{2028}d e ", "\u{85}x 1 2 \u{1680}y\u{205f}", "é 3 4 ü", "a\u{200b}b 1 2 z"] {
        let fields: Vec<&str> = line.split_whitespace().collect();
        let r = parse_line(line).unwrap().unwrap();
        assert_eq!(r.chromosome, fields[0]);
        assert_eq!(r.interval.label, fields[3]);
    }
}

#[test]
fn characters_of_a_line() {
    assert_eq!(characters(""), Vec::<char>::new());
    assert_eq!(characters("aé\t𝄞"), vec!['a', 'é', '\t', '𝄞']);
}

#[test]
fn lines_fill_a_table() {
    let mut t = IntervalTable::new();
    assert_eq!(t.add_line("chr1 0 10 a"), Ok(()));
    assert_eq!(t.add_line("# comment"), Ok(()));
    assert_eq!(t.add_line("chr2 5 6 b extra"), Ok(()));
    assert_eq!(t.add_line("chr1 10 20 c"), Ok(()));
    assert_eq!(t.add_line("chr1 ten 20 c"), Err(ParseError::BadStart));
    assert_eq!(t.add_line("chr1 10 twenty c"), Err(ParseError::BadEnd));
    assert_eq!(t.len(), 2);
    assert_eq!(t.chromosome(0).name, "chr1");
    assert_eq!(t.chromosome(0).intervals.len(), 2);
    assert_eq!(t.chromosome(0).intervals[1].start, 10);
    assert_eq!(t.chromosome(0).intervals[1].label, "c");
    assert_eq!(t.chromosome(1).name, "chr2");
    assert_eq!(t.chromosome(1).intervals.len(), 1);
}
