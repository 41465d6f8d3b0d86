use vstd::prelude::*;
use crate::interval::{Interval, IntervalSpec};
use crate::table::{ChromosomeSpec, IntervalTable, with_record};

verus! {

/// The characters that separate the fields of a line: those with the
/// Unicode property `White_Space`.
pub open spec fn is_space(c: char) -> bool {
    ||| '\u{9}' <= c <= '\u{d}'
    ||| c == ' '
    ||| c == '\u{85}'
    ||| c == '\u{a0}'
    ||| c == '\u{1680}'
    ||| '\u{2000}' <= c <= '\u{200a}'
    ||| c == '\u{2028}'
    ||| c == '\u{2029}'
    ||| c == '\u{202f}'
    ||| c == '\u{205f}'
    ||| c == '\u{3000}'
}

pub open spec fn is_digit(c: char) -> bool {
    '0' <= c <= '9'
}

/// The first place at or after `from` that holds no separator; the
/// length of `s` where there is none.
pub open spec fn skip_spaces(s: Seq<char>, from: int) -> int
    decreases s.len() - from,
{
    if 0 <= from < s.len() && is_space(s[from]) {
        skip_spaces(s, from + 1)
    } else {
        from
    }
}

/// The first place at or after `from` that holds a separator; the length
/// of `s` where there is none.
pub open spec fn field_end(s: Seq<char>, from: int) -> int
    decreases s.len() - from,
{
    if 0 <= from < s.len() && !is_space(s[from]) {
        field_end(s, from + 1)
    } else {
        from
    }
}

/// The fields of `s` that begin at or after `from`: the longest runs of
/// characters other than separators, in their order.
pub open spec fn fields_from(s: Seq<char>, from: int) -> Seq<Seq<char>>
    decreases s.len() - from,
{
    let start = skip_spaces(s, from);
    let end = field_end(s, start);
    if 0 <= from <= start < end <= s.len() {
        seq![s.subrange(start, end)] + fields_from(s, end)
    } else {
        Seq::empty()
    }
}

/// The fields of a line.
pub open spec fn fields(s: Seq<char>) -> Seq<Seq<char>> {
    fields_from(s, 0)
}

/// The number that a run of decimal digits writes.
pub open spec fn digits_value(s: Seq<char>) -> nat
    decreases s.len(),
{
    if s.len() == 0 {
        0
    } else {
        digits_value(s.drop_last()) * 10 + (s.last() as nat - '0' as nat) as nat
    }
}

/// The digits of a field: the field without a leading `+`.
pub open spec fn digits_of(s: Seq<char>) -> Seq<char> {
    if s.len() > 0 && s[0] == '+' {
        s.subrange(1, s.len() as int)
    } else {
        s
    }
}

/// The coordinate that a field writes: at least one decimal digit, with
/// or without a `+` before, and a value that fits in 64 bits.
pub open spec fn number(s: Seq<char>) -> Option<nat> {
    let digits = digits_of(s);
    if digits.len() > 0 && (forall|k: int| 0 <= k < digits.len() ==> is_digit(#[trigger] digits[k]))
        && digits_value(digits) <= u64::MAX {
        Some(digits_value(digits))
    } else {
        None
    }
}

/// Why a line with four fields or more is no record.
#[derive(Debug, Clone, Copy, PartialEq, Eq, Structural)]
pub enum ParseError {
    /// The second field writes no coordinate.
    BadStart,
    /// The third field writes no coordinate.
    BadEnd,
}

/// One record of an annotation file: an interval and the name of its chromosome.
#[derive(Debug)]
pub struct Record {
    pub chromosome: String,
    pub interval: Interval,
}

/// The mathematical value of a [`Record`].
pub struct RecordSpec {
    pub chromosome: Seq<char>,
    pub interval: IntervalSpec,
}

impl View for Record {
    type V = RecordSpec;

    open spec fn view(&self) -> RecordSpec {
        RecordSpec { chromosome: self.chromosome@, interval: self.interval@ }
    }
}

/// What a line says: nothing where it has fewer than four fields;
/// otherwise the record made of its first four fields, the chromosome,
/// the start, the end and the label, unless the start or the end writes
/// no coordinate.
pub open spec fn parse(line: Seq<char>) -> Result<Option<RecordSpec>, ParseError> {
    let f = fields(line);
    if f.len() < 4 {
        Ok(None)
    } else {
        match number(f[1]) {
            None => Err(ParseError::BadStart),
            Some(start) => match number(f[2]) {
                None => Err(ParseError::BadEnd),
                Some(end) => Ok(
                    Some(
                        RecordSpec {
                            chromosome: f[0],
                            interval: IntervalSpec { start, end, label: f[3] },
                        },
                    ),
                ),
            },
        }
    }
}

/// The characters of a line, one by one.
pub fn characters(line: &str) -> (out: Vec<char>)
    ensures
        out@ == line@,
{
    broadcast use vstd::string::axiom_spec_iter;

    let mut out: Vec<char> = Vec::new();
    for c in it: line.chars()
        invariant
            it.seq() == line@,
            out@ == it.seq().take(it.index() as int),
    {
        out.push(c);
    }
    out
}

/// Whether `c` separates fields.
pub fn separates(c: char) -> (yes: bool)
    ensures
        yes == is_space(c),
{
    ('\u{9}' <= c && c <= '\u{d}') || c == ' ' || c == '\u{85}' || c == '\u{a0}' || c == '\u{1680}' || (
    '\u{2000}' <= c && c <= '\u{200a}') || c == '\u{2028}' || c == '\u{2029}' || c == '\u{202f}' || c
        == '\u{205f}' || c == '\u{3000}'
}

/// The bounds of the first field at or after `from`, if there is one.
fn next_field(s: &Vec<char>, from: usize) -> (bounds: Option<(usize, usize)>)
    requires
        from <= s.len(),
    ensures
        match bounds {
            Some((start, end)) => {
                &&& from <= start < end <= s.len()
                &&& start == skip_spaces(s@, from as int)
                &&& end == field_end(s@, start as int)
            },
            None => skip_spaces(s@, from as int) == s.len(),
        },
{
    let mut start: usize = from;
    while start < s.len() && separates(s[start])
        invariant
            from <= start <= s.len(),
            skip_spaces(s@, from as int) == skip_spaces(s@, start as int),
        decreases s.len() - start,
    {
        start = start + 1;
    }
    if start == s.len() {
        return None;
    }
    let mut end: usize = start + 1;
    while end < s.len() && !separates(s[end])
        invariant
            start < end <= s.len(),
            field_end(s@, start as int) == field_end(s@, end as int),
        decreases s.len() - end,
    {
        end = end + 1;
    }
    Some((start, end))
}

/// A run of digits writes at least what any of its beginnings writes.
pub proof fn lemma_digits_value_grows(s: Seq<char>, n: int)
    requires
        0 <= n <= s.len(),
    ensures
        digits_value(s.take(n)) <= digits_value(s),
    decreases s.len(),
{
    if n == s.len() {
        assert(s.take(n) =~= s);
    } else {
        assert(s.drop_last().take(n) =~= s.take(n));
        lemma_digits_value_grows(s.drop_last(), n);
    }
}

/// The coordinate that the characters from `from` up to `to` write, if any.
fn read_number(s: &Vec<char>, from: usize, to: usize) -> (value: Option<u64>)
    requires
        from < to <= s.len(),
    ensures
        match value {
            Some(n) => number(s@.subrange(from as int, to as int)) == Some(n as nat),
            None => number(s@.subrange(from as int, to as int)) is None,
        },
{
    let ghost field = s@.subrange(from as int, to as int);
    let first: usize = if s[from] == '+' { from + 1 } else { from };
    let ghost digits = digits_of(field);
    assert(digits =~= s@.subrange(first as int, to as int));
    if first == to {
        return None;
    }
    let mut value: u64 = 0;
    let mut k: usize = first;
    while k < to
        invariant
            from <= first <= k <= to <= s.len(),
            digits == s@.subrange(first as int, to as int),
            digits == digits_of(field),
            field == s@.subrange(from as int, to as int),
            forall|m: int| 0 <= m < k - first ==> is_digit(#[trigger] digits[m]),
            value == digits_value(digits.take(k - first)),
        decreases to - k,
    {
        let c = s[k];
        assert(digits[k - first] == c);
        if !('0' <= c && c <= '9') {
            return None;
        }
        let digit: u64 = (c as u32 - '0' as u32) as u64;
        proof {
            assert(digits.take(k - first + 1).drop_last() =~= digits.take(k - first));
            assert(digits.take(k - first + 1).last() == c);
            lemma_digits_value_grows(digits, k - first + 1);
        }
        if value > (u64::MAX - digit) / 10 {
            return None;
        }
        value = value * 10 + digit;
        k = k + 1;
    }
    assert(digits.take(to - first) =~= digits);
    Some(value)
}

/// Reads one line of an annotation file.
///
/// A line with fewer than four fields says nothing and gives `Ok(None)`.
/// Of any other line the first four fields are the chromosome, the start,
/// the end and the label; what follows them is not read.
pub fn parse_line(line: &str) -> (parsed: Result<Option<Record>, ParseError>)
    ensures
        match parsed {
            Ok(Some(record)) => parse(line@) == Ok::<Option<RecordSpec>, ParseError>(Some(record@)),
            Ok(None) => parse(line@) == Ok::<Option<RecordSpec>, ParseError>(None),
            Err(e) => parse(line@) == Err::<Option<RecordSpec>, ParseError>(e),
        },
{
    let s = characters(line);
    let ghost all = fields(line@);
    let (s0, e0) = match next_field(&s, 0) {
        Some(bounds) => bounds,
        None => {
            return Ok(None);
        },
    };
    let (s1, e1) = match next_field(&s, e0) {
        Some(bounds) => bounds,
        None => {
            assert(fields_from(s@, e0 as int).len() == 0);
            return Ok(None);
        },
    };
    let (s2, e2) = match next_field(&s, e1) {
        Some(bounds) => bounds,
        None => {
            assert(fields_from(s@, e1 as int).len() == 0);
            assert(fields_from(s@, e0 as int).len() == 1);
            return Ok(None);
        },
    };
    let (s3, e3) = match next_field(&s, e2) {
        Some(bounds) => bounds,
        None => {
            assert(fields_from(s@, e2 as int).len() == 0);
            assert(fields_from(s@, e1 as int).len() == 1);
            assert(fields_from(s@, e0 as int).len() == 2);
            return Ok(None);
        },
    };
    proof {
        let f3 = fields_from(s@, e2 as int);
        let f2 = fields_from(s@, e1 as int);
        let f1 = fields_from(s@, e0 as int);
        assert(f3[0] == s@.subrange(s3 as int, e3 as int));
        assert(f2[0] == s@.subrange(s2 as int, e2 as int) && f2[1] == f3[0]);
        assert(f1[0] == s@.subrange(s1 as int, e1 as int) && f1[1] == f2[0] && f1[2] == f2[1]);
        assert(all[0] == s@.subrange(s0 as int, e0 as int) && all[1] == f1[0] && all[2] == f1[1] && all[3]
            == f1[2]);
        assert(all.len() >= 4);
    }
    let start = match read_number(&s, s1, e1) {
        Some(n) => n,
        None => {
            return Err(ParseError::BadStart);
        },
    };
    let end = match read_number(&s, s2, e2) {
        Some(n) => n,
        None => {
            return Err(ParseError::BadEnd);
        },
    };
    let chromosome = line.substring_char(s0, e0).to_owned();
    let label = line.substring_char(s3, e3).to_owned();
    Ok(Some(Record { chromosome, interval: Interval { start, end, label } }))
}

/// The table after a line was read into it: with one more record where
/// the line holds one, as it was where the line says nothing.
pub open spec fn with_line(t: Seq<ChromosomeSpec>, line: Seq<char>) -> Seq<ChromosomeSpec> {
    match parse(line) {
        Ok(Some(record)) => with_record(t, record.chromosome, record.interval),
        _ => t,
    }
}

impl IntervalTable {
    /// Reads one line of an annotation file into the table. A line that
    /// is no record leaves the table as it was.
    pub fn add_line(&mut self, line: &str) -> (outcome: Result<(), ParseError>)
        requires
            old(self).wf(),
        ensures
            final(self).wf(),
            final(self)@ == with_line(old(self)@, line@),
            match outcome {
                Ok(()) => parse(line@) is Ok,
                Err(e) => parse(line@) == Err::<Option<RecordSpec>, ParseError>(e),
            },
    {
        match parse_line(line) {
            Ok(Some(record)) => {
                self.push(record.chromosome, record.interval);
                Ok(())
            },
            Ok(None) => Ok(()),
            Err(e) => Err(e),
        }
    }
}

} // verus!
