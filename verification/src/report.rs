use vstd::prelude::*;
use vstd::string::StringExecFns;
use crate::genome::{GenomeResult, GenomeSpec};

verus! {

/// The character that writes the digit `d`.
pub open spec fn digit_char(d: nat) -> char {
    if d == 0 {
        '0'
    } else if d == 1 {
        '1'
    } else if d == 2 {
        '2'
    } else if d == 3 {
        '3'
    } else if d == 4 {
        '4'
    } else if d == 5 {
        '5'
    } else if d == 6 {
        '6'
    } else if d == 7 {
        '7'
    } else if d == 8 {
        '8'
    } else {
        '9'
    }
}

/// The decimal digits of `n`, without leading zeros.
pub open spec fn decimal(n: nat) -> Seq<char>
    decreases n,
{
    if n < 10 {
        seq![digit_char(n)]
    } else {
        decimal(n / 10).push(digit_char(n % 10))
    }
}

/// The names one after the other, each followed by a comma.
pub open spec fn comma_ended(names: Seq<Seq<char>>) -> Seq<char>
    decreases names.len(),
{
    if names.len() == 0 {
        Seq::empty()
    } else {
        comma_ended(names.drop_last()) + names.last() + seq![',']
    }
}

fn digit_text(d: u64) -> (text: &'static str)
    requires
        d < 10,
    ensures
        text@ == seq![digit_char(d as nat)],
{
    proof {
        reveal_strlit("0");
        reveal_strlit("1");
        reveal_strlit("2");
        reveal_strlit("3");
        reveal_strlit("4");
        reveal_strlit("5");
        reveal_strlit("6");
        reveal_strlit("7");
        reveal_strlit("8");
        reveal_strlit("9");
    }
    let text = if d == 0 {
        "0"
    } else if d == 1 {
        "1"
    } else if d == 2 {
        "2"
    } else if d == 3 {
        "3"
    } else if d == 4 {
        "4"
    } else if d == 5 {
        "5"
    } else if d == 6 {
        "6"
    } else if d == 7 {
        "7"
    } else if d == 8 {
        "8"
    } else {
        "9"
    };
    assert(text@ =~= seq![digit_char(d as nat)]);
    text
}

/// Writes `n` in decimal digits.
pub fn decimal_text(n: u64) -> (text: String)
    ensures
        text@ == decimal(n as nat),
    decreases n,
{
    if n < 10 {
        String::from_str(digit_text(n))
    } else {
        let mut text = decimal_text(n / 10);
        text.append(digit_text(n % 10));
        assert(text@ =~= decimal(n as nat));
        text
    }
}

/// Writes the names one after the other, each followed by a comma.
pub fn comma_ended_text(names: &Vec<String>) -> (text: String)
    ensures
        text@ == comma_ended(crate::genome::texts(names@)),
{
    let ghost all = crate::genome::texts(names@);
    let mut text = String::new();
    let mut k: usize = 0;
    while k < names.len()
        invariant
            k <= names.len(),
            all == crate::genome::texts(names@),
            text@ == comma_ended(all.take(k as int)),
        decreases names.len() - k,
    {
        proof {
            reveal_strlit(",");
            assert(all.take(k + 1).drop_last() =~= all.take(k as int));
            assert(all.take(k + 1).last() == names@[k as int]@);
        }
        text.append(names[k].as_str());
        text.append(",");
        assert(text@ =~= comma_ended(all.take(k + 1)));
        k = k + 1;
    }
    assert(all.take(names.len() as int) =~= all);
    text
}

/// The values of a run of key and value pairs, in the same order.
pub open spec fn pairs(s: Seq<(String, String)>) -> Seq<(Seq<char>, Seq<char>)> {
    Seq::new(s.len(), |k: int| (s[k].0@, s[k].1@))
}

/// The keys and values of the structured record of a result. `ratio` is
/// the text that stands for the share of matching length in the covered length.
pub open spec fn record_pairs(g: GenomeSpec, ratio: Seq<char>) -> Seq<(Seq<char>, Seq<char>)> {
    seq![
        ("genome_length"@, decimal(g.genome_length)),
        ("bed_regions_length"@, decimal(g.covered_length)),
        ("bed_number_of_regions"@, decimal(g.regions)),
        ("same_regions"@, decimal(g.matching_regions)),
        ("same_regions_length"@, decimal(g.matching_length)),
        ("same_regions_length_percent"@, ratio),
        ("missing_chromosomes"@, decimal(g.missing_chromosomes)),
        ("missing_regions"@, decimal(g.missing_regions)),
        ("missing_chromosomes_file_1"@, comma_ended(g.missing_from_first)),
        ("missing_chromosomes_file_2"@, comma_ended(g.missing_from_second)),
    ]
}

/// The lines of the plain report on a result. `percent` is the text that
/// stands for the matching length in hundredths of the covered length.
pub open spec fn report_lines(g: GenomeSpec, percent: Seq<char>) -> Seq<Seq<char>> {
    seq![
        "Assumed genome length: "@ + decimal(g.genome_length),
        "Length of geneome in bed files regions: "@ + decimal(g.covered_length),
        "Total number of regions: "@ + decimal(g.regions),
        "Number of same regions: "@ + decimal(g.matching_regions),
        "Length of same regions: "@ + decimal(g.matching_length),
        "Percent of same bp regions: "@ + percent + "%"@,
        "Chromosomes missing from one of the files: "@ + decimal(g.missing_chromosomes),
        "Number of regions missing from files: "@ + decimal(g.missing_regions),
    ]
}

fn pair(key: &str, value: String) -> (p: (String, String))
    ensures
        p.0@ == key@,
        p.1@ == value@,
{
    (String::from_str(key), value)
}

fn labelled(label: &str, value: &str) -> (line: String)
    ensures
        line@ == label@ + value@,
{
    let mut line = String::from_str(label);
    line.append(value);
    line
}

/// The keys and values of the structured record of `result`, with
/// `ratio` as the value of the share of matching length.
pub fn record_fields(result: &GenomeResult, ratio: &str) -> (fields: Vec<(String, String)>)
    ensures
        pairs(fields@) == record_pairs(result@, ratio@),
{
    let mut fields: Vec<(String, String)> = Vec::new();
    fields.push(pair("genome_length", decimal_text(result.genome_length)));
    fields.push(pair("bed_regions_length", decimal_text(result.covered_length)));
    fields.push(pair("bed_number_of_regions", decimal_text(result.regions)));
    fields.push(pair("same_regions", decimal_text(result.matching_regions)));
    fields.push(pair("same_regions_length", decimal_text(result.matching_length)));
    fields.push(pair("same_regions_length_percent", String::from_str(ratio)));
    fields.push(pair("missing_chromosomes", decimal_text(result.missing_chromosomes)));
    fields.push(pair("missing_regions", decimal_text(result.missing_regions)));
    fields.push(pair("missing_chromosomes_file_1", comma_ended_text(&result.missing_from_first)));
    fields.push(pair("missing_chromosomes_file_2", comma_ended_text(&result.missing_from_second)));
    assert(pairs(fields@) =~= record_pairs(result@, ratio@));
    fields
}

/// The lines of the plain report on `result`, with `percent` as the
/// text of the percentage.
pub fn report_text(result: &GenomeResult, percent: &str) -> (lines: Vec<String>)
    ensures
        crate::genome::texts(lines@) == report_lines(result@, percent@),
{
    let mut lines: Vec<String> = Vec::new();
    lines.push(labelled("Assumed genome length: ", decimal_text(result.genome_length).as_str()));
    lines.push(labelled("Length of geneome in bed files regions: ", decimal_text(result.covered_length).as_str()));
    lines.push(labelled("Total number of regions: ", decimal_text(result.regions).as_str()));
    lines.push(labelled("Number of same regions: ", decimal_text(result.matching_regions).as_str()));
    lines.push(labelled("Length of same regions: ", decimal_text(result.matching_length).as_str()));
    let mut share = labelled("Percent of same bp regions: ", percent);
    share.append("%");
    lines.push(share);
    lines.push(labelled("Chromosomes missing from one of the files: ", decimal_text(result.missing_chromosomes).as_str()));
    lines.push(labelled("Number of regions missing from files: ", decimal_text(result.missing_regions).as_str()));
    assert(crate::genome::texts(lines@) =~= report_lines(result@, percent@));
    lines
}

/// Why no structured record was written.
#[derive(Debug, Clone, Copy, PartialEq, Eq, Structural)]
pub enum ReportError {
    /// The encoder gave the record up.
    NotEncoded,
}

/// The error of `serde_json`, carried from the encoder to [`encoded`] unopened.
#[verifier::external_type_specification]
#[verifier::external_body]
pub struct ExJsonError(serde_json::Error);

/// The JSON text that `serde_json` writes for the object whose members
/// are the given keys and values, all of them strings.
pub uninterp spec fn json_object(members: Seq<(Seq<char>, Seq<char>)>) -> Seq<char>;

/// `serde_json::to_string` on a map of strings to strings, which orders
/// its members by key and keeps the last of two members with one key.
/// The encoder names two causes of failure, a value whose `Serialize`
/// fails and a map key that is no string; neither arises for strings
/// written to memory, so the call succeeds. The text depends on the keys
/// and values alone: it is the one that [`json_object`] names.
#[verifier::external_body]
fn encode_object(fields: &Vec<(String, String)>) -> (out: Result<String, serde_json::Error>)
    ensures
        out is Ok,
        out matches Ok(text) ==> text@ == json_object(pairs(fields@)),
{
    let members: std::collections::BTreeMap<&str, &str> = fields.iter().map(
        |f| (f.0.as_str(), f.1.as_str()),
    ).collect();
    serde_json::to_string(&members)
}

/// What the encoder's answer means for the caller: its text, or that
/// none was written.
pub fn encoded(outcome: Result<String, serde_json::Error>) -> (text: Result<String, ReportError>)
    ensures
        match outcome {
            Ok(t) => text == Ok::<String, ReportError>(t),
            Err(_) => text == Err::<String, ReportError>(ReportError::NotEncoded),
        },
{
    match outcome {
        Ok(t) => Ok(t),
        Err(_) => Err(ReportError::NotEncoded),
    }
}

/// The structured record of `result` as JSON text: one object whose
/// members are the fields of [`record_fields`]. It is always written.
pub fn structured_record(result: &GenomeResult, ratio: &str) -> (text: Result<String, ReportError>)
    ensures
        text matches Ok(t) && t@ == json_object(record_pairs(result@, ratio@)),
{
    let fields = record_fields(result, ratio);
    encoded(encode_object(&fields))
}

} // verus!
