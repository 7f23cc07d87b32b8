//! Calls into std and outside crates whose results the library builds on.
use vstd::prelude::*;
use chrono::Datelike;
use crate::tally::Date;

verus! {

#[verifier::external_type_specification]
#[verifier::external_body]
pub struct ExCsvError(csv::Error);

#[verifier::external_type_specification]
#[verifier::external_body]
pub struct ExParseError(chrono::ParseError);

#[verifier::external_type_specification]
#[verifier::external_body]
pub struct ExRegexError(regex::Error);

/// The lowercase form of a text, as `str::to_lowercase` gives it.
pub uninterp spec fn lower_of(s: Seq<char>) -> Seq<char>;

/// Under a regular expression `pattern`, the text of its leftmost match in
/// `s` (`Some(None)` when there is none), or `None` when the pattern does not
/// compile.
pub uninterp spec fn regex_match_of(pattern: Seq<char>, s: Seq<char>) -> Option<Option<Seq<char>>>;

/// The records (header row left out) that a default CSV reader finds in a text.
pub uninterp spec fn csv_records_of(text: Seq<char>) -> Option<Seq<Seq<Seq<char>>>>;

/// Year, month and day that a date text denotes under a chrono format.
pub uninterp spec fn date_of_text(s: Seq<char>, fmt: Seq<char>) -> Option<(int, int, int)>;

/// Relies on `str::to_lowercase`: the result depends on the characters alone.
#[verifier::external_body]
pub(crate) fn lowercase(s: &str) -> (r: String)
    ensures
        r@ == lower_of(s@),
{
    s.to_lowercase()
}

/// Relies on `regex::Regex::new` to compile `pattern` and on
/// `Regex::captures` for the whole text of the leftmost match, if any.
#[verifier::external_body]
pub(crate) fn first_match(pattern: &str, s: &str) -> (r: Result<Option<String>, regex::Error>)
    ensures
        match r {
            Ok(Some(t)) => regex_match_of(pattern@, s@) == Some(Some(t@)),
            Ok(None) => regex_match_of(pattern@, s@) == Some(None::<Seq<char>>),
            Err(_) => regex_match_of(pattern@, s@) is None,
        },
{
    let re = regex::Regex::new(pattern)?;
    Ok(re.captures(s).map(|caps| caps[0].to_string()))
}

/// Relies on `csv::Reader::from_reader` and `Reader::records`: the reader
/// takes the first row as header and yields each further record's fields,
/// stopping at the first error.
#[verifier::external_body]
pub(crate) fn read_csv_records(text: &str) -> (r: Result<Vec<Vec<String>>, csv::Error>)
    ensures
        match r {
            Ok(rows) => csv_records_of(text@) == Some(rows.deep_view()),
            Err(_) => csv_records_of(text@) is None,
        },
{
    let mut reader = csv::Reader::from_reader(text.as_bytes());
    reader.records().map(|rec| rec.map(|fields| fields.iter().map(String::from).collect())).collect()
}

/// Relies on `chrono::NaiveDate::parse_from_str`, which yields a valid
/// proleptic Gregorian date, and on `Datelike` to read its year, month,
/// day and weekday (counted from Monday).
#[verifier::external_body]
pub(crate) fn parse_date(s: &str, fmt: &str) -> (r: Result<Date, chrono::ParseError>)
    ensures
        match r {
            Ok(d) => date_of_text(s@, fmt@) == Some((d.year as int, d.month as int, d.day as int))
                && d.wf(),
            Err(_) => date_of_text(s@, fmt@) is None,
        },
{
    let d = chrono::NaiveDate::parse_from_str(s, fmt)?;
    Ok(Date { year: d.year(), month: d.month(), day: d.day(), weekday: d.weekday().num_days_from_monday() })
}

} // verus!
