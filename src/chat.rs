//! Parsing chat-export lines into `Date,Hour,Name` records.
use vstd::prelude::*;
use vstd::string::*;
use crate::external::{lower_of, regex_match_of, lowercase, first_match};
use crate::text::{chars_of, find, contains, contains_seq, first_occurrence};

verus! {

/// One output row: the message's date, its time and its sender.
pub struct Record {
    pub date: String,
    pub time: String,
    pub name: String,
}

/// The characters of a `Record`.
pub struct RecordView {
    pub date: Seq<char>,
    pub time: Seq<char>,
    pub name: Seq<char>,
}

impl View for Record {
    type V = RecordView;

    open spec fn view(&self) -> RecordView {
        RecordView { date: self.date@, time: self.time@, name: self.name@ }
    }
}

/// The four fields of a message line: `DATE, HOUR - NAME: TEXT`.
pub struct LineParts {
    pub date: String,
    pub hour: String,
    pub name: String,
    pub text: String,
}

/// The characters of a `LineParts`.
pub struct LinePartsView {
    pub date: Seq<char>,
    pub hour: Seq<char>,
    pub name: Seq<char>,
    pub text: Seq<char>,
}

impl View for LineParts {
    type V = LinePartsView;

    open spec fn view(&self) -> LinePartsView {
        LinePartsView { date: self.date@, hour: self.hour@, name: self.name@, text: self.text@ }
    }
}

/// `s` with the first occurrence of `pat` replaced by `with`.
pub open spec fn replace_first(s: Seq<char>, pat: Seq<char>, with: Seq<char>) -> Seq<char> {
    match first_occurrence(s, pat) {
        Some(i) => s.take(i) + with + s.skip(i + pat.len()),
        None => s,
    }
}

/// A bracketed line `[TIME] REST` read as `TIME - REST`; other lines unchanged.
pub open spec fn normalized(line: Seq<char>) -> Seq<char> {
    if line.len() > 0 && line[0] == '[' {
        replace_first(line.drop_first(), seq![']'], seq![' ', '-'])
    } else {
        line
    }
}

/// The text before and after the first occurrence of `pat`.
pub open spec fn split_first(s: Seq<char>, pat: Seq<char>) -> Option<(Seq<char>, Seq<char>)> {
    match first_occurrence(s, pat) {
        Some(i) => Some((s.take(i), s.skip(i + pat.len()))),
        None => None,
    }
}

/// The fields of a line, or `None` when a delimiter is missing.
pub open spec fn line_parts(line: Seq<char>) -> Option<LinePartsView> {
    match split_first(normalized(line), seq![',', ' ']) {
        None => None,
        Some((date, rest)) => match split_first(rest, seq![' ', '-', ' ']) {
            None => None,
            Some((hour, rest)) => match split_first(rest, seq![':', ' ']) {
                None => None,
                Some((name, text)) => Some(LinePartsView { date, hour, name, text }),
            },
        },
    }
}

/// The message text holds the marker (compared with the lowercase text when
/// `ci` is set; the marker is then expected in lowercase already).
pub open spec fn is_marked(text: Seq<char>, marker: Seq<char>, ci: bool) -> bool {
    contains_seq(if ci { lower_of(text) } else { text }, marker)
}

/// The pattern of a time of day written in a message: `H:MM` or `HH:MM`.
pub open spec fn time_pattern() -> Seq<char> {
    "([0-9]|[01]\\d|2[0-3]):([0-5]\\d)"@
}

/// The first `H:MM` / `HH:MM` time of day in a text, if any.
pub open spec fn time_in_text(text: Seq<char>) -> Option<Seq<char>> {
    match regex_match_of(time_pattern(), text) {
        Some(found) => found,
        None => None,
    }
}

/// The first `H:MM` / `HH:MM` time of day in a text, if any.
pub fn extract_time(text: &str) -> (r: Option<String>)
    ensures
        r matches Some(t) ==> time_in_text(text@) == Some(t@),
        r is None ==> time_in_text(text@) is None,
{
    match first_match("([0-9]|[01]\\d|2[0-3]):([0-5]\\d)", text) {
        Ok(found) => found,
        Err(_) => None,
    }
}

/// The record of a line's fields, given the time found in its timestamp
/// field: that time when there is one, else the field as it stands.
pub open spec fn record_of_parts(p: LinePartsView, found: Option<Seq<char>>) -> RecordView {
    RecordView {
        date: p.date,
        time: match found {
            Some(t) => t,
            None => p.hour,
        },
        name: p.name,
    }
}

/// The record a line yields, if it is well formed and marked.
pub open spec fn line_record(line: Seq<char>, marker: Seq<char>, ci: bool) -> Option<RecordView> {
    match line_parts(line) {
        Some(p) => if is_marked(p.text, marker, ci) {
            Some(record_of_parts(p, time_in_text(p.hour)))
        } else {
            None
        },
        None => None,
    }
}

/// The records of a sequence of lines, in line order.
pub open spec fn records_of_lines(lines: Seq<Seq<char>>, marker: Seq<char>, ci: bool) -> Seq<RecordView>
    decreases lines.len(),
{
    if lines.len() == 0 {
        seq![]
    } else {
        let prev = records_of_lines(lines.drop_last(), marker, ci);
        match line_record(lines.last(), marker, ci) {
            Some(r) => prev.push(r),
            None => prev,
        }
    }
}

/// The CSV row of a record.
pub open spec fn row_text(r: RecordView) -> Seq<char> {
    r.date + seq![','] + r.time + seq![','] + r.name + seq!['\n']
}

/// The CSV rows of a sequence of records.
pub open spec fn rows_text(rs: Seq<RecordView>) -> Seq<char>
    decreases rs.len(),
{
    if rs.len() == 0 {
        seq![]
    } else {
        rows_text(rs.drop_last()) + row_text(rs.last())
    }
}

/// The header row of the CSV output.
pub open spec fn csv_header() -> Seq<char> {
    seq!['D', 'a', 't', 'e', ',', 'H', 'o', 'u', 'r', ',', 'N', 'a', 'm', 'e', '\n']
}

/// Splits `s` at the first occurrence of `pat`.
fn split_once(s: &str, pat: &Vec<char>) -> (r: Option<(String, String)>)
    ensures
        r matches Some((a, b)) ==> split_first(s@, pat@) == Some((a@, b@)),
        r is None ==> split_first(s@, pat@) is None,
{
    let cs = chars_of(s);
    let n: usize = cs.len();
    match find(&cs, pat) {
        Some(i) => {
            proof {
                crate::text::lemma_first_occurrence(s@, pat@);
                assert(crate::text::occurs_at(s@, pat@, i as int));
                assert(i + pat@.len() <= cs@.len());
            }
            let a = String::from_str(s.substring_char(0, i));
            let b = String::from_str(s.substring_char(i + pat.len(), n));
            Some((a, b))
        },
        None => None,
    }
}

/// The line with a leading bracketed time turned into the plain layout.
pub fn normalize(line: &str) -> (r: String)
    ensures
        r@ == normalized(line@),
{
    let cs = chars_of(line);
    if cs.len() > 0 && cs[0] == '[' {
        let tail = line.substring_char(1, cs.len());
        assert(tail@ == line@.drop_first());
        let tcs = chars_of(tail);
        let close = vec![']'];
        match find(&tcs, &close) {
            Some(i) => {
                proof {
                    crate::text::lemma_first_occurrence(tail@, close@);
                    assert(close@ =~= seq![']']);
                }
                let mut r = String::from_str(tail.substring_char(0, i));
                r.append(" -");
                r.append(tail.substring_char(i + 1, tcs.len()));
                proof {
                    reveal_strlit(" -");
                    assert(r@ =~= normalized(line@));
                }
                r
            },
            None => {
                assert(close@ =~= seq![']']);
                String::from_str(tail)
            },
        }
    } else {
        String::from_str(line)
    }
}

/// Splits a line into date, hour, sender and message text.
pub fn split_line(line: &str) -> (r: Option<LineParts>)
    ensures
        r matches Some(p) ==> line_parts(line@) == Some(p@),
        r is None ==> line_parts(line@) is None,
{
    let norm = normalize(line);
    let (date, rest) = match split_once(norm.as_str(), &vec![',', ' ']) {
        Some(split) => split,
        None => return None,
    };
    let (hour, rest) = match split_once(rest.as_str(), &vec![' ', '-', ' ']) {
        Some(split) => split,
        None => return None,
    };
    let (name, text) = match split_once(rest.as_str(), &vec![':', ' ']) {
        Some(split) => split,
        None => return None,
    };
    Some(LineParts { date, hour, name, text })
}

/// Whether `text` holds `marker`.
pub fn text_contains(text: &str, marker: &str) -> (r: bool)
    ensures
        r == contains_seq(text@, marker@),
{
    contains(&chars_of(text), &chars_of(marker))
}

/// The marker as it is searched for: lowercased when the search ignores case.
pub fn search_marker(marker: &str, ci: bool) -> (r: String)
    ensures
        r@ == (if ci { lower_of(marker@) } else { marker@ }),
{
    if ci {
        lowercase(marker)
    } else {
        String::from_str(marker)
    }
}

/// The record of a line's fields, given the time found in its timestamp field (if any).
pub fn record_of(parts: LineParts, found_time: Option<String>) -> (r: Record)
    ensures
        r@ == record_of_parts(parts@, match found_time {
            Some(t) => Some(t@),
            None => None,
        }),
{
    let time = match found_time {
        Some(t) => t,
        None => parts.hour,
    };
    Record { date: parts.date, time, name: parts.name }
}

/// The record of one chat line, when it is well formed and holds the marker.
pub fn process_line(line: &str, marker: &str, ci: bool) -> (r: Option<Record>)
    ensures
        r matches Some(rec) ==> line_record(line@, marker@, ci) == Some(rec@),
        r is None ==> line_record(line@, marker@, ci) is None,
{
    let parts = match split_line(line) {
        Some(p) => p,
        None => return None,
    };
    let marked = if ci {
        let lower = lowercase(parts.text.as_str());
        text_contains(lower.as_str(), marker)
    } else {
        text_contains(parts.text.as_str(), marker)
    };
    if marked {
        let found = extract_time(parts.hour.as_str());
        Some(record_of(parts, found))
    } else {
        None
    }
}

/// The records of all lines, in line order.
pub fn parse_lines(lines: &Vec<String>, marker: &str, ci: bool) -> (r: Vec<Record>)
    ensures
        r@.map_values(|x: Record| x@) == records_of_lines(lines.deep_view(), marker@, ci),
{
    let mut out: Vec<Record> = Vec::new();
    let mut i: usize = 0;
    while i < lines.len()
        invariant
            i <= lines@.len(),
            out@.map_values(|x: Record| x@) == records_of_lines(lines.deep_view().take(i as int), marker@, ci),
        decreases lines@.len() - i,
    {
        proof {
            assert(lines.deep_view().take(i as int + 1).drop_last() =~= lines.deep_view().take(i as int));
        }
        match process_line(lines[i].as_str(), marker, ci) {
            Some(rec) => {
                out.push(rec);
            },
            None => {},
        }
        assert(out@.map_values(|x: Record| x@) =~= records_of_lines(lines.deep_view().take(i as int + 1), marker@, ci));
        i = i + 1;
    }
    assert(lines.deep_view().take(lines@.len() as int) =~= lines.deep_view());
    out
}

/// The CSV row of a record: `date,time,name` and a newline.
pub fn csv_row(rec: &Record) -> (r: String)
    ensures
        r@ == row_text(rec@),
{
    let mut r = String::from_str(rec.date.as_str());
    r.append(",");
    r.append(rec.time.as_str());
    r.append(",");
    r.append(rec.name.as_str());
    r.append("\n");
    proof {
        reveal_strlit(",");
        reveal_strlit("\n");
        assert(r@ =~= row_text(rec@));
    }
    r
}

/// The CSV text of the marked lines: a `Date,Hour,Name` header and one row
/// per record, in line order.
pub fn process_input(lines: &Vec<String>, emoji_searched: &str, is_case_insensitive: bool) -> (r: String)
    ensures
        r@ == csv_header() + rows_text(records_of_lines(lines.deep_view(), emoji_searched@, is_case_insensitive)),
{
    let records = parse_lines(lines, emoji_searched, is_case_insensitive);
    let ghost rs = records@.map_values(|x: Record| x@);
    let mut out = String::from_str("Date,Hour,Name\n");
    proof {
        reveal_strlit("Date,Hour,Name\n");
        assert(out@ =~= csv_header());
        assert(rs.take(0) =~= seq![]);
    }
    let mut i: usize = 0;
    while i < records.len()
        invariant
            i <= records@.len(),
            rs == records@.map_values(|x: Record| x@),
            out@ == csv_header() + rows_text(rs.take(i as int)),
        decreases records@.len() - i,
    {
        let row = csv_row(&records[i]);
        out.append(row.as_str());
        proof {
            assert(rs.take(i as int + 1).drop_last() =~= rs.take(i as int));
            assert(out@ =~= csv_header() + rows_text(rs.take(i as int + 1)));
        }
        i = i + 1;
    }
    assert(rs.take(records@.len() as int) =~= rs);
    out
}

} // verus!
