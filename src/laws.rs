//! Properties that relate the parser and the tallies.
use vstd::prelude::*;
use crate::chat::{RecordView, line_parts, is_marked, line_record, record_of_parts, records_of_lines, time_in_text};
use crate::external::date_of_text;
use crate::tally::{Event, TallyError, events_of, event_of_row, hour_of_field, date_format, weekday_of, hour_tally, weekday_tally};

verus! {

/// Every tallied event has an hour from 0 to 23 and a weekday from Monday
/// (0) to Sunday (6).
pub proof fn law_events_in_range(rows: Seq<Seq<Seq<char>>>)
    ensures
        events_of(rows) matches Ok(es) ==> forall|i: int| 0 <= i < es.len()
            ==> (#[trigger] es[i]).hour < 24 && es[i].weekday < 7,
    decreases rows.len(),
{
    if rows.len() > 0 {
        law_events_in_range(rows.drop_last());
    }
}

/// The records can be tallied exactly when each of them can be read: it has
/// three fields, an hour from 0 to 23 in its time field and a `DD/MM/YY`
/// date; then there is one event per record, in record order.
pub proof fn law_tally_succeeds_iff_rows_read(rows: Seq<Seq<Seq<char>>>)
    ensures
        events_of(rows) is Ok <==> forall|i: int| 0 <= i < rows.len() ==> (#[trigger] event_of_row(rows[i])) is Ok,
        events_of(rows) matches Ok(es) ==> es.len() == rows.len() && forall|i: int| 0 <= i < rows.len()
            ==> event_of_row(rows[i]) == Ok::<Event, TallyError>(#[trigger] es[i]),
    decreases rows.len(),
{
    if rows.len() > 0 {
        let prev = rows.drop_last();
        law_tally_succeeds_iff_rows_read(prev);
        assert forall|i: int| 0 <= i < prev.len() implies prev[i] == rows[i] by {}
        if events_of(rows) is Ok {
            let es = events_of(rows)->Ok_0;
            let es0 = events_of(prev)->Ok_0;
            assert forall|i: int| 0 <= i < rows.len() implies event_of_row(rows[i]) == Ok::<Event, TallyError>(#[trigger] es[i]) by {
                if i < prev.len() {
                    assert(event_of_row(prev[i]) == Ok::<Event, TallyError>(es0[i]));
                }
            }
        }
        if forall|i: int| 0 <= i < rows.len() ==> (#[trigger] event_of_row(rows[i])) is Ok {
            assert forall|i: int| 0 <= i < prev.len() implies (#[trigger] event_of_row(prev[i])) is Ok by {
                assert(event_of_row(rows[i]) is Ok);
            }
            assert(event_of_row(rows[rows.len() - 1]) is Ok);
        }
        if events_of(rows) is Ok {
            assert forall|i: int| 0 <= i < rows.len() implies (#[trigger] event_of_row(rows[i])) is Ok by {
                if i < prev.len() {
                    assert(event_of_row(prev[i]) is Ok);
                }
            }
        }
    }
}

/// A line that is well formed and holds the marker adds exactly one row,
/// its own record; any other line adds none.
pub proof fn law_one_row_per_marked_line(lines: Seq<Seq<char>>, line: Seq<char>, marker: Seq<char>, ci: bool)
    ensures
        records_of_lines(lines.push(line), marker, ci) == (match line_parts(line) {
            Some(p) => if is_marked(p.text, marker, ci) {
                records_of_lines(lines, marker, ci).push(record_of_parts(p, time_in_text(p.hour)))
            } else {
                records_of_lines(lines, marker, ci)
            },
            None => records_of_lines(lines, marker, ci),
        }),
{
    assert(lines.push(line).drop_last() =~= lines);
}

/// The CSV records that a sequence of parsed records is written as.
pub open spec fn rows_of_records(rs: Seq<RecordView>) -> Seq<Seq<Seq<char>>> {
    rs.map_values(|r: RecordView| seq![r.date, r.time, r.name])
}

/// The event that a parsed record stands for, if its time and date can be read.
pub open spec fn record_event(r: RecordView) -> Option<Event> {
    match (hour_of_field(r.time), date_of_text(r.date, date_format())) {
        (Some(h), Some((y, m, d))) => Some(Event { name: r.name, hour: h, weekday: weekday_of(y, m, d) as nat }),
        _ => None,
    }
}

/// How many lines hold a marked message of `name` sent in hour `h`,
/// counted on the lines themselves.
pub open spec fn lines_hour_count(lines: Seq<Seq<char>>, marker: Seq<char>, ci: bool, name: Seq<char>, h: nat) -> nat
    decreases lines.len(),
{
    if lines.len() == 0 {
        0
    } else {
        lines_hour_count(lines.drop_last(), marker, ci, name, h) + match line_record(lines.last(), marker, ci) {
            Some(r) => match record_event(r) {
                Some(ev) => if ev.name == name && ev.hour == h { 1nat } else { 0 },
                None => 0,
            },
            None => 0,
        }
    }
}

/// How many lines hold a marked message of `name` sent on weekday `w`,
/// counted on the lines themselves.
pub open spec fn lines_weekday_count(lines: Seq<Seq<char>>, marker: Seq<char>, ci: bool, name: Seq<char>, w: nat) -> nat
    decreases lines.len(),
{
    if lines.len() == 0 {
        0
    } else {
        lines_weekday_count(lines.drop_last(), marker, ci, name, w) + match line_record(lines.last(), marker, ci) {
            Some(r) => match record_event(r) {
                Some(ev) => if ev.name == name && ev.weekday == w { 1nat } else { 0 },
                None => 0,
            },
            None => 0,
        }
    }
}

/// Round trip: the records that the parser emits, read back by the tallies,
/// give for every sender, hour and weekday the counts taken directly on the
/// input lines (whenever every emitted record can be read back).
pub proof fn law_round_trip(lines: Seq<Seq<char>>, marker: Seq<char>, ci: bool)
    ensures
        events_of(rows_of_records(records_of_lines(lines, marker, ci))) matches Ok(es) ==> (
            forall|name: Seq<char>, h: nat| #[trigger] hour_tally(es, name, h) == lines_hour_count(lines, marker, ci, name, h))
            && (forall|name: Seq<char>, w: nat| #[trigger] weekday_tally(es, name, w) == lines_weekday_count(lines, marker, ci, name, w)),
    decreases lines.len(),
{
    if lines.len() > 0 {
        let prev = lines.drop_last();
        law_round_trip(prev, marker, ci);
        let rs0 = records_of_lines(prev, marker, ci);
        let rows0 = rows_of_records(rs0);
        match line_record(lines.last(), marker, ci) {
            Some(r) => {
                let rows1 = rows_of_records(rs0.push(r));
                let row = seq![r.date, r.time, r.name];
                assert(rows1 =~= rows0.push(row));
                assert(rows1.drop_last() =~= rows0);
                if let Ok(es) = events_of(rows1) {
                    let es0 = events_of(rows0)->Ok_0;
                    let ev = event_of_row(row)->Ok_0;
                    assert(es == es0.push(ev));
                    assert(es.drop_last() =~= es0);
                    assert(record_event(r) == Some(ev));
                    assert forall|name: Seq<char>, h: nat| #[trigger] hour_tally(es, name, h)
                        == lines_hour_count(lines, marker, ci, name, h) by {
                        assert(hour_tally(es0, name, h) == lines_hour_count(prev, marker, ci, name, h));
                    }
                    assert forall|name: Seq<char>, w: nat| #[trigger] weekday_tally(es, name, w)
                        == lines_weekday_count(lines, marker, ci, name, w) by {
                        assert(weekday_tally(es0, name, w) == lines_weekday_count(prev, marker, ci, name, w));
                    }
                }
            },
            None => {
                if let Ok(es) = events_of(rows0) {
                    assert forall|name: Seq<char>, h: nat| #[trigger] hour_tally(es, name, h)
                        == lines_hour_count(lines, marker, ci, name, h) by {
                        assert(hour_tally(es, name, h) == lines_hour_count(prev, marker, ci, name, h));
                    }
                    assert forall|name: Seq<char>, w: nat| #[trigger] weekday_tally(es, name, w)
                        == lines_weekday_count(lines, marker, ci, name, w) by {
                        assert(weekday_tally(es, name, w) == lines_weekday_count(prev, marker, ci, name, w));
                    }
                }
            },
        }
    }
}

} // verus!
