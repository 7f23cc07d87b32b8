use emoji_chat_stat::chart::{
    chart_ceiling, find_max, hour_chart_file, max_count, merge_layout, weekday_chart_file, weekday_label,
};
use emoji_chat_stat::chat::{extract_time, normalize, parse_lines, process_input, process_line, search_marker, split_line};
use emoji_chat_stat::tally::{parse_hour, tally_csv, tally_rows, TallyError, Tallies};

fn lines(v: &[&str]) -> Vec<String> {
    v.iter().map(|s| s.to_string()).collect()
}

fn sender<'a>(t: &'a Tallies, name: &str) -> &'a emoji_chat_stat::tally::SenderTally {
    t.senders.iter().find(|s| s.name == name).expect("sender present")
}

#[test]
fn example_row_for_marked_line() {
    let out = process_input(&lines(&["01/02/23, 14:05 - Alice: hi 💩"]), "💩", false);
    assert_eq!(out, "Date,Hour,Name\n01/02/23,14:05,Alice\n");
}

#[test]
fn header_only_when_nothing_matches() {
    let out = process_input(&lines(&["01/02/23, 14:05 - Alice: hi", "garbage line"]), "💩", false);
    assert_eq!(out, "Date,Hour,Name\n");
}

#[test]
fn one_row_per_marked_line() {
    let input = lines(&[
        "01/02/23, 14:05 - Alice: hi 💩",
        "01/02/23, 14:06 - Bob: nothing here",
        "01/02/23, 14:07 - Bob: 💩💩 twice on one line",
        "not a message 💩",
    ]);
    let recs = parse_lines(&input, "💩", false);
    assert_eq!(recs.len(), 2);
    assert_eq!(recs[0].name, "Alice");
    assert_eq!(recs[1].name, "Bob");
    assert_eq!(recs[1].time, "14:07");
}

#[test]
fn malformed_lines_are_skipped() {
    assert!(process_line("01/02/23 14:05 - Alice: 💩", "💩", false).is_none());
    assert!(process_line("01/02/23, 14:05 Alice: 💩", "💩", false).is_none());
    assert!(process_line("01/02/23, 14:05 - Alice 💩", "💩", false).is_none());
    assert!(process_line("", "💩", false).is_none());
}

#[test]
fn bracketed_layout_is_read() {
    assert_eq!(normalize("[01/02/23, 14:05:33] Alice: hi 💩"), "01/02/23, 14:05:33 - Alice: hi 💩");
    assert_eq!(normalize("[no close"), "no close");
    assert_eq!(normalize("plain"), "plain");
    let rec = process_line("[01/02/23, 14:05:33] Alice: hi 💩", "💩", false).unwrap();
    assert_eq!(rec.date, "01/02/23");
    assert_eq!(rec.time, "14:05");
    assert_eq!(rec.name, "Alice");
}

#[test]
fn split_line_fields() {
    let p = split_line("01/02/23, 14:05 - Alice: a: b - c, d").unwrap();
    assert_eq!(p.date, "01/02/23");
    assert_eq!(p.hour, "14:05");
    assert_eq!(p.name, "Alice");
    assert_eq!(p.text, "a: b - c, d");
    assert!(split_line("no delimiters").is_none());
}

#[test]
fn time_comes_from_timestamp() {
    let rec = process_line("01/02/23, 14:05 - Bob: see you at 9:30 💩", "💩", false).unwrap();
    assert_eq!(rec.time, "14:05");
    let rec = process_line("01/02/23, 9:05 am - Bob: 💩 at 23:59", "💩", false).unwrap();
    assert_eq!(rec.time, "9:05");
    let rec = process_line("01/02/23, noon - Bob: 💩 at 23:59", "💩", false).unwrap();
    assert_eq!(rec.time, "noon");
    let out = process_input(&lines(&["01/02/23, 14:05 - Alice: see you at 9:30 💩"]), "💩", false);
    assert_eq!(out, "Date,Hour,Name\n01/02/23,14:05,Alice\n");
}

#[test]
fn case_insensitive_search() {
    let marker = search_marker("HeLLo", true);
    assert_eq!(marker, "hello");
    assert_eq!(search_marker("HeLLo", false), "HeLLo");
    assert!(process_line("01/02/23, 14:05 - Alice: HELLO there", &marker, true).is_some());
    assert!(process_line("01/02/23, 14:05 - Alice: HELLO there", "hello", false).is_none());
    assert!(process_line("01/02/23, 14:05 - Alice: HELLO there", "HELLO", false).is_some());
}

#[test]
fn hour_field_parsing() {
    assert_eq!(parse_hour("14:05"), Some(14));
    assert_eq!(parse_hour("0:00"), Some(0));
    assert_eq!(parse_hour("23:59"), Some(23));
    assert_eq!(parse_hour("007"), Some(7));
    assert_eq!(parse_hour("+7:00"), Some(7));
    assert_eq!(parse_hour("24:00"), None);
    assert_eq!(parse_hour("99999999999999999999999:00"), None);
    assert_eq!(parse_hour("-1:00"), None);
    assert_eq!(parse_hour("+:00"), None);
    assert_eq!(parse_hour(":00"), None);
    assert_eq!(parse_hour(""), None);
    assert_eq!(parse_hour("1a:00"), None);
}

#[test]
fn two_senders_exact_tallies() {
    let csv = "Date,Hour,Name\n01/02/23,14:05,Alice\n04/02/23,14:30,Alice\n01/02/23,09:00,Bob\n05/02/23,23:10,Alice\n";
    let t = tally_csv(csv).unwrap();
    assert_eq!(t.senders.len(), 2);
    assert_eq!(t.senders[0].name, "Alice");
    assert_eq!(t.senders[1].name, "Bob");
    let alice = sender(&t, "Alice");
    let mut hours = vec![0usize; 24];
    hours[14] = 2;
    hours[23] = 1;
    assert_eq!(alice.hours, hours);
    // 1 Feb 2023 is a Wednesday, 4 Feb a Saturday, 5 Feb a Sunday.
    assert_eq!(alice.weekdays, vec![0, 0, 1, 0, 0, 1, 1]);
    let bob = sender(&t, "Bob");
    let mut hours = vec![0usize; 24];
    hours[9] = 1;
    assert_eq!(bob.hours, hours);
    assert_eq!(bob.weekdays, vec![0, 0, 1, 0, 0, 0, 0]);
}

#[test]
fn weekdays_across_years() {
    // 29/02/24 is a Thursday; 31/12/99 (1999) a Friday; 01/01/00 (2000) a Saturday.
    let csv = "Date,Hour,Name\n29/02/24,10:00,A\n31/12/99,10:00,A\n01/01/00,10:00,A\n";
    let t = tally_csv(csv).unwrap();
    assert_eq!(t.senders[0].weekdays, vec![0, 0, 0, 1, 1, 1, 0]);
    assert_eq!(t.senders[0].hours[10], 3);
}

#[test]
fn empty_csv_has_no_senders() {
    let t = tally_csv("Date,Hour,Name\n").unwrap();
    assert!(t.senders.is_empty());
    let t = tally_csv("").unwrap();
    assert!(t.senders.is_empty());
}

#[test]
fn tally_errors() {
    assert_eq!(tally_csv("Date,Hour\n01/02/23,14:05\n").err(), Some(TallyError::MissingField));
    assert_eq!(tally_csv("Date,Hour,Name\n01/02/23,x:05,A\n").err(), Some(TallyError::BadHour));
    assert_eq!(tally_csv("Date,Hour,Name\n01/02/23,24:05,A\n").err(), Some(TallyError::BadHour));
    assert_eq!(tally_csv("Date,Hour,Name\n2023-02-01,14:05,A\n").err(), Some(TallyError::BadDate));
    assert_eq!(tally_csv("Date,Hour,Name\n31/02/23,14:05,A\n").err(), Some(TallyError::BadDate));
    assert_eq!(tally_csv("Date,Hour,Name\n01/02/23,14:05\n").err(), Some(TallyError::Csv));
}

#[test]
fn first_error_wins() {
    let rows = vec![
        vec!["01/02/23".to_string(), "x".to_string(), "A".to_string()],
        vec!["bad".to_string(), "10:00".to_string(), "A".to_string()],
    ];
    assert_eq!(tally_rows(&rows).err(), Some(TallyError::BadHour));
}

#[test]
fn round_trip_through_csv() {
    let input = lines(&[
        "01/02/23, 14:05 - Alice: hi 💩",
        "01/02/23, 15:00 - Bob: no",
        "04/02/23, 09:15 - Bob: 💩",
        "[04/02/23, 09:45:00] Alice: 💩 again",
        "04/02/23, 10:00 - Alice: at 8:05 💩",
    ]);
    let csv = process_input(&input, "💩", false);
    let t = tally_csv(&csv).unwrap();
    let alice = sender(&t, "Alice");
    assert_eq!(alice.hours[14], 1);
    assert_eq!(alice.hours[9], 1);
    assert_eq!(alice.hours[10], 1);
    assert_eq!(alice.hours[8], 0);
    assert_eq!(alice.hours.iter().sum::<usize>(), 3);
    assert_eq!(alice.weekdays, vec![0, 0, 1, 0, 0, 2, 0]);
    let bob = sender(&t, "Bob");
    assert_eq!(bob.hours[9], 1);
    assert_eq!(bob.hours.iter().sum::<usize>(), 1);
    assert_eq!(bob.weekdays, vec![0, 0, 0, 0, 0, 1, 0]);
}

#[test]
fn shared_maxima() {
    let t = tally_csv("Date,Hour,Name\n01/02/23,14:05,A\n01/02/23,14:06,A\n04/02/23,9:00,B\n").unwrap();
    assert_eq!(find_max(false, &t), (None, None));
    assert_eq!(find_max(true, &t), (Some(2), Some(2)));
    assert_eq!(find_max(true, &Tallies::new()), (Some(0), Some(0)));
}

#[test]
fn chart_scale_and_labels() {
    assert_eq!(max_count(&vec![]), 0);
    assert_eq!(max_count(&vec![3, 9, 2]), 9);
    assert_eq!(chart_ceiling(&vec![3, 9, 2], None), 9);
    assert_eq!(chart_ceiling(&vec![3, 9, 2], Some(20)), 20);
    assert_eq!(weekday_label(0), "Mon");
    assert_eq!(weekday_label(6), "Sun");
    assert_eq!(weekday_label(7), "");
    assert_eq!(hour_chart_file("Alice"), "Alice-by-hour.png");
    assert_eq!(weekday_chart_file("Alice"), "Alice-by-weekday.png");
}

#[test]
fn combined_layout() {
    let (w, offs) = merge_layout(640, 3).unwrap();
    assert_eq!(w, 650 * 3 + 10);
    assert_eq!(offs, vec![0, 650, 1300]);
    assert_eq!(merge_layout(640, 0).unwrap(), (10, vec![]));
    assert!(merge_layout(u32::MAX, 1).is_none());
    assert!(merge_layout(u32::MAX / 2, 3).is_none());
}

#[test]
fn time_extraction_is_leftmost() {
    assert_eq!(extract_time("see you at 9:30"), Some("9:30".to_string()));
    assert_eq!(extract_time("123:45"), Some("23:45".to_string()));
    assert_eq!(extract_time("25:61 or 7:5"), None);
    assert_eq!(extract_time("no time here"), None);
    assert_eq!(extract_time(""), None);
}
