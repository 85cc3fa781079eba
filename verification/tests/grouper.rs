use activity_report::calendar::parse_timestamp;
use activity_report::entries::{read_records, records_from_rows, Record};
use activity_report::error::{ReportError, TimeField};
use activity_report::grouper::{group_by_day, group_by_day_at, group_records, ClippedSegment};
use activity_report::instant::Instant;
use activity_report::tags::split_tags;

fn secs(text: &str) -> i64 {
    parse_timestamp(text).unwrap().secs
}

fn noon() -> Instant {
    parse_timestamp("2024-07-10T12:00:00Z").unwrap()
}

fn july() -> (i64, i64) {
    (secs("2024-07-01T00:00:00Z"), secs("2024-08-01T00:00:00Z"))
}

fn strings(items: &[&str]) -> Vec<String> {
    items.iter().map(|s| s.to_string()).collect()
}

fn bounds(segments: &[ClippedSegment]) -> Vec<(i64, i64)> {
    segments.iter().map(|s| (s.start, s.end)).collect()
}

fn record(start: &str, end: &str, tags: &str, description: &str) -> Record {
    Record {
        start: start.to_string(),
        end: end.to_string(),
        tags: tags.to_string(),
        description: description.to_string(),
    }
}

#[test]
fn tags_are_split_on_single_spaces() {
    assert_eq!(split_tags("work"), strings(&["work"]));
    assert_eq!(split_tags("work rust review"), strings(&["work", "rust", "review"]));
    assert_eq!(split_tags(""), strings(&[""]));
    assert_eq!(split_tags("a  b"), strings(&["a", "", "b"]));
    assert_eq!(split_tags(" a"), strings(&["", "a"]));
    assert_eq!(split_tags("a "), strings(&["a", ""]));
    assert_eq!(split_tags(" "), strings(&["", ""]));
    assert_eq!(split_tags("caf\u{e9} \u{1f600}x"), strings(&["caf\u{e9}", "\u{1f600}x"]));
    assert_eq!(split_tags("a\tb"), strings(&["a\tb"]));
}

#[test]
fn tags_joined_by_spaces_give_the_field_back() {
    for field in ["", "a", "a b", " a  b ", "x y z", "   "] {
        let tags = split_tags(field);
        assert_eq!(tags.join(" "), field);
        assert!(tags.iter().all(|t| !t.contains(' ')));
        assert_eq!(tags.len(), field.matches(' ').count() + 1);
    }
}

#[test]
fn records_are_read_from_csv_without_header() {
    let data = "2024-07-03T08:00:00Z,2024-07-03T09:00:00Z,work rust,\"Review, then merge\"\n\
                2024-07-04T08:00:00Z,,idle,\n";
    let records = read_records(data).unwrap();
    assert_eq!(records.len(), 2);
    assert_eq!(records[0].start, "2024-07-03T08:00:00Z");
    assert_eq!(records[0].end, "2024-07-03T09:00:00Z");
    assert_eq!(records[0].tags, "work rust");
    assert_eq!(records[0].description, "Review, then merge");
    assert_eq!(records[1].end, "");
    assert_eq!(records[1].description, "");
}

#[test]
fn an_empty_log_has_no_records() {
    assert_eq!(read_records("").unwrap().len(), 0);
    let (ws, we) = july();
    assert_eq!(group_by_day_at("", ws, we, "UTC", noon()).unwrap().len(), 0);
}

#[test]
fn fields_after_the_fourth_are_ignored() {
    let records = read_records("a,b,c,d,e,f\n").unwrap();
    assert_eq!(records.len(), 1);
    assert_eq!(records[0].description, "d");
}

#[test]
fn a_short_row_fails_the_log() {
    match read_records("a,b,c\n") {
        Err(ReportError::MissingFields { row }) => assert_eq!(row, 0),
        other => panic!("{:?}", other),
    }
    let rows = vec![strings(&["a", "b", "c", "d"]), strings(&["a", "b"]), strings(&["a"])];
    match records_from_rows(&rows) {
        Err(ReportError::MissingFields { row }) => assert_eq!(row, 1),
        other => panic!("{:?}", other),
    }
}

#[test]
fn rows_of_unequal_length_are_malformed_csv() {
    match read_records("a,b,c,d\na,b,c,d,e\n") {
        Err(ReportError::Csv { message }) => assert!(!message.is_empty()),
        other => panic!("{:?}", other),
    }
}

#[test]
fn a_single_day_entry_gives_one_segment() {
    let (ws, we) = july();
    let data = "2024-07-03T08:00:00Z,2024-07-03T09:30:00Z,work rust,Review\n";
    let segments = group_by_day_at(data, ws, we, "UTC", noon()).unwrap();
    assert_eq!(segments.len(), 1);
    assert_eq!(segments[0].start, secs("2024-07-03T08:00:00Z"));
    assert_eq!(segments[0].end, secs("2024-07-03T09:30:00Z"));
    assert_eq!(segments[0].tags, strings(&["work", "rust"]));
    assert_eq!(segments[0].description, "Review");
}

#[test]
fn an_entry_over_several_days_gives_one_segment_a_day() {
    let (ws, we) = july();
    let data = "2024-07-03T17:05:30Z,2024-07-05T16:32:00Z,travel,Conference\n";
    let segments = group_by_day_at(data, ws, we, "UTC", noon()).unwrap();
    assert_eq!(
        bounds(&segments),
        vec![
            (secs("2024-07-03T17:05:30Z"), secs("2024-07-04T00:00:00Z")),
            (secs("2024-07-04T00:00:00Z"), secs("2024-07-05T00:00:00Z")),
            (secs("2024-07-05T00:00:00Z"), secs("2024-07-05T16:32:00Z")),
        ]
    );
    for segment in &segments {
        assert_eq!(segment.tags, strings(&["travel"]));
        assert_eq!(segment.description, "Conference");
    }
}

#[test]
fn segments_keep_the_order_of_the_log() {
    let (ws, we) = july();
    let data = "2024-07-09T08:00:00Z,2024-07-09T09:00:00Z,b,second day\n\
                2024-07-03T22:00:00Z,2024-07-04T02:00:00Z,a,first days\n";
    let segments = group_by_day_at(data, ws, we, "UTC", noon()).unwrap();
    let descriptions: Vec<&str> = segments.iter().map(|s| s.description.as_str()).collect();
    assert_eq!(descriptions, vec!["second day", "first days", "first days"]);
}

#[test]
fn segments_are_clamped_to_the_window() {
    let ws = secs("2024-07-03T12:00:00Z");
    let we = secs("2024-07-04T12:00:00Z");
    let data = "2024-07-03T10:00:00Z,2024-07-03T13:00:00Z,a,starts before\n\
                2024-07-04T11:00:00Z,2024-07-04T15:00:00Z,a,ends after\n\
                2024-07-03T23:00:00Z,2024-07-04T01:00:00Z,a,inside\n";
    let segments = group_by_day_at(data, ws, we, "UTC", noon()).unwrap();
    assert_eq!(
        bounds(&segments),
        vec![
            (ws, secs("2024-07-03T13:00:00Z")),
            (secs("2024-07-04T11:00:00Z"), we),
            (secs("2024-07-03T23:00:00Z"), secs("2024-07-04T00:00:00Z")),
            (secs("2024-07-04T00:00:00Z"), secs("2024-07-04T01:00:00Z")),
        ]
    );
    for segment in &segments {
        assert!(ws <= segment.start && segment.start <= segment.end && segment.end <= we);
    }
}

#[test]
fn entries_outside_the_window_are_left_out() {
    let (ws, we) = july();
    let data = "2024-06-03T08:00:00Z,2024-06-03T09:00:00Z,a,before\n\
                2024-08-03T08:00:00Z,2024-08-03T09:00:00Z,a,after\n";
    assert_eq!(group_by_day_at(data, ws, we, "UTC", noon()).unwrap().len(), 0);
}

#[test]
fn the_window_is_half_open() {
    let ws = secs("2024-07-03T00:00:00Z");
    let we = secs("2024-07-04T00:00:00Z");
    // Ends at the first second of the window, which is a midnight: the piece
    // before midnight is kept and empty after clamping, and so is the empty
    // piece that the entry has on the day on which it ends.
    let touching = "2024-07-02T22:00:00Z,2024-07-03T00:00:00Z,a,ends at the start\n";
    assert_eq!(
        bounds(&group_by_day_at(touching, ws, we, "UTC", noon()).unwrap()),
        vec![(ws, ws), (ws, ws)]
    );
    // Ends one second before the window: outside.
    let early = "2024-07-02T22:00:00Z,2024-07-02T23:59:59Z,a,ends before\n";
    assert_eq!(group_by_day_at(early, ws, we, "UTC", noon()).unwrap().len(), 0);
    // Ends one second before the end of the window: inside, and not clamped.
    let inside = "2024-07-03T23:00:00Z,2024-07-03T23:59:59Z,a,ends inside\n";
    assert_eq!(
        bounds(&group_by_day_at(inside, ws, we, "UTC", noon()).unwrap()),
        vec![(we - 3600, we - 1)]
    );
    // Starts at the end of the window: that second is outside.
    let late = "2024-07-04T00:00:00Z,2024-07-04T01:00:00Z,a,starts at the end\n";
    assert_eq!(group_by_day_at(late, ws, we, "UTC", noon()).unwrap().len(), 0);
}

#[test]
fn an_entry_that_straddles_the_window_is_dropped() {
    let ws = secs("2024-07-03T10:00:00Z");
    let we = secs("2024-07-03T11:00:00Z");
    let same_day = "2024-07-03T09:00:00Z,2024-07-03T12:00:00Z,a,covers the window\n";
    assert_eq!(group_by_day_at(same_day, ws, we, "UTC", noon()).unwrap().len(), 0);
    // Nor is a piece kept that lies in the window while the entry's ends do not.
    let (ws, we) = (secs("2024-07-04T06:00:00Z"), secs("2024-07-04T18:00:00Z"));
    let many_days = "2024-07-02T09:00:00Z,2024-07-06T12:00:00Z,a,covers the window\n";
    assert_eq!(group_by_day_at(many_days, ws, we, "UTC", noon()).unwrap().len(), 0);
}

#[test]
fn a_piece_that_straddles_the_window_is_dropped_while_others_stay() {
    let ws = secs("2024-07-03T06:00:00Z");
    let we = secs("2024-07-04T18:00:00Z");
    // The entry starts in the window. Its piece of July 4 ends in the window;
    // its piece of July 5 does not touch it.
    let data = "2024-07-03T20:00:00Z,2024-07-05T03:00:00Z,a,long\n";
    let segments = group_by_day_at(data, ws, we, "UTC", noon()).unwrap();
    assert_eq!(
        bounds(&segments),
        vec![
            (secs("2024-07-03T20:00:00Z"), secs("2024-07-04T00:00:00Z")),
            (secs("2024-07-04T00:00:00Z"), we),
        ]
    );
}

#[test]
fn a_running_entry_ends_now_and_is_clipped_to_the_window() {
    let ws = secs("2024-07-10T00:00:00Z");
    let we = secs("2024-07-10T10:00:00Z");
    let data = "2024-07-10T08:00:00Z,,work,Still going\n";
    let segments = group_by_day_at(data, ws, we, "UTC", noon()).unwrap();
    assert_eq!(bounds(&segments), vec![(secs("2024-07-10T08:00:00Z"), we)]);

    let (ws, we) = july();
    let segments = group_by_day_at(data, ws, we, "UTC", noon()).unwrap();
    assert_eq!(bounds(&segments), vec![(secs("2024-07-10T08:00:00Z"), noon().secs)]);
}

#[test]
fn a_running_entry_ends_at_the_system_clock() {
    let data = "2024-07-10T08:00:00Z,,work,Still going\n";
    let start = secs("2024-07-10T08:00:00Z");
    let segments = group_by_day(data, start, i64::MAX, "UTC").unwrap();
    assert!(!segments.is_empty());
    assert_eq!(segments[0].start, start);
    assert!(segments[segments.len() - 1].end > start);
    assert_eq!(group_by_day("", 0, 10, "UTC").unwrap().len(), 0);
}

#[test]
fn days_are_those_of_the_zone() {
    let data = "2024-07-03T21:00:00Z,2024-07-03T23:30:00Z,a,evening\n";
    let (ws, we) = july();
    assert_eq!(group_by_day_at(data, ws, we, "UTC", noon()).unwrap().len(), 1);
    let oslo = group_by_day_at(data, ws, we, "Europe/Oslo", noon()).unwrap();
    assert_eq!(
        bounds(&oslo),
        vec![
            (secs("2024-07-03T21:00:00Z"), secs("2024-07-03T22:00:00Z")),
            (secs("2024-07-03T22:00:00Z"), secs("2024-07-03T23:30:00Z")),
        ]
    );
}

#[test]
fn a_malformed_start_fails_the_log() {
    let (ws, we) = july();
    let data = "2024-07-03T08:00:00Z,2024-07-03T09:00:00Z,a,fine\n\
                not a time,2024-07-03T09:00:00Z,a,broken\n";
    match group_by_day_at(data, ws, we, "UTC", noon()) {
        Err(ReportError::BadTimestamp { row, field, value }) => {
            assert_eq!(row, 1);
            assert_eq!(field, TimeField::Start);
            assert_eq!(value, "not a time");
        }
        other => panic!("{:?}", other),
    }
}

#[test]
fn a_malformed_end_fails_the_log_even_outside_the_window() {
    let (ws, we) = july();
    let data = "2023-01-03T08:00:00Z,2023-01-03 09:00,a,broken\n";
    match group_by_day_at(data, ws, we, "UTC", noon()) {
        Err(ReportError::BadTimestamp { row, field, value }) => {
            assert_eq!(row, 0);
            assert_eq!(field, TimeField::End);
            assert_eq!(value, "2023-01-03 09:00");
        }
        other => panic!("{:?}", other),
    }
}

#[test]
fn an_entry_that_ends_before_it_starts_fails_the_log() {
    let (ws, we) = july();
    let records = vec![
        record("2024-07-03T08:00:00Z", "2024-07-03T09:00:00Z", "a", "fine"),
        record("2024-07-03T08:00:00Z", "2024-07-03T09:00:00Z", "a", "fine"),
        record("2024-07-03T09:00:00Z", "2024-07-03T08:00:00Z", "a", "reversed"),
    ];
    match group_records(&records, ws, we, "UTC", noon()) {
        Err(ReportError::EndBeforeStart { row }) => assert_eq!(row, 2),
        other => panic!("{:?}", other),
    }
    // A running entry that starts after now is reversed too.
    let future = vec![record("2024-07-20T09:00:00Z", "", "a", "not yet")];
    match group_records(&future, ws, we, "UTC", noon()) {
        Err(ReportError::EndBeforeStart { row }) => assert_eq!(row, 0),
        other => panic!("{:?}", other),
    }
}

#[test]
fn the_first_failure_is_the_one_reported() {
    let (ws, we) = july();
    let records = vec![
        record("2024-07-03T09:00:00Z", "2024-07-03T08:00:00Z", "a", "reversed"),
        record("nonsense", "", "a", "broken"),
    ];
    match group_records(&records, ws, we, "UTC", noon()) {
        Err(ReportError::EndBeforeStart { row }) => assert_eq!(row, 0),
        other => panic!("{:?}", other),
    }
}

#[test]
fn an_unknown_zone_fails_entries_in_the_window_only() {
    let (ws, we) = july();
    let outside = vec![record("2024-06-03T08:00:00Z", "2024-06-03T09:00:00Z", "a", "june")];
    assert_eq!(group_records(&outside, ws, we, "Mars/Olympus", noon()).unwrap().len(), 0);
    let inside = vec![record("2024-07-03T08:00:00Z", "2024-07-03T09:00:00Z", "a", "july")];
    match group_records(&inside, ws, we, "Mars/Olympus", noon()) {
        Err(ReportError::NoLocalDate { row }) => assert_eq!(row, 0),
        other => panic!("{:?}", other),
    }
}

#[test]
fn an_entry_over_a_skipped_midnight_is_cut_where_the_clocks_go_on() {
    let ws = secs("2018-11-01T00:00:00-03:00");
    let we = secs("2018-12-01T00:00:00-02:00");
    let records = vec![
        record("2018-11-02T08:00:00-03:00", "2018-11-02T09:00:00-03:00", "a", "fine"),
        record("2018-11-03T12:00:00-03:00", "2018-11-04T12:00:00-02:00", "a", "over the gap"),
    ];
    let segments = group_records(&records, ws, we, "America/Sao_Paulo", noon()).unwrap();
    assert_eq!(
        bounds(&segments),
        vec![
            (secs("2018-11-02T08:00:00-03:00"), secs("2018-11-02T09:00:00-03:00")),
            (secs("2018-11-03T12:00:00-03:00"), secs("2018-11-04T01:00:00-02:00")),
            (secs("2018-11-04T01:00:00-02:00"), secs("2018-11-04T12:00:00-02:00")),
        ]
    );
}

#[test]
fn an_entry_that_cannot_be_cut_fails_the_log() {
    // Juneau went from the 19th back to the 18th of October 1867.
    let ws = secs("1867-10-01T00:00:00Z");
    let we = secs("1867-11-01T00:00:00Z");
    let records = vec![
        record("1867-10-02T08:00:00Z", "1867-10-02T09:00:00Z", "a", "fine"),
        record("1867-10-18T23:31:13Z", "1867-10-19T01:31:13Z", "a", "over the change"),
    ];
    match group_records(&records, ws, we, "America/Juneau", noon()) {
        Err(ReportError::NoMidnight { row }) => assert_eq!(row, 1),
        other => panic!("{:?}", other),
    }
}

#[test]
fn a_log_without_running_entries_does_not_depend_on_the_clock() {
    let (ws, we) = july();
    let data = "2024-07-03T17:05:30Z,2024-07-05T16:32:00Z,travel,Conference\n\
                2024-07-09T08:00:00Z,2024-07-09T09:00:00Z,b,second\n";
    let by_clock = group_by_day(data, ws, we, "UTC").unwrap();
    let long_ago = group_by_day_at(data, ws, we, "UTC", Instant::from_secs(0)).unwrap();
    let far_off = group_by_day_at(data, ws, we, "UTC", Instant::from_secs(i64::MAX)).unwrap();
    assert_eq!(bounds(&by_clock), bounds(&long_ago));
    assert_eq!(bounds(&by_clock), bounds(&far_off));
    assert_eq!(by_clock.len(), 4);
    // A log that cannot be read fails the same way without the clock.
    match group_by_day("a,b,c\n", ws, we, "UTC") {
        Err(ReportError::MissingFields { row }) => assert_eq!(row, 0),
        other => panic!("{:?}", other),
    }
}
