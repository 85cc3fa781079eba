use activity_report::calendar::{day_label, parse_timestamp};
use activity_report::clock_text::fmt_duration;
use activity_report::days::{day_series, day_series_between, DateRange, SeriesError};
use activity_report::grouper::{group_by_day_at, ClippedSegment};
use activity_report::instant::Instant;
use activity_report::listing::entry_lines;
use activity_report::logo::logo_tag;
use activity_report::month::{end_of_month, get_end_of_month, get_start_of_month, start_of_month, MonthError};
use activity_report::tag_counts::{all_tags, count};
use activity_report::totals::{are_well_formed, total_seconds};
use chrono::{DateTime, Datelike, NaiveDate, Utc};

fn at(text: &str) -> Instant {
    parse_timestamp(text).unwrap()
}

fn secs(text: &str) -> i64 {
    at(text).secs
}

fn segment(start: i64, end: i64, tags: &[&str], description: &str) -> ClippedSegment {
    ClippedSegment {
        start,
        end,
        tags: tags.iter().map(|t| t.to_string()).collect(),
        description: description.to_string(),
    }
}

fn strings(items: &[&str]) -> Vec<String> {
    items.iter().map(|s| s.to_string()).collect()
}

fn day_number(year: i32, month: u32, day: u32) -> i32 {
    NaiveDate::from_ymd_opt(year, month, day).unwrap().num_days_from_ce()
}

#[test]
fn durations_are_written_as_hours_minutes_seconds() {
    assert_eq!(fmt_duration(3661), "01:01:01");
    assert_eq!(fmt_duration(90000), "25:00:00");
    assert_eq!(fmt_duration(0), "00:00:00");
    assert_eq!(fmt_duration(59), "00:00:59");
    assert_eq!(fmt_duration(60), "00:01:00");
    assert_eq!(fmt_duration(3599), "00:59:59");
    assert_eq!(fmt_duration(3600), "01:00:00");
    assert_eq!(fmt_duration(36000), "10:00:00");
    assert_eq!(fmt_duration(360000 + 12 * 60 + 7), "100:12:07");
    assert_eq!(fmt_duration(i64::MAX), "2562047788015215:30:07");
}

#[test]
fn negative_durations_have_negative_parts() {
    assert_eq!(fmt_duration(-1), "00:00:-1");
    assert_eq!(fmt_duration(-59), "00:00:-59");
    assert_eq!(fmt_duration(-60), "00:-1:00");
    assert_eq!(fmt_duration(-3661), "-1:-1:-1");
    assert_eq!(fmt_duration(-90000), "-25:00:00");
    assert_eq!(fmt_duration(i64::MIN), "-2562047788015215:-30:-8");
}

#[test]
fn durations_match_the_padding_of_the_standard_formatter() {
    for s in [0i64, 7, 75, 600, 4000, 86399, 86400, 123456789, -5, -75, -4000, -123456789] {
        let expected = format!("{:0>2}:{:0>2}:{:0>2}", (s / 60) / 60, (s / 60) % 60, s % 60);
        assert_eq!(fmt_duration(s), expected);
    }
}

#[test]
fn total_is_the_sum_of_the_segment_lengths() {
    let segments = vec![
        segment(100, 160, &["a"], "one"),
        segment(1000, 4601, &["b"], "two"),
        segment(5, 5, &[], "empty"),
    ];
    assert!(are_well_formed(&segments));
    assert_eq!(total_seconds(&segments), Some(3661));
    assert_eq!(fmt_duration(total_seconds(&segments).unwrap()), "01:01:01");
    assert_eq!(total_seconds(&Vec::new()), Some(0));
    assert_eq!(total_seconds(&vec![segment(-10, i64::MAX - 10, &[], "long")]), Some(i64::MAX));
}

#[test]
fn total_that_does_not_fit_is_none() {
    let segments = vec![segment(0, i64::MAX, &[], "long"), segment(0, 1, &[], "short")];
    assert_eq!(total_seconds(&segments), None);
    assert_eq!(total_seconds(&vec![segment(-1, i64::MAX, &[], "too long")]), None);
}

#[test]
fn segments_that_end_before_they_start_are_not_well_formed() {
    assert!(are_well_formed(&Vec::new()));
    assert!(are_well_formed(&vec![segment(1, 1, &[], ""), segment(-5, 7, &[], "")]));
    assert!(!are_well_formed(&vec![segment(1, 2, &[], ""), segment(3, 2, &[], "")]));
}

#[test]
fn tags_are_counted_in_order_of_first_occurrence() {
    let tags = strings(&["work", "rust", "work", "review", "rust", "work"]);
    let counts = count(&tags);
    let pairs: Vec<(&str, usize)> = counts.iter().map(|c| (c.tag.as_str(), c.count)).collect();
    assert_eq!(pairs, vec![("work", 3), ("rust", 2), ("review", 1)]);
    assert_eq!(count(&Vec::new()).len(), 0);
}

#[test]
fn tag_counts_add_up_to_the_number_of_tags() {
    let segments = vec![
        segment(0, 10, &["work", "rust"], "one"),
        segment(10, 20, &["work"], "two"),
        segment(20, 30, &[], "three"),
        segment(30, 40, &["", "rust", "rust"], "four"),
    ];
    let tags = all_tags(&segments);
    assert_eq!(tags, strings(&["work", "rust", "work", "", "rust", "rust"]));
    let counts = count(&tags);
    assert_eq!(counts.iter().map(|c| c.count).sum::<usize>(), 6);
    let pairs: Vec<(&str, usize)> = counts.iter().map(|c| (c.tag.as_str(), c.count)).collect();
    assert_eq!(pairs, vec![("work", 2), ("rust", 3), ("", 1)]);
}

#[test]
fn a_segment_with_two_tags_counts_once_for_each() {
    let data = "2024-07-03T17:05:30Z,2024-07-05T16:32:00Z,travel talk,Conference\n";
    let segments = group_by_day_at(
        data,
        secs("2024-07-01T00:00:00Z"),
        secs("2024-08-01T00:00:00Z"),
        "UTC",
        at("2024-07-10T12:00:00Z"),
    )
    .unwrap();
    let counts = count(&all_tags(&segments));
    let pairs: Vec<(&str, usize)> = counts.iter().map(|c| (c.tag.as_str(), c.count)).collect();
    assert_eq!(pairs, vec![("travel", 3), ("talk", 3)]);
}

#[test]
fn date_range_hands_out_each_day_once() {
    let mut range = DateRange::new(5, 8);
    assert_eq!(range.next(), Some(5));
    assert_eq!(range.next(), Some(6));
    assert_eq!(range.next(), Some(7));
    assert_eq!(range.next(), Some(8));
    assert_eq!(range.next(), None);
    assert_eq!(range.next(), None);

    let mut single = DateRange::new(-3, -3);
    assert_eq!(single.next(), Some(-3));
    assert_eq!(single.next(), None);

    let mut none = DateRange::new(4, 3);
    assert_eq!(none.next(), None);

    let mut last = DateRange::new(i32::MAX - 1, i32::MAX);
    assert_eq!(last.next(), Some(i32::MAX - 1));
    assert_eq!(last.next(), Some(i32::MAX));
    assert_eq!(last.next(), None);
}

#[test]
fn day_labels_are_iso_dates() {
    assert_eq!(day_label(719_163), Some("1970-01-01".to_string()));
    assert_eq!(day_label(day_number(2024, 2, 29)), Some("2024-02-29".to_string()));
    assert_eq!(day_label(i32::MAX), None);
}

#[test]
fn day_series_has_an_entry_for_every_day_of_the_window() {
    let segments = vec![
        segment(secs("2024-07-03T17:05:30Z"), secs("2024-07-04T00:00:00Z"), &["a"], "x"),
        segment(secs("2024-07-04T00:00:00Z"), secs("2024-07-05T00:00:00Z"), &["a"], "x"),
        segment(secs("2024-07-03T08:00:00Z"), secs("2024-07-03T09:00:00Z"), &["b"], "y"),
    ];
    let series = day_series(
        &segments,
        "UTC",
        at("2024-07-01T00:00:00Z"),
        at("2024-07-07T23:59:59Z"),
    )
    .unwrap();
    let pairs: Vec<(&str, i64)> = series.iter().map(|d| (d.label.as_str(), d.seconds)).collect();
    assert_eq!(
        pairs,
        vec![
            ("2024-07-01", 0),
            ("2024-07-02", 0),
            ("2024-07-03", 6 * 3600 + 54 * 60 + 30 + 3600),
            ("2024-07-04", 86400),
            ("2024-07-05", 0),
            ("2024-07-06", 0),
            ("2024-07-07", 0),
        ]
    );
}

#[test]
fn day_series_counts_a_segment_for_the_local_day_of_its_start() {
    let segments =
        vec![segment(secs("2024-07-03T22:30:00Z"), secs("2024-07-03T23:30:00Z"), &[], "late")];
    let first = day_number(2024, 7, 3);
    let utc = day_series_between(&segments, "UTC", first, first + 1).unwrap();
    assert_eq!((utc[0].seconds, utc[1].seconds), (3600, 0));
    let oslo = day_series_between(&segments, "Europe/Oslo", first, first + 1).unwrap();
    assert_eq!((oslo[0].seconds, oslo[1].seconds), (0, 3600));
}

#[test]
fn day_series_leaves_out_segments_of_other_days() {
    let segments = vec![segment(secs("2024-06-30T10:00:00Z"), secs("2024-06-30T11:00:00Z"), &[], "")];
    let first = day_number(2024, 7, 1);
    let series = day_series_between(&segments, "UTC", first, first).unwrap();
    assert_eq!(series.len(), 1);
    assert_eq!(series[0].label, "2024-07-01");
    assert_eq!(series[0].seconds, 0);
}

#[test]
fn day_series_of_a_window_that_ends_before_it_starts_is_empty() {
    let series = day_series_between(&Vec::new(), "UTC", 10, 9).unwrap();
    assert_eq!(series.len(), 0);
}

#[test]
fn day_series_length_is_the_number_of_days() {
    let start = at("2024-02-01T00:00:00+01:00");
    let end = at("2024-02-29T23:59:59+01:00");
    let series = day_series(&Vec::new(), "Europe/Oslo", start, end).unwrap();
    assert_eq!(series.len(), 29);
    assert_eq!(series[0].label, "2024-02-01");
    assert_eq!(series[28].label, "2024-02-29");
}

#[test]
fn day_series_fails_without_a_window_date() {
    let t = at("2024-07-01T00:00:00Z");
    assert_eq!(day_series(&Vec::new(), "Mars/Olympus", t, t).err(), Some(SeriesError::NoWindowDate));
    assert_eq!(
        day_series(&Vec::new(), "UTC", t, Instant::from_secs(i64::MAX)).err(),
        Some(SeriesError::NoWindowDate)
    );
}

#[test]
fn day_series_fails_for_a_segment_without_a_date() {
    let segments = vec![segment(0, 10, &[], "fine"), segment(i64::MAX - 5, i64::MAX, &[], "far")];
    assert_eq!(
        day_series_between(&segments, "UTC", 719_163, 719_163).err(),
        Some(SeriesError::NoLocalDate { segment: 1 })
    );
}

#[test]
fn day_series_fails_for_a_day_without_a_label() {
    assert_eq!(
        day_series_between(&Vec::new(), "UTC", i32::MAX, i32::MAX).err(),
        Some(SeriesError::NoLabel { day: i32::MAX })
    );
}

#[test]
fn day_series_fails_where_a_day_is_too_long() {
    let segments = vec![segment(0, i64::MAX, &[], "long"), segment(1, 2, &[], "more")];
    assert_eq!(
        day_series_between(&segments, "UTC", 719_163, 719_163).err(),
        Some(SeriesError::TooLong { day: 719_163 })
    );
}

#[test]
fn entry_lines_pair_description_and_duration() {
    let segments = vec![
        segment(0, 3661, &["a"], "Review"),
        segment(100, 100, &[], ""),
        segment(i64::MIN, i64::MAX, &[], "everything"),
    ];
    let lines = entry_lines(&segments);
    let pairs: Vec<(&str, &str)> =
        lines.iter().map(|l| (l.description.as_str(), l.duration.as_str())).collect();
    assert_eq!(
        pairs,
        vec![("Review", "01:01:01"), ("", "00:00:00"), ("everything", "5124095576030431:00:15")]
    );
}

#[test]
fn month_window_runs_from_the_first_midnight_to_the_last_nanosecond() {
    let now = at("2024-02-14T15:00:00Z");
    assert_eq!(start_of_month("Europe/Oslo", now), Ok(at("2024-02-01T00:00:00+01:00")));
    assert_eq!(end_of_month("Europe/Oslo", now), Ok(at("2024-02-29T23:59:59.999999999+01:00")));
    assert_eq!(start_of_month("UTC", at("2024-12-31T23:59:59Z")), Ok(at("2024-12-01T00:00:00Z")));
    assert_eq!(
        end_of_month("UTC", at("2024-12-31T23:59:59Z")),
        Ok(Instant { secs: secs("2025-01-01T00:00:00Z") - 1, nanos: 999_999_999 })
    );
}

#[test]
fn month_is_the_one_of_the_local_date() {
    // 23:30 UTC on the last of June is July in Oslo.
    let now = at("2024-06-30T23:30:00Z");
    assert_eq!(start_of_month("UTC", now), Ok(at("2024-06-01T00:00:00Z")));
    assert_eq!(start_of_month("Europe/Oslo", now), Ok(at("2024-07-01T00:00:00+02:00")));
}

#[test]
fn month_ends_fail_without_a_local_date() {
    let now = at("2024-02-14T15:00:00Z");
    assert_eq!(start_of_month("Mars/Olympus", now), Err(MonthError::NoLocalDate));
    assert_eq!(end_of_month("Mars/Olympus", now), Err(MonthError::NoLocalDate));
}

#[test]
fn month_end_fails_in_the_last_month_of_the_calendar() {
    let now = Instant::from_secs(DateTime::<Utc>::MAX_UTC.timestamp());
    assert_eq!(end_of_month("UTC", now), Err(MonthError::NoMonth));
    assert!(start_of_month("UTC", now).is_ok());
}

#[test]
fn month_begins_where_the_clocks_go_on_after_a_skipped_midnight() {
    // Asuncion moved its clocks from 00:00 to 01:00 on 2017-10-01.
    let now = at("2017-10-15T12:00:00-03:00");
    assert_eq!(start_of_month("America/Asuncion", now), Ok(at("2017-10-01T01:00:00-03:00")));
    assert_eq!(
        end_of_month("America/Asuncion", at("2017-09-15T12:00:00-04:00")),
        Ok(Instant { secs: secs("2017-10-01T01:00:00-03:00") - 1, nanos: 999_999_999 })
    );
}

#[test]
fn month_start_fails_where_the_first_day_has_no_beginning() {
    // In the first month of the calendar, east of Greenwich, the first
    // day begins before the calendar does.
    let now = Instant::from_secs(DateTime::<Utc>::MIN_UTC.timestamp() + 86_400);
    assert_eq!(start_of_month("Asia/Tokyo", now), Err(MonthError::NoMidnight));
    assert!(start_of_month("UTC", now).is_ok());
}

#[test]
fn current_month_holds_the_present() {
    let start = get_start_of_month("Europe/Oslo").unwrap();
    let end = get_end_of_month("Europe/Oslo").unwrap();
    let now = Utc::now().timestamp();
    assert!(start.secs <= now && now <= end.secs + 1);
    assert_eq!(end.nanos, 999_999_999);
    let first = DateTime::from_timestamp(start.secs, 0).unwrap().with_timezone(&chrono_tz::Europe::Oslo);
    assert_eq!(first.day(), 1);
}

#[test]
fn logo_is_a_data_uri() {
    assert_eq!(logo_tag("<svg/>"), "<img src='data:image/svg+xml;base64,PHN2Zy8+'>");
    assert_eq!(logo_tag(""), "<img src='data:image/svg+xml;base64,'>");
    assert_eq!(logo_tag("a"), "<img src='data:image/svg+xml;base64,YQ=='>");
}
