//! Calendar days in a time zone.
//!
//! A zone is given by its IANA name, a calendar day by its number in the
//! proleptic Gregorian calendar, where day 1 is 0001-01-01. What the time
//! zone database and the calendar say is taken from `chrono` and `chrono-tz`;
//! this module names those answers and states nothing else about them.

use vstd::prelude::*;
use crate::instant::Instant;
use chrono::{DateTime, Datelike, Months, NaiveDate, NaiveTime, Offset, TimeZone, Utc};
use chrono_tz::{GapInfo, Tz};
use std::time::SystemTime;

verus! {

/// The calendar day on which second `secs` of the epoch falls in `zone`, or
/// `None` where the zone is unknown or the local date lies outside the
/// calendar's range.
pub uninterp spec fn zone_day(zone: Seq<char>, secs: i64) -> Option<i32>;

/// The epoch second at which the clocks of `zone` first read 00:00:00 on
/// calendar day `day`, or `None` where the zone is unknown, the day lies
/// outside the calendar's range, or the clocks skip that reading.
pub uninterp spec fn zone_midnight(zone: Seq<char>, day: i32) -> Option<i64>;

/// The epoch second at which the clocks of `zone` last read 00:00:00 on
/// calendar day `day`: the same second as `zone_midnight` unless the clocks
/// read that midnight twice. `None` where `zone_midnight` is.
pub uninterp spec fn zone_late_midnight(zone: Seq<char>, day: i32) -> Option<i64>;

/// The epoch second at which the clocks of `zone` go on after they have
/// skipped 00:00:00 of calendar day `day`, or `None` where the zone is
/// unknown, the day lies outside the calendar's range, the clocks do not
/// skip that reading, or the time zone table does not say when they go on.
pub uninterp spec fn zone_gap_end(zone: Seq<char>, day: i32) -> Option<i64>;

/// The instant that an RFC 3339 timestamp denotes, as seconds and
/// nanoseconds, or `None` where `text` is no such timestamp. For a leap
/// second the nanoseconds are a second or more.
pub uninterp spec fn rfc3339_instant(text: Seq<char>) -> Option<(i64, u32)>;

/// The ISO 8601 date of calendar day `day`, or `None` where the day lies
/// outside the calendar's range.
pub uninterp spec fn iso_date(day: i32) -> Option<Seq<char>>;

/// The first day of the month that holds calendar day `day`, or `None`
/// where the day lies outside the calendar's range.
pub uninterp spec fn first_of_month(day: i32) -> Option<i32>;

/// The calendar day one month after `day` (the month's last day where the
/// later month is shorter), or `None` where either day lies outside the
/// calendar's range.
pub uninterp spec fn month_later(day: i32) -> Option<i32>;

/// Looks `zone` up with `Tz::from_str`, finds the zone's offset at the
/// instant with `TimeZone::offset_from_utc_datetime`, shifts the UTC time by
/// it with `NaiveDateTime::checked_add_offset` and numbers the date with
/// `Datelike::num_days_from_ce`. The contract only names the answer.
#[verifier::external_body]
pub(crate) fn zone_day_of(zone: &str, secs: i64) -> (r: Option<i32>)
    ensures
        r == zone_day(zone@, secs),
{
    let tz: Tz = zone.parse().ok()?;
    let utc = DateTime::from_timestamp(secs, 0)?.naive_utc();
    let local = utc.checked_add_offset(tz.offset_from_utc_datetime(&utc).fix())?;
    Some(local.date().num_days_from_ce())
}

/// Resolves local midnight of `day` with `TimeZone::from_local_datetime`
/// in the zone that `Tz::from_str` finds, taking the earlier instant where
/// the clocks read midnight twice (`LocalResult::earliest`). The contract
/// only names the answer.
#[verifier::external_body]
pub(crate) fn zone_midnight_of(zone: &str, day: i32) -> (r: Option<i64>)
    ensures
        r == zone_midnight(zone@, day),
{
    let tz: Tz = zone.parse().ok()?;
    let midnight = NaiveDate::from_num_days_from_ce_opt(day)?.and_time(NaiveTime::MIN);
    tz.from_local_datetime(&midnight).earliest().map(|t| t.timestamp())
}

/// As `zone_midnight_of`, but takes the later instant where the clocks
/// read midnight twice (`LocalResult::latest`). The contract only names the
/// answer.
#[verifier::external_body]
pub(crate) fn zone_late_midnight_of(zone: &str, day: i32) -> (r: Option<i64>)
    ensures
        r == zone_late_midnight(zone@, day),
{
    let tz: Tz = zone.parse().ok()?;
    let midnight = NaiveDate::from_num_days_from_ce_opt(day)?.and_time(NaiveTime::MIN);
    tz.from_local_datetime(&midnight).latest().map(|t| t.timestamp())
}

/// Asks `chrono_tz::GapInfo::new` for the gap in local time that holds
/// midnight of `day` in the zone that `Tz::from_str` finds, and takes the
/// first instant after the gap (its field `end`). The contract only names
/// the answer.
#[verifier::external_body]
pub(crate) fn zone_gap_end_of(zone: &str, day: i32) -> (r: Option<i64>)
    ensures
        r == zone_gap_end(zone@, day),
{
    let tz: Tz = zone.parse().ok()?;
    let midnight = NaiveDate::from_num_days_from_ce_opt(day)?.and_time(NaiveTime::MIN);
    GapInfo::new(&midnight, &tz)?.end.map(|t| t.timestamp())
}

/// Parses with `DateTime::parse_from_rfc3339` and reads the result with
/// `timestamp` and `timestamp_subsec_nanos`. The contract only names the
/// answer.
#[verifier::external_body]
pub(crate) fn rfc3339_instant_of(text: &str) -> (r: Option<(i64, u32)>)
    ensures
        r == rfc3339_instant(text@),
{
    DateTime::parse_from_rfc3339(text).ok().map(|t| (t.timestamp(), t.timestamp_subsec_nanos()))
}

/// Formats the date that `NaiveDate::from_num_days_from_ce_opt` gives with
/// its `Display` impl. The contract only names the answer.
#[verifier::external_body]
pub(crate) fn iso_date_of(day: i32) -> (r: Option<String>)
    ensures
        match r {
            Some(text) => iso_date(day) == Some(text@),
            None => iso_date(day) is None,
        },
{
    NaiveDate::from_num_days_from_ce_opt(day).map(|date| date.to_string())
}

/// Moves the date to the first of its month with `Datelike::with_day`.
/// The contract only names the answer.
#[verifier::external_body]
pub(crate) fn first_of_month_of(day: i32) -> (r: Option<i32>)
    ensures
        r == first_of_month(day),
{
    NaiveDate::from_num_days_from_ce_opt(day)?.with_day(1).map(|date| date.num_days_from_ce())
}

/// Adds one month with `NaiveDate::checked_add_months`. The contract only
/// names the answer.
#[verifier::external_body]
pub(crate) fn month_later_of(day: i32) -> (r: Option<i32>)
    ensures
        r == month_later(day),
{
    let date = NaiveDate::from_num_days_from_ce_opt(day)?;
    date.checked_add_months(Months::new(1)).map(|later| later.num_days_from_ce())
}

/// Reads the system clock with `SystemTime::now` and turns the reading
/// into a `DateTime<Utc>` with chrono's `From<SystemTime>`, which also
/// takes readings before 1970 and refuses only those that lie outside
/// chrono's calendar, some 262,000 years from now. Nothing is promised of
/// the instant that comes back.
#[verifier::external_body]
pub(crate) fn system_now() -> (r: (i64, u32)) {
    let now = DateTime::<Utc>::from(SystemTime::now());
    (now.timestamp(), now.timestamp_subsec_nanos())
}

/// The calendar day on which `at` falls in `zone`.
pub fn local_day(zone: &str, at: Instant) -> (r: Option<i32>)
    ensures
        r == zone_day(zone@, at.secs),
{
    zone_day_of(zone, at.secs)
}

/// The instant at which calendar day `day` begins in `zone`: the first
/// time the zone's clocks read midnight on that day or, where they skip
/// that midnight, the instant at which they go on after it.
pub open spec fn day_start(zone: Seq<char>, day: i32) -> Option<Instant> {
    match zone_midnight(zone, day) {
        Some(secs) => Some(Instant { secs, nanos: 0 }),
        None => match zone_gap_end(zone, day) {
            Some(secs) => Some(Instant { secs, nanos: 0 }),
            None => None,
        },
    }
}

/// The beginning of calendar day `day` in `zone` as it is met by one who
/// sets out at `from`: as `day_start`, but where the clocks read midnight
/// twice and the first reading is not after `from`, the second reading.
pub open spec fn day_start_after(zone: Seq<char>, day: i32, from: Instant) -> Option<Instant> {
    match zone_midnight(zone, day) {
        Some(secs) => if from.before(Instant { secs, nanos: 0 }) {
            Some(Instant { secs, nanos: 0 })
        } else {
            match zone_late_midnight(zone, day) {
                Some(late) => Some(Instant { secs: late, nanos: 0 }),
                None => None,
            }
        },
        None => match zone_gap_end(zone, day) {
            Some(secs) => Some(Instant { secs, nanos: 0 }),
            None => None,
        },
    }
}

/// The instant at which calendar day `day` begins in `zone`.
///
/// That is local midnight. Where the zone's clocks read that midnight
/// twice, it is the earlier reading; where they skip it, it is the instant
/// at which they go on after it.
pub fn local_day_begin(zone: &str, day: i32) -> (r: Option<Instant>)
    ensures
        r == day_start(zone@, day),
{
    match zone_midnight_of(zone, day) {
        Some(secs) => Some(Instant::from_secs(secs)),
        None => match zone_gap_end_of(zone, day) {
            Some(secs) => Some(Instant::from_secs(secs)),
            None => None,
        },
    }
}

/// The instant at which calendar day `day` begins in `zone` for one who
/// sets out at `from`: as `local_day_begin`, but where the clocks read
/// midnight twice and the earlier reading is not after `from`, the later
/// reading.
pub fn local_day_begin_after(zone: &str, day: i32, from: Instant) -> (r: Option<Instant>)
    ensures
        r == day_start_after(zone@, day, from),
{
    match zone_midnight_of(zone, day) {
        Some(secs) => {
            let first = Instant::from_secs(secs);
            if from.is_before(&first) {
                Some(first)
            } else {
                match zone_late_midnight_of(zone, day) {
                    Some(late) => Some(Instant::from_secs(late)),
                    None => None,
                }
            }
        },
        None => match zone_gap_end_of(zone, day) {
            Some(secs) => Some(Instant::from_secs(secs)),
            None => None,
        },
    }
}

/// The instant that an RFC 3339 timestamp denotes. A leap second, which
/// the timestamp gives as a second numbered 60, is taken for the last
/// nanosecond of the second before it.
pub open spec fn timestamp_instant(text: Seq<char>) -> Option<Instant> {
    match rfc3339_instant(text) {
        Some((secs, nanos)) => Some(Instant::folded(secs, nanos)),
        None => None,
    }
}

/// Reads an RFC 3339 timestamp. A leap second is read as the last
/// nanosecond of the second before it.
pub fn parse_timestamp(text: &str) -> (r: Option<Instant>)
    ensures
        r == timestamp_instant(text@),
        r is Some ==> r->Some_0.valid(),
{
    match rfc3339_instant_of(text) {
        Some((secs, nanos)) => Some(Instant::new(secs, nanos)),
        None => None,
    }
}

/// Reads the system clock.
pub fn read_clock() -> (r: Instant)
    ensures
        r.valid(),
{
    let (secs, nanos) = system_now();
    Instant::new(secs, nanos)
}

/// The ISO 8601 date (`YYYY-MM-DD`) of calendar day `day`.
pub fn day_label(day: i32) -> (r: Option<String>)
    ensures
        match r {
            Some(text) => iso_date(day) == Some(text@),
            None => iso_date(day) is None,
        },
{
    iso_date_of(day)
}

} // verus!
