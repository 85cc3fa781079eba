//! The calendar month around an instant: the reporting window where none
//! is asked for.

use vstd::prelude::*;
use crate::calendar::{
    day_start, first_of_month, first_of_month_of, local_day, local_day_begin, month_later,
    month_later_of, read_clock, zone_day,
};
use crate::instant::Instant;

verus! {

/// Why the ends of a month could not be found.
#[derive(Clone, Copy, Debug, PartialEq, Eq, Structural)]
pub enum MonthError {
    /// The zone is unknown, or the instant has no local date.
    NoLocalDate,
    /// The first day of the month, or of the month after it, lies outside
    /// the calendar's range.
    NoMonth,
    /// The time zone table gives no beginning of the first day of the
    /// month, or of the month after it.
    NoMidnight,
}

/// The instant at which the month that holds `now` begins in `zone`: the
/// beginning of its first day, which is midnight unless the clocks skip it.
pub open spec fn month_start(zone: Seq<char>, now: Instant) -> Result<Instant, MonthError> {
    match zone_day(zone, now.secs) {
        None => Err(MonthError::NoLocalDate),
        Some(today) => match first_of_month(today) {
            None => Err(MonthError::NoMonth),
            Some(first) => match day_start(zone, first) {
                None => Err(MonthError::NoMidnight),
                Some(begin) => Ok(begin),
            },
        },
    }
}

/// The last instant of the month that holds `now` in `zone`: one
/// nanosecond before the beginning of the first day of the next month. A
/// beginning that has no second before it counts as none.
pub open spec fn month_end(zone: Seq<char>, now: Instant) -> Result<Instant, MonthError> {
    match zone_day(zone, now.secs) {
        None => Err(MonthError::NoLocalDate),
        Some(today) => match first_of_month(today) {
            None => Err(MonthError::NoMonth),
            Some(first) => match month_later(first) {
                None => Err(MonthError::NoMonth),
                Some(next) => match day_start(zone, next) {
                    Some(begin) if begin.secs > i64::MIN => Ok(
                        Instant { secs: (begin.secs - 1) as i64, nanos: 999_999_999 },
                    ),
                    _ => Err(MonthError::NoMidnight),
                },
            },
        },
    }
}

/// The first day of the month in which `now` falls in `zone`.
fn first_day_of_month(zone: &str, now: Instant) -> (r: Result<i32, MonthError>)
    ensures
        match r {
            Ok(first) => zone_day(zone@, now.secs) is Some && first_of_month(
                zone_day(zone@, now.secs)->Some_0,
            ) == Some(first),
            Err(e) => {
                &&& e == MonthError::NoLocalDate ==> zone_day(zone@, now.secs) is None
                &&& e == MonthError::NoMonth ==> zone_day(zone@, now.secs) is Some && first_of_month(
                    zone_day(zone@, now.secs)->Some_0,
                ) is None
                &&& e != MonthError::NoMidnight
            },
        },
{
    match local_day(zone, now) {
        None => Err(MonthError::NoLocalDate),
        Some(today) => match first_of_month_of(today) {
            None => Err(MonthError::NoMonth),
            Some(first) => Ok(first),
        },
    }
}

/// The instant at which the month that holds `now` begins in `zone`.
pub fn start_of_month(zone: &str, now: Instant) -> (r: Result<Instant, MonthError>)
    ensures
        r == month_start(zone@, now),
{
    let first: i32 = first_day_of_month(zone, now)?;
    match local_day_begin(zone, first) {
        None => Err(MonthError::NoMidnight),
        Some(begin) => Ok(begin),
    }
}

/// The last instant of the month that holds `now` in `zone`.
pub fn end_of_month(zone: &str, now: Instant) -> (r: Result<Instant, MonthError>)
    ensures
        r == month_end(zone@, now),
{
    let first: i32 = first_day_of_month(zone, now)?;
    let next: i32 = match month_later_of(first) {
        None => {
            return Err(MonthError::NoMonth);
        },
        Some(next) => next,
    };
    match local_day_begin(zone, next) {
        Some(begin) => if begin.secs > i64::MIN {
            Ok(Instant { secs: begin.secs - 1, nanos: 999_999_999 })
        } else {
            Err(MonthError::NoMidnight)
        },
        None => Err(MonthError::NoMidnight),
    }
}

/// The instant at which the current month begins in `zone`, by the system
/// clock.
pub fn get_start_of_month(zone: &str) -> (r: Result<Instant, MonthError>)
    ensures
        exists|now: Instant| now.valid() && r == #[trigger] month_start(zone@, now),
{
    let now = read_clock();
    start_of_month(zone, now)
}

/// The last instant of the current month in `zone`, by the system clock.
pub fn get_end_of_month(zone: &str) -> (r: Result<Instant, MonthError>)
    ensures
        exists|now: Instant| now.valid() && r == #[trigger] month_end(zone@, now),
{
    let now = read_clock();
    end_of_month(zone, now)
}

} // verus!
