//! The time spent on each day of the reporting window.

use vstd::prelude::*;
use crate::calendar::{iso_date, iso_date_of, local_day, zone_day};
use crate::grouper::{segment_views, ClippedSegment, Segment};
use crate::instant::Instant;
use crate::totals::well_formed;

verus! {

/// The calendar days from `first` to `last`, both included, in order; none
/// where `last` comes before `first`.
pub open spec fn days_between(first: i32, last: i32) -> Seq<i32> {
    if first <= last {
        Seq::new((last - first + 1) as nat, |i: int| (first + i) as i32)
    } else {
        Seq::<i32>::empty()
    }
}

/// A run of consecutive calendar days, handed out one by one.
#[derive(Clone, Copy, Debug)]
pub struct DateRange {
    next: i32,
    last: i32,
}

impl DateRange {
    /// The days that are still to come, in order.
    pub closed spec fn remaining(self) -> Seq<i32> {
        days_between(self.next, self.last)
    }

    /// The days from `first` to `last`, both included.
    pub fn new(first: i32, last: i32) -> (r: DateRange)
        ensures
            r.remaining() == days_between(first, last),
    {
        DateRange { next: first, last }
    }

    /// Hands out the next day, or `None` when none is left.
    pub fn next(&mut self) -> (r: Option<i32>)
        ensures
            match r {
                Some(day) => {
                    &&& old(self).remaining().len() > 0
                    &&& day == old(self).remaining()[0]
                    &&& final(self).remaining() == old(self).remaining().drop_first()
                },
                None => old(self).remaining().len() == 0 && *final(self) == *old(self),
            },
    {
        if self.next <= self.last {
            let day: i32 = self.next;
            if day == i32::MAX {
                self.last = day - 1;
            } else {
                self.next = day + 1;
            }
            assert(self.remaining() =~= old(self).remaining().drop_first());
            Some(day)
        } else {
            None
        }
    }
}

/// A day of the report and the time spent on it.
#[derive(Clone, Debug)]
pub struct DayTotal {
    /// ISO 8601 date of the day.
    pub label: String,
    /// Seconds of the segments that start on the day.
    pub seconds: i64,
}

/// What a `DayTotal` holds.
pub ghost struct DayEntry {
    pub label: Seq<char>,
    pub seconds: int,
}

impl View for DayTotal {
    type V = DayEntry;

    open spec fn view(&self) -> DayEntry {
        DayEntry { label: self.label@, seconds: self.seconds as int }
    }
}

/// What `totals` hold.
pub open spec fn day_views(totals: Seq<DayTotal>) -> Seq<DayEntry> {
    totals.map_values(|t: DayTotal| t@)
}

/// Why the days of a window could not be summed.
#[derive(Clone, Copy, Debug, PartialEq, Eq, Structural)]
pub enum SeriesError {
    /// The zone is unknown, or an end of the window has no local date.
    NoWindowDate,
    /// Segment `segment` (counted from 0) starts at a second without a
    /// local date.
    NoLocalDate { segment: usize },
    /// Calendar day `day` cannot be written as a date.
    NoLabel { day: i32 },
    /// The segments of calendar day `day` add up to more seconds than an
    /// `i64` holds.
    TooLong { day: i32 },
}

/// Seconds of the segments that start on calendar day `day` of `zone`.
pub open spec fn day_seconds(segments: Seq<Segment>, zone: Seq<char>, day: i32) -> int
    decreases segments.len(),
{
    if segments.len() == 0 {
        0
    } else {
        day_seconds(segments.drop_last(), zone, day) + if zone_day(zone, segments.last().start)
            == Some(day) {
            segments.last().seconds()
        } else {
            0
        }
    }
}

/// Index of the first segment whose start has no local date in `zone`.
pub open spec fn first_undated(segments: Seq<Segment>, zone: Seq<char>) -> Option<int>
    decreases segments.len(),
{
    if segments.len() == 0 {
        None
    } else {
        match first_undated(segments.drop_last(), zone) {
            Some(k) => Some(k),
            None => if zone_day(zone, segments.last().start) is None {
                Some(segments.len() - 1)
            } else {
                None
            },
        }
    }
}

/// The entry of calendar day `day`: its date and the seconds spent on it.
pub open spec fn day_entry(segments: Seq<Segment>, zone: Seq<char>, day: i32) -> Result<
    DayEntry,
    SeriesError,
> {
    match iso_date(day) {
        None => Err(SeriesError::NoLabel { day }),
        Some(label) => if day_seconds(segments, zone, day) > i64::MAX {
            Err(SeriesError::TooLong { day })
        } else {
            Ok(DayEntry { label, seconds: day_seconds(segments, zone, day) })
        },
    }
}

/// The entries of `days`, in order, or the failure of the first day that
/// has one.
pub open spec fn series_over(segments: Seq<Segment>, zone: Seq<char>, days: Seq<i32>) -> Result<
    Seq<DayEntry>,
    SeriesError,
>
    decreases days.len(),
{
    if days.len() == 0 {
        Ok(Seq::<DayEntry>::empty())
    } else {
        match series_over(segments, zone, days.drop_last()) {
            Ok(before) => match day_entry(segments, zone, days.last()) {
                Ok(entry) => Ok(before.push(entry)),
                Err(e) => Err(e),
            },
            Err(e) => Err(e),
        }
    }
}

/// The entries of the days from `first` to `last`. A segment without a
/// local date fails the series before any day is looked at.
pub open spec fn series_between(
    segments: Seq<Segment>,
    zone: Seq<char>,
    first: i32,
    last: i32,
) -> Result<Seq<DayEntry>, SeriesError> {
    match first_undated(segments, zone) {
        Some(k) => Err(SeriesError::NoLocalDate { segment: k as usize }),
        None => series_over(segments, zone, days_between(first, last)),
    }
}

/// The entries of the days from the local date of `window_start` to the
/// local date of `window_end`.
pub open spec fn window_series(
    segments: Seq<Segment>,
    zone: Seq<char>,
    window_start: Instant,
    window_end: Instant,
) -> Result<Seq<DayEntry>, SeriesError> {
    match (zone_day(zone, window_start.secs), zone_day(zone, window_end.secs)) {
        (Some(first), Some(last)) => series_between(segments, zone, first, last),
        _ => Err(SeriesError::NoWindowDate),
    }
}

/// The local day on which each segment starts.
fn segment_days(segments: &Vec<ClippedSegment>, zone: &str) -> (r: Result<Vec<i32>, SeriesError>)
    ensures
        match r {
            Ok(days) => {
                &&& first_undated(segment_views(segments@), zone@) is None
                &&& days.len() == segments.len()
                &&& forall|k: int|
                    0 <= k < days.len() ==> zone_day(zone@, segments[k].start) == Some(
                        #[trigger] days[k],
                    )
            },
            Err(e) => {
                &&& first_undated(segment_views(segments@), zone@) is Some
                &&& e == SeriesError::NoLocalDate {
                    segment: first_undated(segment_views(segments@), zone@)->Some_0 as usize,
                }
            },
        },
{
    let ghost all = segment_views(segments@);
    let mut days: Vec<i32> = Vec::new();
    let mut i: usize = 0;
    assert(all.take(0) =~= Seq::<Segment>::empty());
    while i < segments.len()
        invariant
            i <= segments.len(),
            all == segment_views(segments@),
            days.len() == i,
            first_undated(all.take(i as int), zone@) is None,
            forall|k: int| 0 <= k < i ==> zone_day(zone@, segments[k].start) == Some(#[trigger] days[k]),
        decreases segments.len() - i,
    {
        proof {
            let upto = all.take(i + 1);
            assert(upto.drop_last() =~= all.take(i as int));
            assert(upto.last() == segments[i as int]@);
            lemma_first_undated_stays(all, i + 1, zone@);
        }
        match local_day(zone, Instant::from_secs(segments[i].start)) {
            Some(day) => {
                days.push(day);
            },
            None => {
                return Err(SeriesError::NoLocalDate { segment: i });
            },
        }
        i = i + 1;
    }
    assert(all.take(i as int) =~= all);
    Ok(days)
}

/// Seconds of the segments that start on `day`, or `None` where they are
/// more than an `i64` holds.
fn seconds_on(
    segments: &Vec<ClippedSegment>,
    days: &Vec<i32>,
    day: i32,
    Ghost(zone): Ghost<Seq<char>>,
) -> (r: Option<i64>)
    requires
        well_formed(segment_views(segments@)),
        days.len() == segments.len(),
        forall|k: int|
            0 <= k < days.len() ==> zone_day(zone, segments[k].start) == Some(#[trigger] days[k]),
    ensures
        match r {
            Some(total) => total == day_seconds(segment_views(segments@), zone, day),
            None => day_seconds(segment_views(segments@), zone, day) > i64::MAX,
        },
{
    let ghost all = segment_views(segments@);
    let mut total: i64 = 0;
    let mut i: usize = 0;
    assert(all.take(0) =~= Seq::<Segment>::empty());
    while i < segments.len()
        invariant
            i <= segments.len(),
            all == segment_views(segments@),
            well_formed(all),
            days.len() == segments.len(),
            forall|k: int|
                0 <= k < days.len() ==> zone_day(zone, segments[k].start) == Some(#[trigger] days[k]),
            0 <= total == day_seconds(all.take(i as int), zone, day),
        decreases segments.len() - i,
    {
        let segment = &segments[i];
        proof {
            let upto = all.take(i + 1);
            assert(upto.drop_last() =~= all.take(i as int));
            assert(upto.last() == segment@);
            assert(all[i as int] == segment@);
            lemma_day_seconds_grow(all, i + 1, zone, day);
        }
        if days[i] == day {
            let length: i128 = segment.end as i128 - segment.start as i128;
            let grown: i128 = total as i128 + length;
            if grown > i64::MAX as i128 {
                return None;
            }
            total = grown as i64;
        }
        i = i + 1;
    }
    assert(all.take(i as int) =~= all);
    Some(total)
}

/// For each day from `first` to `last`, both included and in order, its
/// ISO 8601 date and the seconds of the segments that start on it in
/// `zone`; a day without segments has zero seconds.
pub fn day_series_between(
    segments: &Vec<ClippedSegment>,
    zone: &str,
    first: i32,
    last: i32,
) -> (r: Result<Vec<DayTotal>, SeriesError>)
    requires
        well_formed(segment_views(segments@)),
    ensures
        match r {
            Ok(totals) => series_between(segment_views(segments@), zone@, first, last) == Ok::<
                Seq<DayEntry>,
                SeriesError,
            >(day_views(totals@)),
            Err(e) => series_between(segment_views(segments@), zone@, first, last) == Err::<
                Seq<DayEntry>,
                SeriesError,
            >(e),
        },
        r is Ok ==> r->Ok_0.len() == days_between(first, last).len(),
        r is Ok ==> forall|i: int|
            0 <= i < r->Ok_0.len() ==> iso_date((first + i) as i32) == Some(
                (#[trigger] r->Ok_0[i]).label@,
            ),
{
    let ghost all = segment_views(segments@);
    let ghost wanted = days_between(first, last);
    let days = segment_days(segments, zone)?;
    let mut range = DateRange::new(first, last);
    let mut totals: Vec<DayTotal> = Vec::new();
    assert(wanted.take(0) =~= Seq::<i32>::empty());
    assert(wanted.skip(0) =~= wanted);
    assert(day_views(totals@) =~= Seq::<DayEntry>::empty());
    loop
        invariant
            all == segment_views(segments@),
            wanted == days_between(first, last),
            well_formed(all),
            first_undated(all, zone@) is None,
            days.len() == segments.len(),
            forall|k: int|
                0 <= k < days.len() ==> zone_day(zone@, segments[k].start) == Some(#[trigger] days[k]),
            totals.len() <= wanted.len(),
            range.remaining() == wanted.skip(totals.len() as int),
            series_over(all, zone@, wanted.take(totals.len() as int)) == Ok::<
                Seq<DayEntry>,
                SeriesError,
            >(day_views(totals@)),
            forall|i: int|
                0 <= i < totals.len() ==> iso_date(wanted[i]) == Some((#[trigger] totals[i]).label@),
        decreases wanted.len() - totals.len(),
    {
        let ghost done = totals.len() as int;
        let day: i32 = match range.next() {
            Some(day) => day,
            None => {
                assert(wanted.take(done) =~= wanted);
                return Ok(totals);
            },
        };
        proof {
            assert(day == wanted[done]);
            let upto = wanted.take(done + 1);
            assert(upto.drop_last() =~= wanted.take(done));
            assert(upto.last() == day);
            lemma_series_fails_early(all, zone@, wanted, done + 1);
            assert(wanted.skip(done).drop_first() =~= wanted.skip(done + 1));
        }
        let label = match iso_date_of(day) {
            Some(label) => label,
            None => {
                return Err(SeriesError::NoLabel { day });
            },
        };
        let seconds: i64 = match seconds_on(segments, &days, day, Ghost(zone@)) {
            Some(seconds) => seconds,
            None => {
                return Err(SeriesError::TooLong { day });
            },
        };
        let total = DayTotal { label, seconds };
        proof {
            assert(day_views(totals@.push(total)) =~= day_views(totals@).push(total@));
        }
        totals.push(total);
    }
}

/// The time spent on each day of the window: one entry for every calendar
/// day from the local date of `window_start` to the local date of
/// `window_end`, both included and in order. A segment counts for the day
/// on which it starts.
pub fn day_series(
    segments: &Vec<ClippedSegment>,
    zone: &str,
    window_start: Instant,
    window_end: Instant,
) -> (r: Result<Vec<DayTotal>, SeriesError>)
    requires
        well_formed(segment_views(segments@)),
    ensures
        match r {
            Ok(totals) => window_series(segment_views(segments@), zone@, window_start, window_end)
                == Ok::<Seq<DayEntry>, SeriesError>(day_views(totals@)),
            Err(e) => window_series(segment_views(segments@), zone@, window_start, window_end)
                == Err::<Seq<DayEntry>, SeriesError>(e),
        },
        r is Ok ==> r->Ok_0.len() == days_between(
            zone_day(zone@, window_start.secs)->Some_0,
            zone_day(zone@, window_end.secs)->Some_0,
        ).len(),
        r is Ok ==> forall|i: int|
            0 <= i < r->Ok_0.len() ==> iso_date(
                (zone_day(zone@, window_start.secs)->Some_0 + i) as i32,
            ) == Some((#[trigger] r->Ok_0[i]).label@),
{
    let first: i32 = match local_day(zone, window_start) {
        Some(day) => day,
        None => {
            return Err(SeriesError::NoWindowDate);
        },
    };
    let last: i32 = match local_day(zone, window_end) {
        Some(day) => day,
        None => {
            return Err(SeriesError::NoWindowDate);
        },
    };
    day_series_between(segments, zone, first, last)
}

/// An undated segment among the first `n` is the first undated of all.
proof fn lemma_first_undated_stays(segments: Seq<Segment>, n: int, zone: Seq<char>)
    requires
        0 <= n <= segments.len(),
    ensures
        first_undated(segments.take(n), zone) is Some ==> first_undated(segments, zone)
            == first_undated(segments.take(n), zone),
    decreases segments.len() - n,
{
    if n < segments.len() {
        lemma_first_undated_stays(segments, n + 1, zone);
        assert(segments.take(n + 1).drop_last() =~= segments.take(n));
    } else {
        assert(segments.take(n) =~= segments);
    }
}

/// A failure among the first `n` days is the failure of all the days.
proof fn lemma_series_fails_early(segments: Seq<Segment>, zone: Seq<char>, days: Seq<i32>, n: int)
    requires
        0 <= n <= days.len(),
    ensures
        series_over(segments, zone, days.take(n)) is Err ==> series_over(segments, zone, days)
            == series_over(segments, zone, days.take(n)),
    decreases days.len() - n,
{
    if n < days.len() {
        lemma_series_fails_early(segments, zone, days, n + 1);
        assert(days.take(n + 1).drop_last() =~= days.take(n));
    } else {
        assert(days.take(n) =~= days);
    }
}

/// The seconds that the first `n` segments spend on a day are not negative
/// and not more than the seconds that all spend on it.
proof fn lemma_day_seconds_grow(segments: Seq<Segment>, n: int, zone: Seq<char>, day: i32)
    requires
        well_formed(segments),
        0 <= n <= segments.len(),
    ensures
        0 <= day_seconds(segments.take(n), zone, day) <= day_seconds(segments, zone, day),
    decreases segments.len() - n,
{
    if n < segments.len() {
        lemma_day_seconds_grow(segments, n + 1, zone, day);
        assert(segments.take(n + 1).drop_last() =~= segments.take(n));
        assert(segments.take(n + 1).last() == segments[n]);
        lemma_day_seconds_not_negative(segments.take(n), zone, day);
    } else {
        assert(segments.take(n) =~= segments);
        lemma_day_seconds_not_negative(segments, zone, day);
    }
}

/// Well-formed segments spend no negative time on a day.
proof fn lemma_day_seconds_not_negative(segments: Seq<Segment>, zone: Seq<char>, day: i32)
    requires
        well_formed(segments),
    ensures
        0 <= day_seconds(segments, zone, day),
    decreases segments.len(),
{
    if segments.len() > 0 {
        assert forall|i: int| 0 <= i < segments.drop_last().len() implies (
        #[trigger] segments.drop_last()[i]).start <= segments.drop_last()[i].end by {
            assert(segments.drop_last()[i] == segments[i]);
        }
        lemma_day_seconds_not_negative(segments.drop_last(), zone, day);
        assert(segments.last() == segments[segments.len() - 1]);
    }
}

/// A series has one entry for each of its days, in their order: the date of
/// the day and the seconds spent on it.
pub proof fn lemma_series_is_dense(segments: Seq<Segment>, zone: Seq<char>, days: Seq<i32>)
    requires
        series_over(segments, zone, days) is Ok,
    ensures
        series_over(segments, zone, days)->Ok_0.len() == days.len(),
        forall|i: int|
            0 <= i < days.len() ==> {
                &&& iso_date(days[i]) == Some(
                    (#[trigger] series_over(segments, zone, days)->Ok_0[i]).label,
                )
                &&& series_over(segments, zone, days)->Ok_0[i].seconds == day_seconds(
                    segments,
                    zone,
                    days[i],
                )
            },
    decreases days.len(),
{
    if days.len() > 0 {
        lemma_series_is_dense(segments, zone, days.drop_last());
        let series = series_over(segments, zone, days)->Ok_0;
        let before = series_over(segments, zone, days.drop_last())->Ok_0;
        assert forall|i: int| 0 <= i < days.len() implies {
            &&& iso_date(days[i]) == Some((#[trigger] series[i]).label)
            &&& series[i].seconds == day_seconds(segments, zone, days[i])
        } by {
            if i < days.len() - 1 {
                assert(series[i] == before[i]);
                assert(days.drop_last()[i] == days[i]);
            }
        }
    }
}

} // verus!
