//! Entries cut into days and clipped to the reporting window.
//!
//! The window is the half-open range of epoch seconds from `window_start`
//! up to, not including, `window_end`. An entry counts if it starts or ends
//! inside the window. One that starts before the window and ends after it
//! does not count, though it covers the window whole: only entries with an
//! end inside are kept. The same holds, piece by piece, of an entry that
//! spans several days.

use vstd::prelude::*;
use crate::calendar::{parse_timestamp, read_clock, timestamp_instant};
use crate::entries::{log_entries, read_records, record_views, Entry, Record};
use crate::error::{Failure, ReportError, TimeField};
use crate::instant::{Instant, Interval};
use crate::splitter::{day_pieces, lemma_pieces_ordered, split_interval, SplitError};
use crate::tags::{space_separated, split_tags};
use crate::text::string_views;

verus! {

/// A piece of an entry that lies on one local day, with its ends moved
/// into the reporting window.
#[derive(Clone, Debug)]
pub struct ClippedSegment {
    /// Epoch second at which the piece starts.
    pub start: i64,
    /// Epoch second at which the piece ends.
    pub end: i64,
    /// Tags of the entry.
    pub tags: Vec<String>,
    /// Description of the entry.
    pub description: String,
}

/// What a `ClippedSegment` holds.
pub ghost struct Segment {
    pub start: i64,
    pub end: i64,
    pub tags: Seq<Seq<char>>,
    pub description: Seq<char>,
}

impl View for ClippedSegment {
    type V = Segment;

    open spec fn view(&self) -> Segment {
        Segment {
            start: self.start,
            end: self.end,
            tags: string_views(self.tags@),
            description: self.description@,
        }
    }
}

impl Segment {
    /// Seconds from start to end.
    pub open spec fn seconds(self) -> int {
        self.end - self.start
    }
}

/// What `segments` hold.
pub open spec fn segment_views(segments: Seq<ClippedSegment>) -> Seq<Segment> {
    segments.map_values(|segment: ClippedSegment| segment@)
}

/// Second `t` lies in the window.
pub open spec fn in_window(t: i64, window_start: i64, window_end: i64) -> bool {
    window_start <= t < window_end
}

/// `piece` starts or ends in the window.
pub open spec fn touches_window(piece: Interval, window_start: i64, window_end: i64) -> bool {
    in_window(piece.start.secs, window_start, window_end) || in_window(
        piece.end.secs,
        window_start,
        window_end,
    )
}

/// `piece` with its start moved up to the start of the window and its end
/// moved down to the end of the window, where they lie outside.
pub open spec fn clipped(
    piece: Interval,
    window_start: i64,
    window_end: i64,
    tags: Seq<Seq<char>>,
    description: Seq<char>,
) -> Segment {
    Segment {
        start: if piece.start.secs < window_start {
            window_start
        } else {
            piece.start.secs
        },
        end: if piece.end.secs > window_end {
            window_end
        } else {
            piece.end.secs
        },
        tags,
        description,
    }
}

/// The pieces that touch the window, clipped to it, in order.
pub open spec fn clipped_pieces(
    pieces: Seq<Interval>,
    window_start: i64,
    window_end: i64,
    tags: Seq<Seq<char>>,
    description: Seq<char>,
) -> Seq<Segment>
    decreases pieces.len(),
{
    if pieces.len() == 0 {
        Seq::<Segment>::empty()
    } else {
        let before = clipped_pieces(
            pieces.drop_last(),
            window_start,
            window_end,
            tags,
            description,
        );
        if touches_window(pieces.last(), window_start, window_end) {
            before.push(clipped(pieces.last(), window_start, window_end, tags, description))
        } else {
            before
        }
    }
}

/// The end of an entry: `now` while it is running, else what its end field
/// says.
pub open spec fn resolved_end(end: Seq<char>, now: Instant) -> Option<Instant> {
    if end.len() == 0 {
        Some(now)
    } else {
        timestamp_instant(end)
    }
}

/// The segments of the entry in row `row`.
///
/// Both timestamps are read before anything else, so a malformed one fails
/// the entry even where the entry lies outside the window. So does an end
/// before the start. An entry that does not touch the window gives no
/// segment and is not cut into days.
pub open spec fn entry_segments(
    entry: Entry,
    row: usize,
    window_start: i64,
    window_end: i64,
    zone: Seq<char>,
    now: Instant,
) -> Result<Seq<Segment>, Failure> {
    match timestamp_instant(entry.start) {
        None => Err(Failure::BadTimestamp { row, field: TimeField::Start, value: entry.start }),
        Some(start) => match resolved_end(entry.end, now) {
            None => Err(Failure::BadTimestamp { row, field: TimeField::End, value: entry.end }),
            Some(end) => if !start.at_or_before(end) {
                Err(Failure::EndBeforeStart { row })
            } else if !touches_window(Interval { start, end }, window_start, window_end) {
                Ok(Seq::<Segment>::empty())
            } else {
                match day_pieces(zone, start, end) {
                    Ok(pieces) => Ok(
                        clipped_pieces(
                            pieces,
                            window_start,
                            window_end,
                            space_separated(entry.tags),
                            entry.description,
                        ),
                    ),
                    Err(SplitError::NoMidnight) => Err(Failure::NoMidnight { row }),
                    Err(_) => Err(Failure::NoLocalDate { row }),
                }
            },
        },
    }
}

/// The segments of all `entries`, in the order of the entries and, within
/// an entry, of time; or the failure of the first entry that has one.
pub open spec fn grouped(
    entries: Seq<Entry>,
    window_start: i64,
    window_end: i64,
    zone: Seq<char>,
    now: Instant,
) -> Result<Seq<Segment>, Failure>
    decreases entries.len(),
{
    if entries.len() == 0 {
        Ok(Seq::<Segment>::empty())
    } else {
        match grouped(entries.drop_last(), window_start, window_end, zone, now) {
            Ok(before) => match entry_segments(
                entries.last(),
                (entries.len() - 1) as usize,
                window_start,
                window_end,
                zone,
                now,
            ) {
                Ok(more) => Ok(before + more),
                Err(e) => Err(e),
            },
            Err(e) => Err(e),
        }
    }
}

/// The segments of the log `data`.
pub open spec fn grouped_log(
    data: Seq<char>,
    window_start: i64,
    window_end: i64,
    zone: Seq<char>,
    now: Instant,
) -> Result<Seq<Segment>, Failure> {
    match log_entries(data) {
        Ok(entries) => grouped(entries, window_start, window_end, zone, now),
        Err(e) => Err(e),
    }
}

/// Every one of `segments` lies inside the window, ends included, and none
/// ends before it starts.
pub open spec fn within_window(segments: Seq<Segment>, window_start: i64, window_end: i64) -> bool {
    forall|i: int|
        0 <= i < segments.len() ==> window_start <= (#[trigger] segments[i]).start
            <= segments[i].end <= window_end
}

/// Appends to `out` the pieces that touch the window, clipped to it.
fn clip_pieces(
    pieces: &Vec<Interval>,
    window_start: i64,
    window_end: i64,
    record: &Record,
    out: &mut Vec<ClippedSegment>,
)
    ensures
        segment_views(final(out)@) == segment_views(old(out)@) + clipped_pieces(
            pieces@,
            window_start,
            window_end,
            space_separated(record.tags@),
            record.description@,
        ),
{
    let ghost tags = space_separated(record.tags@);
    let ghost description = record.description@;
    let ghost before = segment_views(out@);
    let mut i: usize = 0;
    assert(pieces@.take(0) =~= Seq::<Interval>::empty());
    assert(before + Seq::<Segment>::empty() =~= before);
    while i < pieces.len()
        invariant
            i <= pieces.len(),
            tags == space_separated(record.tags@),
            description == record.description@,
            segment_views(out@) == before + clipped_pieces(
                pieces@.take(i as int),
                window_start,
                window_end,
                tags,
                description,
            ),
        decreases pieces.len() - i,
    {
        let piece = pieces[i];
        proof {
            let upto = pieces@.take(i + 1);
            assert(upto.drop_last() =~= pieces@.take(i as int));
            assert(upto.last() == piece);
        }
        let starts_inside = window_start <= piece.start.secs && piece.start.secs < window_end;
        let ends_inside = window_start <= piece.end.secs && piece.end.secs < window_end;
        if starts_inside || ends_inside {
            let segment = ClippedSegment {
                start: if piece.start.secs < window_start {
                    window_start
                } else {
                    piece.start.secs
                },
                end: if piece.end.secs > window_end {
                    window_end
                } else {
                    piece.end.secs
                },
                tags: split_tags(record.tags.as_str()),
                description: record.description.clone(),
            };
            proof {
                let earlier = clipped_pieces(
                    pieces@.take(i as int),
                    window_start,
                    window_end,
                    tags,
                    description,
                );
                assert(segment@ == clipped(piece, window_start, window_end, tags, description));
                assert(segment_views(out@.push(segment)) =~= segment_views(out@).push(segment@));
                assert((before + earlier).push(segment@) =~= before + earlier.push(segment@));
            }
            out.push(segment);
        }
        i = i + 1;
    }
    assert(pieces@.take(i as int) =~= pieces@);
}

/// Appends to `out` the segments of the entry in row `row`.
fn group_record(
    record: &Record,
    row: usize,
    window_start: i64,
    window_end: i64,
    zone: &str,
    now: Instant,
    out: &mut Vec<ClippedSegment>,
) -> (r: Result<(), ReportError>)
    ensures
        match r {
            Ok(_) => {
                &&& entry_segments(record@, row, window_start, window_end, zone@, now) is Ok
                &&& segment_views(final(out)@) == segment_views(old(out)@) + entry_segments(
                    record@,
                    row,
                    window_start,
                    window_end,
                    zone@,
                    now,
                )->Ok_0
            },
            Err(e) => entry_segments(record@, row, window_start, window_end, zone@, now) == Err::<
                Seq<Segment>,
                Failure,
            >(e@),
        },
{
    let start = match parse_timestamp(record.start.as_str()) {
        Some(start) => start,
        None => {
            return Err(
                ReportError::BadTimestamp {
                    row,
                    field: TimeField::Start,
                    value: record.start.clone(),
                },
            );
        },
    };
    let end = if record.end.as_str().is_empty() {
        now
    } else {
        match parse_timestamp(record.end.as_str()) {
            Some(end) => end,
            None => {
                return Err(
                    ReportError::BadTimestamp {
                        row,
                        field: TimeField::End,
                        value: record.end.clone(),
                    },
                );
            },
        }
    };
    if !start.is_at_or_before(&end) {
        return Err(ReportError::EndBeforeStart { row });
    }
    let starts_inside = window_start <= start.secs && start.secs < window_end;
    let ends_inside = window_start <= end.secs && end.secs < window_end;
    if !starts_inside && !ends_inside {
        assert(segment_views(out@) + Seq::<Segment>::empty() =~= segment_views(out@));
        return Ok(());
    }
    match split_interval(zone, start, end) {
        Ok(pieces) => {
            clip_pieces(&pieces, window_start, window_end, record, out);
            Ok(())
        },
        Err(SplitError::NoMidnight) => Err(ReportError::NoMidnight { row }),
        Err(_) => Err(ReportError::NoLocalDate { row }),
    }
}

/// Cuts every entry into its days and clips the pieces to the window.
///
/// The segments come in the order of `records` and, within a record, in
/// order of time. An entry with an empty end is taken to run until `now`.
/// The first entry that cannot be read or cut fails the whole log.
pub fn group_records(
    records: &Vec<Record>,
    window_start: i64,
    window_end: i64,
    zone: &str,
    now: Instant,
) -> (r: Result<Vec<ClippedSegment>, ReportError>)
    ensures
        match r {
            Ok(segments) => grouped(record_views(records@), window_start, window_end, zone@, now)
                == Ok::<Seq<Segment>, Failure>(segment_views(segments@)),
            Err(e) => grouped(record_views(records@), window_start, window_end, zone@, now) == Err::<
                Seq<Segment>,
                Failure,
            >(e@),
        },
        r is Ok ==> within_window(segment_views(r->Ok_0@), window_start, window_end),
{
    let ghost entries = record_views(records@);
    let mut out: Vec<ClippedSegment> = Vec::new();
    let mut i: usize = 0;
    assert(entries.take(0) =~= Seq::<Entry>::empty());
    assert(segment_views(out@) =~= Seq::<Segment>::empty());
    while i < records.len()
        invariant
            i <= records.len(),
            entries == record_views(records@),
            grouped(entries.take(i as int), window_start, window_end, zone@, now) == Ok::<
                Seq<Segment>,
                Failure,
            >(segment_views(out@)),
        decreases records.len() - i,
    {
        proof {
            let upto = entries.take(i + 1);
            assert(upto.drop_last() =~= entries.take(i as int));
            assert(upto.last() == records[i as int]@);
            lemma_grouped_fails_early(entries, i + 1, window_start, window_end, zone@, now);
        }
        match group_record(&records[i], i, window_start, window_end, zone, now, &mut out) {
            Ok(_) => {},
            Err(e) => {
                return Err(e);
            },
        }
        i = i + 1;
    }
    proof {
        assert(entries.take(i as int) =~= entries);
        lemma_grouped_within_window(entries, window_start, window_end, zone@, now);
    }
    Ok(out)
}

/// Reads the log `data` and groups its entries as `group_records` does,
/// with `now` as the end of running entries.
pub fn group_by_day_at(
    data: &str,
    window_start: i64,
    window_end: i64,
    zone: &str,
    now: Instant,
) -> (r: Result<Vec<ClippedSegment>, ReportError>)
    ensures
        match r {
            Ok(segments) => grouped_log(data@, window_start, window_end, zone@, now) == Ok::<
                Seq<Segment>,
                Failure,
            >(segment_views(segments@)),
            Err(e) => grouped_log(data@, window_start, window_end, zone@, now) == Err::<
                Seq<Segment>,
                Failure,
            >(e@),
        },
        r is Ok ==> within_window(segment_views(r->Ok_0@), window_start, window_end),
{
    match read_records(data) {
        Ok(records) => group_records(&records, window_start, window_end, zone, now),
        Err(e) => Err(e),
    }
}

/// Every one of `entries` has an end: none is still running.
pub open spec fn all_ended(entries: Seq<Entry>) -> bool {
    forall|i: int| 0 <= i < entries.len() ==> (#[trigger] entries[i]).end.len() > 0
}

/// `result` holds what `expected` holds.
pub open spec fn is_outcome(
    result: Result<Vec<ClippedSegment>, ReportError>,
    expected: Result<Seq<Segment>, Failure>,
) -> bool {
    match result {
        Ok(segments) => expected == Ok::<Seq<Segment>, Failure>(segment_views(segments@)),
        Err(e) => expected == Err::<Seq<Segment>, Failure>(e@),
    }
}

/// Whether every record has an end.
fn have_all_ended(records: &Vec<Record>) -> (r: bool)
    ensures
        r == all_ended(record_views(records@)),
{
    let mut i: usize = 0;
    while i < records.len()
        invariant
            i <= records.len(),
            forall|k: int| 0 <= k < i ==> (#[trigger] record_views(records@)[k]).end.len() > 0,
        decreases records.len() - i,
    {
        if records[i].end.as_str().is_empty() {
            assert(record_views(records@)[i as int].end.len() == 0);
            return false;
        }
        i = i + 1;
    }
    true
}

/// Reads the log `data` and groups its entries, with the reading of the
/// system clock as the end of running entries.
///
/// The clock is read once, and only where the log can be read and holds a
/// running entry. For any other log the result is that of
/// `group_by_day_at`, whatever instant that is given.
pub fn group_by_day(data: &str, window_start: i64, window_end: i64, zone: &str) -> (r: Result<
    Vec<ClippedSegment>,
    ReportError,
>)
    ensures
        exists|now: Instant|
            now.valid() && is_outcome(
                r,
                #[trigger] grouped_log(data@, window_start, window_end, zone@, now),
            ),
        log_entries(data@) is Err || all_ended(log_entries(data@)->Ok_0) ==> forall|now: Instant|
            is_outcome(r, #[trigger] grouped_log(data@, window_start, window_end, zone@, now)),
        r is Ok ==> within_window(segment_views(r->Ok_0@), window_start, window_end),
{
    let records = match read_records(data) {
        Ok(records) => records,
        Err(e) => {
            let ghost any = Instant { secs: 0, nanos: 0 };
            assert(grouped_log(data@, window_start, window_end, zone@, any) == Err::<
                Seq<Segment>,
                Failure,
            >(e@));
            return Err(e);
        },
    };
    let ended = have_all_ended(&records);
    let now = if ended {
        Instant::from_secs(0)
    } else {
        read_clock()
    };
    let r = group_records(&records, window_start, window_end, zone, now);
    proof {
        let entries = record_views(records@);
        assert(is_outcome(r, grouped_log(data@, window_start, window_end, zone@, now)));
        if ended {
            assert forall|other: Instant|
                is_outcome(
                    r,
                    #[trigger] grouped_log(data@, window_start, window_end, zone@, other),
                ) by {
                lemma_grouped_without_clock(entries, window_start, window_end, zone@, now, other);
            }
        }
    }
    r
}

/// Where every entry has an end, the segments do not depend on the time at
/// which they are made.
pub proof fn lemma_grouped_without_clock(
    entries: Seq<Entry>,
    window_start: i64,
    window_end: i64,
    zone: Seq<char>,
    now: Instant,
    other: Instant,
)
    requires
        all_ended(entries),
    ensures
        grouped(entries, window_start, window_end, zone, now) == grouped(
            entries,
            window_start,
            window_end,
            zone,
            other,
        ),
    decreases entries.len(),
{
    if entries.len() > 0 {
        assert forall|i: int| 0 <= i < entries.drop_last().len() implies (
        #[trigger] entries.drop_last()[i]).end.len() > 0 by {
            assert(entries.drop_last()[i] == entries[i]);
        }
        lemma_grouped_without_clock(
            entries.drop_last(),
            window_start,
            window_end,
            zone,
            now,
            other,
        );
        assert(entries.last() == entries[entries.len() - 1]);
    }
}

/// A failure among the first `n` entries is the failure of all of them.
proof fn lemma_grouped_fails_early(
    entries: Seq<Entry>,
    n: int,
    window_start: i64,
    window_end: i64,
    zone: Seq<char>,
    now: Instant,
)
    requires
        0 <= n <= entries.len(),
    ensures
        grouped(entries.take(n), window_start, window_end, zone, now) is Err ==> grouped(
            entries,
            window_start,
            window_end,
            zone,
            now,
        ) == grouped(entries.take(n), window_start, window_end, zone, now),
    decreases entries.len() - n,
{
    if n < entries.len() {
        lemma_grouped_fails_early(entries, n + 1, window_start, window_end, zone, now);
        assert(entries.take(n + 1).drop_last() =~= entries.take(n));
    } else {
        assert(entries.take(n) =~= entries);
    }
}

/// Clipping pieces that do not end before they start gives segments inside
/// the window.
proof fn lemma_clipped_within_window(
    pieces: Seq<Interval>,
    window_start: i64,
    window_end: i64,
    tags: Seq<Seq<char>>,
    description: Seq<char>,
)
    requires
        forall|i: int| 0 <= i < pieces.len() ==> (#[trigger] pieces[i]).start.at_or_before(pieces[i].end),
    ensures
        within_window(
            clipped_pieces(pieces, window_start, window_end, tags, description),
            window_start,
            window_end,
        ),
    decreases pieces.len(),
{
    if pieces.len() > 0 {
        let shorter = pieces.drop_last();
        assert forall|i: int| 0 <= i < shorter.len() implies (#[trigger] shorter[i]).start.at_or_before(
            shorter[i].end,
        ) by {
            assert(shorter[i] == pieces[i]);
        }
        lemma_clipped_within_window(shorter, window_start, window_end, tags, description);
        assert(pieces.last() == pieces[pieces.len() - 1]);
    }
}

/// Every segment of a log lies inside the reporting window, ends included,
/// and none ends before it starts.
pub proof fn lemma_grouped_within_window(
    entries: Seq<Entry>,
    window_start: i64,
    window_end: i64,
    zone: Seq<char>,
    now: Instant,
)
    requires
        grouped(entries, window_start, window_end, zone, now) is Ok,
    ensures
        within_window(
            grouped(entries, window_start, window_end, zone, now)->Ok_0,
            window_start,
            window_end,
        ),
    decreases entries.len(),
{
    if entries.len() > 0 {
        lemma_grouped_within_window(entries.drop_last(), window_start, window_end, zone, now);
        let entry = entries.last();
        let start = timestamp_instant(entry.start)->Some_0;
        let end = resolved_end(entry.end, now)->Some_0;
        if touches_window(Interval { start, end }, window_start, window_end) {
            lemma_pieces_ordered(zone, start, end);
            lemma_clipped_within_window(
                day_pieces(zone, start, end)->Ok_0,
                window_start,
                window_end,
                space_separated(entry.tags),
                entry.description,
            );
        }
    }
}

} // verus!
