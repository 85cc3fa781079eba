//! Cutting a span of time at the local midnights it crosses.

use vstd::prelude::*;
use crate::calendar::{day_start_after, local_day, local_day_begin_after, zone_day};
use crate::instant::{lemma_order_is_that_of_nanos, Instant, Interval};

verus! {

/// Why a span could not be cut into days.
#[derive(Clone, Copy, Debug, PartialEq, Eq, Structural)]
pub enum SplitError {
    /// The span ends before it starts.
    EndBeforeStart,
    /// The zone is unknown, or an end of the span has no local date.
    NoLocalDate,
    /// The day after one that the span touches has no beginning that can
    /// serve as a cut: the time zone table gives none, or the instant it
    /// gives does not lie after the point reached and at or before the end
    /// of the span, or does not fall on a later day.
    NoMidnight,
}

/// Instant `at` falls on a local day of `zone` that comes after `day`.
pub open spec fn on_later_day(zone: Seq<char>, at: Instant, day: i32) -> bool {
    zone_day(zone, at.secs) is Some && zone_day(zone, at.secs)->Some_0 > day
}

/// The instant at which the local day of `from` is over in `zone`: the
/// beginning of the next calendar day, where it lies after `from` and not
/// after `end` and falls on a later day than `from` does.
///
/// The next day begins at local midnight. Where the clocks read that
/// midnight twice, it is the first reading after `from`. Where they skip
/// it, it is the instant at which they go on, which falls on the day after
/// next where they skip the whole next day.
pub open spec fn next_day_start(zone: Seq<char>, from: Instant, end: Instant) -> Option<Instant> {
    match zone_day(zone, from.secs) {
        Some(day) if day < i32::MAX => match day_start_after(zone, (day + 1) as i32, from) {
            Some(cut) if from.before(cut) && cut.at_or_before(end) && on_later_day(zone, cut, day)
                => Some(cut),
            _ => None,
        },
        _ => None,
    }
}

/// The pieces of the span from `from` to `end`, one for each local day of
/// `zone` that the span touches: every piece but the last ends at the start
/// of the next day, and the last ends at `end`.
pub open spec fn day_pieces(zone: Seq<char>, from: Instant, end: Instant) -> Result<
    Seq<Interval>,
    SplitError,
>
    decreases end.secs - from.secs,
{
    if !from.at_or_before(end) {
        Err(SplitError::EndBeforeStart)
    } else if zone_day(zone, from.secs) is None || zone_day(zone, end.secs) is None {
        Err(SplitError::NoLocalDate)
    } else if zone_day(zone, from.secs) == zone_day(zone, end.secs) {
        Ok(seq![Interval { start: from, end }])
    } else {
        match next_day_start(zone, from, end) {
            Some(cut) => match day_pieces(zone, cut, end) {
                Ok(rest) => Ok(seq![Interval { start: from, end: cut }] + rest),
                Err(e) => Err(e),
            },
            None => Err(SplitError::NoMidnight),
        }
    }
}

/// Sum of the lengths of `pieces`, in nanoseconds.
pub open spec fn total_nanos(pieces: Seq<Interval>) -> int
    decreases pieces.len(),
{
    if pieces.len() == 0 {
        0
    } else {
        total_nanos(pieces.drop_last()) + pieces.last().duration_nanos()
    }
}

/// `pieces` lead from `start` to `end` without gap or overlap: the first
/// begins at `start`, each begins where the one before it ends, and the
/// last ends at `end`.
pub open spec fn chained(pieces: Seq<Interval>, start: Instant, end: Instant) -> bool {
    &&& pieces.len() > 0
    &&& pieces[0].start == start
    &&& pieces.last().end == end
    &&& forall|i: int| 0 <= i < pieces.len() - 1 ==> (#[trigger] pieces[i]).end == pieces[i + 1].start
}

/// The start of the local day after the one `from` falls on, if it can
/// serve as the next cut of a span that ends at `end`.
fn find_next_day_start(zone: &str, from: Instant, day: i32, end: Instant) -> (r: Option<Instant>)
    requires
        zone_day(zone@, from.secs) == Some(day),
    ensures
        r == next_day_start(zone@, from, end),
{
    if day == i32::MAX {
        return None;
    }
    let next: i32 = day + 1;
    match local_day_begin_after(zone, next, from) {
        Some(cut) => {
            if from.is_before(&cut) && cut.is_at_or_before(&end) {
                match local_day(zone, cut) {
                    Some(reached) => if reached > day {
                        Some(cut)
                    } else {
                        None
                    },
                    None => None,
                }
            } else {
                None
            }
        },
        None => None,
    }
}

/// Cuts the span from `start` to `end` at every local midnight of `zone`
/// that it crosses.
///
/// The pieces come in order of time. A span whose ends share a local date
/// comes back whole. Where the zone's clocks read a midnight twice, the cut
/// is made at the first reading after the point reached; where they skip a
/// midnight, the cut is made at the instant at which they go on.
pub fn split_interval(zone: &str, start: Instant, end: Instant) -> (r: Result<
    Vec<Interval>,
    SplitError,
>)
    ensures
        match r {
            Ok(pieces) => day_pieces(zone@, start, end) == Ok::<Seq<Interval>, SplitError>(pieces@),
            Err(e) => day_pieces(zone@, start, end) == Err::<Seq<Interval>, SplitError>(e),
        },
        r is Ok ==> chained(r->Ok_0@, start, end),
        r is Ok ==> total_nanos(r->Ok_0@) == end.total_nanos() - start.total_nanos(),
{
    if !start.is_at_or_before(&end) {
        return Err(SplitError::EndBeforeStart);
    }
    let last_day: i32 = match local_day(zone, end) {
        Some(day) => day,
        None => {
            return Err(SplitError::NoLocalDate);
        },
    };
    let mut pieces: Vec<Interval> = Vec::new();
    let mut current = start;
    loop
        invariant
            current.at_or_before(end),
            zone_day(zone@, end.secs) == Some(last_day),
            day_pieces(zone@, start, end) == prepend(pieces@, day_pieces(zone@, current, end)),
        decreases end.secs - current.secs,
    {
        let day: i32 = match local_day(zone, current) {
            Some(day) => day,
            None => {
                return Err(SplitError::NoLocalDate);
            },
        };
        if day == last_day {
            proof {
                let tail = seq![Interval { start: current, end }];
                assert(pieces@.push(Interval { start: current, end }) =~= pieces@ + tail);
                lemma_pieces_shape(zone@, start, end);
            }
            pieces.push(Interval { start: current, end });
            return Ok(pieces);
        }
        match find_next_day_start(zone, current, day, end) {
            Some(cut) => {
                proof {
                    let rest = day_pieces(zone@, cut, end);
                    let head = seq![Interval { start: current, end: cut }];
                    if rest is Ok {
                        assert((pieces@ + head) + rest->Ok_0 =~= pieces@ + (head + rest->Ok_0));
                    }
                    assert(pieces@.push(Interval { start: current, end: cut }) =~= pieces@ + head);
                }
                pieces.push(Interval { start: current, end: cut });
                current = cut;
            },
            None => {
                return Err(SplitError::NoMidnight);
            },
        }
    }
}

/// `pieces` followed by what `rest` holds; the error of `rest` where it
/// holds none.
spec fn prepend(pieces: Seq<Interval>, rest: Result<Seq<Interval>, SplitError>) -> Result<
    Seq<Interval>,
    SplitError,
> {
    match rest {
        Ok(more) => Ok(pieces + more),
        Err(e) => Err(e),
    }
}

/// The pieces of a span lead from its start to its end without gap or
/// overlap, and their lengths add up to the length of the span.
pub proof fn lemma_pieces_shape(zone: Seq<char>, start: Instant, end: Instant)
    requires
        day_pieces(zone, start, end) is Ok,
    ensures
        chained(day_pieces(zone, start, end)->Ok_0, start, end),
        total_nanos(day_pieces(zone, start, end)->Ok_0) == end.total_nanos() - start.total_nanos(),
    decreases end.secs - start.secs,
{
    let pieces = day_pieces(zone, start, end)->Ok_0;
    if zone_day(zone, start.secs) == zone_day(zone, end.secs) {
        assert(pieces.drop_last() =~= Seq::<Interval>::empty());
        assert(total_nanos(pieces.drop_last()) == 0);
    } else {
        let cut = next_day_start(zone, start, end)->Some_0;
        lemma_pieces_shape(zone, cut, end);
        let rest = day_pieces(zone, cut, end)->Ok_0;
        let head = Interval { start, end: cut };
        assert(pieces =~= seq![head] + rest);
        lemma_total_nanos_prepend(head, rest);
        assert forall|i: int| 0 <= i < pieces.len() - 1 implies (#[trigger] pieces[i]).end
            == pieces[i + 1].start by {
            if i > 0 {
                assert(pieces[i] == rest[i - 1]);
                assert(pieces[i + 1] == rest[i]);
            }
        }
    }
}

/// Putting a piece in front adds its length to the total.
proof fn lemma_total_nanos_prepend(head: Interval, rest: Seq<Interval>)
    ensures
        total_nanos(seq![head] + rest) == head.duration_nanos() + total_nanos(rest),
    decreases rest.len(),
{
    let all = seq![head] + rest;
    if rest.len() == 0 {
        assert(all.drop_last() =~= Seq::<Interval>::empty());
        assert(total_nanos(all.drop_last()) == 0);
        assert(all.last() == head);
    } else {
        assert(all.drop_last() =~= seq![head] + rest.drop_last());
        assert(all.last() == rest.last());
        lemma_total_nanos_prepend(head, rest.drop_last());
    }
}

/// A span whose ends share a local date comes back whole.
pub proof fn lemma_same_day_is_whole(zone: Seq<char>, start: Instant, end: Instant)
    requires
        start.at_or_before(end),
        zone_day(zone, start.secs) is Some,
        zone_day(zone, start.secs) == zone_day(zone, end.secs),
    ensures
        day_pieces(zone, start, end) == Ok::<Seq<Interval>, SplitError>(
            seq![Interval { start, end }],
        ),
{
}

/// No piece of a span ends before it starts.
pub proof fn lemma_pieces_ordered(zone: Seq<char>, start: Instant, end: Instant)
    requires
        day_pieces(zone, start, end) is Ok,
    ensures
        forall|i: int|
            0 <= i < day_pieces(zone, start, end)->Ok_0.len() ==> (#[trigger] day_pieces(
                zone,
                start,
                end,
            )->Ok_0[i]).start.at_or_before(day_pieces(zone, start, end)->Ok_0[i].end),
    decreases end.secs - start.secs,
{
    if zone_day(zone, start.secs) != zone_day(zone, end.secs) {
        let cut = next_day_start(zone, start, end)->Some_0;
        lemma_pieces_ordered(zone, cut, end);
    }
}

/// The pieces of a span begin on ever later local days, the first on the
/// day of its start and the last on the day of its end: there are no more
/// pieces than days.
pub proof fn lemma_pieces_days(zone: Seq<char>, start: Instant, end: Instant)
    requires
        day_pieces(zone, start, end) is Ok,
    ensures
        zone_day(zone, start.secs) is Some,
        zone_day(zone, end.secs) is Some,
        day_pieces(zone, start, end)->Ok_0.len() <= zone_day(zone, end.secs)->Some_0 - zone_day(
            zone,
            start.secs,
        )->Some_0 + 1,
        zone_day(zone, day_pieces(zone, start, end)->Ok_0.last().start.secs) == zone_day(
            zone,
            end.secs,
        ),
        forall|i: int|
            0 <= i < day_pieces(zone, start, end)->Ok_0.len() - 1 ==> on_later_day(
                zone,
                day_pieces(zone, start, end)->Ok_0[i + 1].start,
                zone_day(zone, (#[trigger] day_pieces(zone, start, end)->Ok_0[i]).start.secs)->Some_0,
            ),
    decreases end.secs - start.secs,
{
    if zone_day(zone, start.secs) != zone_day(zone, end.secs) {
        let cut = next_day_start(zone, start, end)->Some_0;
        lemma_pieces_days(zone, cut, end);
        let pieces = day_pieces(zone, start, end)->Ok_0;
        let rest = day_pieces(zone, cut, end)->Ok_0;
        assert(pieces.last() == rest.last());
        assert forall|i: int| 0 <= i < pieces.len() - 1 implies on_later_day(
            zone,
            pieces[i + 1].start,
            zone_day(zone, (#[trigger] pieces[i]).start.secs)->Some_0,
        ) by {
            assert(pieces[i + 1] == rest[i]);
            if i > 0 {
                assert(pieces[i] == rest[i - 1]);
            } else {
                lemma_pieces_shape(zone, cut, end);
            }
        }
    }
}

/// Between valid instants no piece has a negative length, and the ends of
/// every piece are valid.
pub proof fn lemma_pieces_not_negative(zone: Seq<char>, start: Instant, end: Instant)
    requires
        start.valid(),
        end.valid(),
        day_pieces(zone, start, end) is Ok,
    ensures
        forall|i: int|
            0 <= i < day_pieces(zone, start, end)->Ok_0.len() ==> {
                &&& (#[trigger] day_pieces(zone, start, end)->Ok_0[i]).start.valid()
                &&& day_pieces(zone, start, end)->Ok_0[i].end.valid()
                &&& day_pieces(zone, start, end)->Ok_0[i].duration_nanos() >= 0
            },
    decreases end.secs - start.secs,
{
    if zone_day(zone, start.secs) != zone_day(zone, end.secs) {
        let cut = next_day_start(zone, start, end)->Some_0;
        lemma_pieces_not_negative(zone, cut, end);
        lemma_order_is_that_of_nanos(start, cut);
    } else {
        lemma_order_is_that_of_nanos(start, end);
    }
}

} // verus!
