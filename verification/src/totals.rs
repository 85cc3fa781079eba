//! The time that the segments of a report add up to.

use vstd::prelude::*;
use crate::grouper::{segment_views, within_window, ClippedSegment, Segment};

verus! {

/// No segment ends before it starts.
pub open spec fn well_formed(segments: Seq<Segment>) -> bool {
    forall|i: int| 0 <= i < segments.len() ==> (#[trigger] segments[i]).start <= segments[i].end
}

/// Sum of the lengths of `segments`, in seconds.
pub open spec fn seconds_sum(segments: Seq<Segment>) -> int
    decreases segments.len(),
{
    if segments.len() == 0 {
        0
    } else {
        seconds_sum(segments.drop_last()) + segments.last().seconds()
    }
}

/// Whether no segment ends before it starts.
pub fn are_well_formed(segments: &Vec<ClippedSegment>) -> (r: bool)
    ensures
        r == well_formed(segment_views(segments@)),
{
    let mut i: usize = 0;
    while i < segments.len()
        invariant
            i <= segments.len(),
            forall|k: int| 0 <= k < i ==> (#[trigger] segment_views(segments@)[k]).start <= segment_views(
                segments@,
            )[k].end,
        decreases segments.len() - i,
    {
        if segments[i].start > segments[i].end {
            assert(segment_views(segments@)[i as int].start > segment_views(segments@)[i as int].end);
            return false;
        }
        i = i + 1;
    }
    true
}

/// The total length of `segments` in seconds, or `None` where it is more
/// than an `i64` holds.
pub fn total_seconds(segments: &Vec<ClippedSegment>) -> (r: Option<i64>)
    requires
        well_formed(segment_views(segments@)),
    ensures
        match r {
            Some(total) => total == seconds_sum(segment_views(segments@)),
            None => seconds_sum(segment_views(segments@)) > i64::MAX,
        },
{
    let ghost all = segment_views(segments@);
    let mut total: i64 = 0;
    let mut i: usize = 0;
    assert(all.take(0) =~= Seq::<Segment>::empty());
    while i < segments.len()
        invariant
            i <= segments.len(),
            all == segment_views(segments@),
            well_formed(all),
            0 <= total == seconds_sum(all.take(i as int)),
        decreases segments.len() - i,
    {
        let segment = &segments[i];
        proof {
            let upto = all.take(i + 1);
            assert(upto.drop_last() =~= all.take(i as int));
            assert(upto.last() == all[i as int]);
            assert(all[i as int] == segment@);
            lemma_seconds_sum_grows(all, i + 1);
        }
        let length: i128 = segment.end as i128 - segment.start as i128;
        let grown: i128 = total as i128 + length;
        if grown > i64::MAX as i128 {
            return None;
        }
        total = grown as i64;
        i = i + 1;
    }
    assert(all.take(i as int) =~= all);
    Some(total)
}

/// The total of the first `n` segments is not negative and not more than
/// the total of all.
pub proof fn lemma_seconds_sum_grows(segments: Seq<Segment>, n: int)
    requires
        well_formed(segments),
        0 <= n <= segments.len(),
    ensures
        0 <= seconds_sum(segments.take(n)) <= seconds_sum(segments),
    decreases segments.len() - n,
{
    if n < segments.len() {
        lemma_seconds_sum_grows(segments, n + 1);
        assert(segments.take(n + 1).drop_last() =~= segments.take(n));
        assert(segments.take(n + 1).last() == segments[n]);
        lemma_seconds_sum_not_negative(segments.take(n));
    } else {
        assert(segments.take(n) =~= segments);
        lemma_seconds_sum_not_negative(segments);
    }
}

/// Well-formed segments have no negative total.
proof fn lemma_seconds_sum_not_negative(segments: Seq<Segment>)
    requires
        well_formed(segments),
    ensures
        0 <= seconds_sum(segments),
    decreases segments.len(),
{
    if segments.len() > 0 {
        assert forall|i: int| 0 <= i < segments.drop_last().len() implies (
        #[trigger] segments.drop_last()[i]).start <= segments.drop_last()[i].end by {
            assert(segments.drop_last()[i] == segments[i]);
        }
        lemma_seconds_sum_not_negative(segments.drop_last());
        assert(segments.last() == segments[segments.len() - 1]);
    }
}

/// Segments inside a window are well formed.
pub proof fn lemma_within_window_well_formed(
    segments: Seq<Segment>,
    window_start: i64,
    window_end: i64,
)
    requires
        within_window(segments, window_start, window_end),
    ensures
        well_formed(segments),
{
}

} // verus!
