//! The list of entries of a report: what was done and for how long.

use vstd::prelude::*;
use crate::clock_text::{clock_string, clock_text};
use crate::grouper::{segment_views, ClippedSegment, Segment};
use crate::totals::well_formed;

verus! {

/// One line of the list: a description and a duration as `HH:MM:SS`.
#[derive(Clone, Debug)]
pub struct EntryLine {
    pub description: String,
    pub duration: String,
}

/// What an `EntryLine` holds.
pub ghost struct Line {
    pub description: Seq<char>,
    pub duration: Seq<char>,
}

impl View for EntryLine {
    type V = Line;

    open spec fn view(&self) -> Line {
        Line { description: self.description@, duration: self.duration@ }
    }
}

/// What `lines` hold.
pub open spec fn line_views(lines: Seq<EntryLine>) -> Seq<Line> {
    lines.map_values(|line: EntryLine| line@)
}

/// The line of `segment`.
pub open spec fn line_of(segment: Segment) -> Line {
    Line { description: segment.description, duration: clock_text(segment.seconds()) }
}

/// One line for each segment, in order: its description and its length.
pub fn entry_lines(segments: &Vec<ClippedSegment>) -> (lines: Vec<EntryLine>)
    requires
        well_formed(segment_views(segments@)),
    ensures
        line_views(lines@) == segment_views(segments@).map_values(|s: Segment| line_of(s)),
{
    let ghost all = segment_views(segments@);
    let mut lines: Vec<EntryLine> = Vec::new();
    let mut i: usize = 0;
    while i < segments.len()
        invariant
            i <= segments.len(),
            all == segment_views(segments@),
            well_formed(all),
            lines.len() == i,
            forall|k: int| 0 <= k < i ==> (#[trigger] lines[k])@ == line_of(all[k]),
        decreases segments.len() - i,
    {
        let segment = &segments[i];
        assert(all[i as int] == segment@);
        let length: i128 = segment.end as i128 - segment.start as i128;
        let line = EntryLine {
            description: segment.description.clone(),
            duration: clock_string(false, length as u64),
        };
        lines.push(line);
        i = i + 1;
    }
    assert(line_views(lines@) =~= all.map_values(|s: Segment| line_of(s)));
    lines
}

} // verus!
