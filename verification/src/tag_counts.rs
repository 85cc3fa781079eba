//! How often each tag occurs among the segments of a report.

use vstd::prelude::*;
use crate::grouper::{segment_views, ClippedSegment, Segment};
use crate::text::string_views;

verus! {

/// A tag and the number of times it occurs.
#[derive(Clone, Debug)]
pub struct TagCount {
    pub tag: String,
    pub count: usize,
}

/// What a `TagCount` holds.
pub ghost struct Tally {
    pub tag: Seq<char>,
    pub count: nat,
}

impl View for TagCount {
    type V = Tally;

    open spec fn view(&self) -> Tally {
        Tally { tag: self.tag@, count: self.count as nat }
    }
}

/// What `counts` hold.
pub open spec fn tally_views(counts: Seq<TagCount>) -> Seq<Tally> {
    counts.map_values(|c: TagCount| c@)
}

/// The tags of all `segments`, in order, each as often as it is written.
pub open spec fn tags_of(segments: Seq<Segment>) -> Seq<Seq<char>>
    decreases segments.len(),
{
    if segments.len() == 0 {
        Seq::<Seq<char>>::empty()
    } else {
        tags_of(segments.drop_last()) + segments.last().tags
    }
}

/// Number of times that `tag` occurs in `tags`.
pub open spec fn occurrences(tags: Seq<Seq<char>>, tag: Seq<char>) -> nat
    decreases tags.len(),
{
    if tags.len() == 0 {
        0
    } else {
        occurrences(tags.drop_last(), tag) + if tags.last() == tag {
            1nat
        } else {
            0nat
        }
    }
}

/// The tags that occur in `tags`, each once, in the order in which they
/// first occur.
pub open spec fn distinct(tags: Seq<Seq<char>>) -> Seq<Seq<char>>
    decreases tags.len(),
{
    if tags.len() == 0 {
        Seq::<Seq<char>>::empty()
    } else {
        let before = distinct(tags.drop_last());
        if before.contains(tags.last()) {
            before
        } else {
            before.push(tags.last())
        }
    }
}

/// Each tag that occurs in `tags` with the number of its occurrences, in
/// the order in which the tags first occur.
pub open spec fn tallies(tags: Seq<Seq<char>>) -> Seq<Tally> {
    distinct(tags).map_values(|tag: Seq<char>| Tally { tag, count: occurrences(tags, tag) })
}

/// Sum of the counts of `tallies`.
pub open spec fn count_sum(tallies: Seq<Tally>) -> nat
    decreases tallies.len(),
{
    if tallies.len() == 0 {
        0
    } else {
        count_sum(tallies.drop_last()) + tallies.last().count
    }
}

/// The tags of all `segments`, in order, each as often as it is written.
pub fn all_tags(segments: &Vec<ClippedSegment>) -> (tags: Vec<String>)
    ensures
        string_views(tags@) == tags_of(segment_views(segments@)),
{
    let ghost all = segment_views(segments@);
    let mut tags: Vec<String> = Vec::new();
    let mut i: usize = 0;
    assert(all.take(0) =~= Seq::<Segment>::empty());
    assert(string_views(tags@) =~= Seq::<Seq<char>>::empty());
    while i < segments.len()
        invariant
            i <= segments.len(),
            all == segment_views(segments@),
            string_views(tags@) == tags_of(all.take(i as int)),
        decreases segments.len() - i,
    {
        let own = &segments[i].tags;
        let ghost before = string_views(tags@);
        let mut j: usize = 0;
        assert(string_views(own@).take(0) =~= Seq::<Seq<char>>::empty());
        assert(before + Seq::<Seq<char>>::empty() =~= before);
        while j < own.len()
            invariant
                j <= own.len(),
                string_views(tags@) == before + string_views(own@).take(j as int),
            decreases own.len() - j,
        {
            let tag = own[j].clone();
            proof {
                assert(string_views(tags@.push(tag)) =~= string_views(tags@).push(tag@));
                assert(string_views(own@).take(j + 1) =~= string_views(own@).take(j as int).push(
                    tag@,
                ));
                assert((before + string_views(own@).take(j as int)).push(tag@) =~= before
                    + string_views(own@).take(j as int).push(tag@));
            }
            tags.push(tag);
            j = j + 1;
        }
        proof {
            assert(string_views(own@).take(j as int) =~= string_views(own@));
            let upto = all.take(i + 1);
            assert(upto.drop_last() =~= all.take(i as int));
            assert(upto.last().tags == string_views(own@));
        }
        i = i + 1;
    }
    assert(all.take(i as int) =~= all);
    tags
}

/// Position of `tag` among the tags of `counts`.
fn position_of(counts: &Vec<TagCount>, tag: &String) -> (r: Option<usize>)
    ensures
        match r {
            Some(at) => at < counts.len() && counts[at as int].tag@ == tag@,
            None => forall|k: int| 0 <= k < counts.len() ==> counts[k].tag@ != tag@,
        },
{
    let mut k: usize = 0;
    while k < counts.len()
        invariant
            k <= counts.len(),
            forall|m: int| 0 <= m < k ==> counts[m].tag@ != tag@,
        decreases counts.len() - k,
    {
        if counts[k].tag == *tag {
            return Some(k);
        }
        k = k + 1;
    }
    None
}

/// Counts how often each tag occurs. The counts come in the order in which
/// the tags first occur; no tag comes twice.
pub fn count(tags: &Vec<String>) -> (counts: Vec<TagCount>)
    ensures
        tally_views(counts@) == tallies(string_views(tags@)),
        count_sum(tally_views(counts@)) == tags.len(),
{
    let ghost all = string_views(tags@);
    let mut counts: Vec<TagCount> = Vec::new();
    let mut i: usize = 0;
    assert(all.take(0) =~= Seq::<Seq<char>>::empty());
    assert(tally_views(counts@) =~= tallies(all.take(0)));
    while i < tags.len()
        invariant
            i <= tags.len(),
            all == string_views(tags@),
            tally_views(counts@) == tallies(all.take(i as int)),
        decreases tags.len() - i,
    {
        let tag = &tags[i];
        let ghost seen = all.take(i as int);
        let ghost upto = all.take(i + 1);
        let ghost before = tally_views(counts@);
        proof {
            assert(upto.drop_last() =~= seen);
            assert(upto.last() == tag@);
            lemma_distinct(seen);
            lemma_occurrences_bounded(seen, tag@);
        }
        match position_of(&counts, tag) {
            Some(at) => {
                proof {
                    assert(before.len() == distinct(seen).len());
                    assert(before[at as int].tag == tag@);
                    assert(distinct(seen)[at as int] == tag@);
                    assert(distinct(seen).contains(tag@));
                }
                let bumped = TagCount { tag: counts[at].tag.clone(), count: counts[at].count + 1 };
                counts.set(at, bumped);
                proof {
                    assert forall|k: int| 0 <= k < counts.len() implies tally_views(counts@)[k]
                        == tallies(upto)[k] by {
                        if k != at {
                            assert(before[k].tag == distinct(seen)[k]);
                            assert(distinct(seen)[k] != distinct(seen)[at as int]);
                        }
                    }
                    assert(tally_views(counts@) =~= tallies(upto));
                }
            },
            None => {
                proof {
                    assert forall|k: int| 0 <= k < distinct(seen).len() implies distinct(seen)[k]
                        != tag@ by {
                        assert(before[k].tag == distinct(seen)[k]);
                    }
                    assert(!distinct(seen).contains(tag@));
                    assert(!seen.contains(tag@));
                    lemma_occurrences_of_absent(seen, tag@);
                }
                let first = TagCount { tag: tag.clone(), count: 1 };
                counts.push(first);
                proof {
                    assert forall|k: int| 0 <= k < counts.len() implies tally_views(counts@)[k]
                        == tallies(upto)[k] by {
                        if k < before.len() {
                            assert(before[k].tag == distinct(seen)[k]);
                            assert(distinct(seen).contains(distinct(seen)[k]));
                        }
                    }
                    assert(tally_views(counts@) =~= tallies(upto));
                }
            },
        }
        i = i + 1;
    }
    proof {
        assert(all.take(i as int) =~= all);
        lemma_counts_add_up(all);
    }
    counts
}

/// A tag occurs at most as often as there are tags.
proof fn lemma_occurrences_bounded(tags: Seq<Seq<char>>, tag: Seq<char>)
    ensures
        occurrences(tags, tag) <= tags.len(),
    decreases tags.len(),
{
    if tags.len() > 0 {
        lemma_occurrences_bounded(tags.drop_last(), tag);
    }
}

/// A tag that is not among `tags` occurs zero times.
proof fn lemma_occurrences_of_absent(tags: Seq<Seq<char>>, tag: Seq<char>)
    requires
        !tags.contains(tag),
    ensures
        occurrences(tags, tag) == 0,
    decreases tags.len(),
{
    if tags.len() > 0 {
        assert(tags.last() == tags[tags.len() - 1]);
        assert forall|k: int| 0 <= k < tags.drop_last().len() implies tags.drop_last()[k] != tag by {
            assert(tags.drop_last()[k] == tags[k]);
        }
        lemma_occurrences_of_absent(tags.drop_last(), tag);
    }
}

/// `distinct(tags)` holds exactly the tags that occur in `tags`, and none
/// twice.
pub proof fn lemma_distinct(tags: Seq<Seq<char>>)
    ensures
        forall|tag: Seq<char>| distinct(tags).contains(tag) <==> tags.contains(tag),
        forall|i: int, j: int|
            0 <= i < j < distinct(tags).len() ==> distinct(tags)[i] != distinct(tags)[j],
    decreases tags.len(),
{
    if tags.len() > 0 {
        let shorter = tags.drop_last();
        let before = distinct(shorter);
        lemma_distinct(shorter);
        assert forall|tag: Seq<char>| distinct(tags).contains(tag) <==> tags.contains(tag) by {
            if tags.contains(tag) {
                let k = choose|k: int| 0 <= k < tags.len() && tags[k] == tag;
                if k < shorter.len() {
                    assert(shorter[k] == tag);
                    assert(shorter.contains(tag));
                    assert(before.contains(tag));
                    let m = choose|m: int| 0 <= m < before.len() && before[m] == tag;
                    assert(distinct(tags)[m] == tag);
                } else {
                    if !before.contains(tag) {
                        assert(distinct(tags)[before.len() as int] == tag);
                    }
                }
            }
            if distinct(tags).contains(tag) {
                let m = choose|m: int| 0 <= m < distinct(tags).len() && distinct(tags)[m] == tag;
                if m < before.len() {
                    assert(before[m] == tag);
                    assert(shorter.contains(tag));
                    let k = choose|k: int| 0 <= k < shorter.len() && shorter[k] == tag;
                    assert(tags[k] == tag);
                } else {
                    assert(tags[tags.len() - 1] == tag);
                }
            }
        }
    }
}

/// The counts of all tags add up to the number of tags written.
pub proof fn lemma_counts_add_up(tags: Seq<Seq<char>>)
    ensures
        count_sum(tallies(tags)) == tags.len(),
    decreases tags.len(),
{
    if tags.len() == 0 {
        assert(tallies(tags) =~= Seq::<Tally>::empty());
    } else {
        let shorter = tags.drop_last();
        let tag = tags.last();
        lemma_counts_add_up(shorter);
        lemma_distinct(shorter);
        if distinct(shorter).contains(tag) {
            let at = choose|at: int| 0 <= at < distinct(shorter).len() && distinct(shorter)[at] == tag;
            let old = tallies(shorter);
            assert(tallies(tags) =~= old.update(
                at,
                Tally { tag, count: old[at].count + 1 },
            ));
            lemma_count_sum_update(old, at, Tally { tag, count: old[at].count + 1 });
        } else {
            assert(!shorter.contains(tag));
            lemma_occurrences_of_absent(shorter, tag);
            assert(tallies(tags) =~= tallies(shorter).push(Tally { tag, count: 1 }));
            assert(tallies(tags).drop_last() =~= tallies(shorter));
        }
    }
}

/// Replacing one tally changes the sum by the difference of the counts.
proof fn lemma_count_sum_update(tallies: Seq<Tally>, at: int, new: Tally)
    requires
        0 <= at < tallies.len(),
    ensures
        count_sum(tallies.update(at, new)) == count_sum(tallies) - tallies[at].count + new.count,
    decreases tallies.len(),
{
    let updated = tallies.update(at, new);
    if at == tallies.len() - 1 {
        assert(updated.drop_last() =~= tallies.drop_last());
    } else {
        assert(updated.drop_last() =~= tallies.drop_last().update(at, new));
        lemma_count_sum_update(tallies.drop_last(), at, new);
    }
}

} // verus!
