//! The tags of a log entry: the pieces of its tag field between single
//! spaces.

use vstd::prelude::*;
use vstd::string::*;
use crate::text::string_views;

verus! {

/// The pieces of `text` between its spaces, in order. A text without a
/// space is one piece; two spaces in a row enclose an empty piece.
pub open spec fn space_separated(text: Seq<char>) -> Seq<Seq<char>>
    decreases text.len(),
{
    if text.len() == 0 {
        seq![Seq::<char>::empty()]
    } else {
        let before = space_separated(text.drop_last());
        if text.last() == ' ' {
            before.push(Seq::<char>::empty())
        } else {
            before.update(before.len() - 1, before.last().push(text.last()))
        }
    }
}

/// The pieces joined again, with one space between neighbours.
pub open spec fn joined_by_space(pieces: Seq<Seq<char>>) -> Seq<char>
    decreases pieces.len(),
{
    if pieces.len() == 0 {
        Seq::<char>::empty()
    } else if pieces.len() == 1 {
        pieces[0]
    } else {
        joined_by_space(pieces.drop_last()) + seq![' '] + pieces.last()
    }
}

/// Number of spaces in `text`.
pub open spec fn space_count(text: Seq<char>) -> nat
    decreases text.len(),
{
    if text.len() == 0 {
        0
    } else {
        space_count(text.drop_last()) + if text.last() == ' ' {
            1nat
        } else {
            0nat
        }
    }
}

/// Splits a tag field on single spaces. Nothing is trimmed and nothing is
/// dropped: an empty field gives one empty tag.
pub fn split_tags(field: &str) -> (tags: Vec<String>)
    ensures
        string_views(tags@) == space_separated(field@),
{
    let n: usize = field.unicode_len();
    let mut tags: Vec<String> = Vec::new();
    let mut piece_start: usize = 0;
    let mut i: usize = 0;
    assert(field@.take(0) =~= Seq::<char>::empty());
    assert(field@.subrange(0, 0) =~= Seq::<char>::empty());
    assert(string_views(tags@).push(Seq::<char>::empty()) =~= seq![Seq::<char>::empty()]);
    while i < n
        invariant
            n == field@.len(),
            piece_start <= i <= n,
            space_separated(field@.take(i as int)) == string_views(tags@).push(
                field@.subrange(piece_start as int, i as int),
            ),
        decreases n - i,
    {
        let c = field.get_char(i);
        proof {
            let upto = field@.take(i + 1);
            assert(upto.drop_last() =~= field@.take(i as int));
            assert(upto.last() == c);
        }
        if c == ' ' {
            let piece = field.substring_char(piece_start, i);
            let ghost before = string_views(tags@);
            tags.push(String::from_str(piece));
            proof {
                assert(string_views(tags@) =~= before.push(piece@));
                assert(field@.subrange(i + 1, i + 1) =~= Seq::<char>::empty());
            }
            piece_start = i + 1;
        } else {
            proof {
                let done = string_views(tags@);
                let open = field@.subrange(piece_start as int, i as int);
                assert(open.push(c) =~= field@.subrange(piece_start as int, i + 1));
                assert(done.push(open).update(done.len() as int, open.push(c)) =~= done.push(
                    open.push(c),
                ));
            }
        }
        i = i + 1;
    }
    let piece = field.substring_char(piece_start, n);
    let ghost before = string_views(tags@);
    tags.push(String::from_str(piece));
    proof {
        assert(field@.take(n as int) =~= field@);
        assert(string_views(tags@) =~= before.push(piece@));
    }
    tags
}

/// Splitting loses nothing: no piece holds a space, the pieces are one more
/// than the spaces of the text, and joined by single spaces they give the
/// text back.
pub proof fn lemma_space_separated(text: Seq<char>)
    ensures
        space_separated(text).len() == space_count(text) + 1,
        forall|i: int, j: int|
            0 <= i < space_separated(text).len() && 0 <= j < space_separated(text)[i].len()
                ==> space_separated(text)[i][j] != ' ',
        joined_by_space(space_separated(text)) == text,
    decreases text.len(),
{
    let pieces = space_separated(text);
    if text.len() == 0 {
        assert(joined_by_space(pieces) =~= text);
    } else {
        let shorter = text.drop_last();
        let before = space_separated(shorter);
        lemma_space_separated(shorter);
        if text.last() == ' ' {
            assert(pieces.drop_last() =~= before);
            assert(joined_by_space(pieces) =~= text);
        } else {
            let grown = before.last().push(text.last());
            if before.len() == 1 {
                assert(joined_by_space(before) == before[0]);
                assert(joined_by_space(pieces) =~= text);
            } else {
                assert(pieces.drop_last() =~= before.drop_last());
                let front = joined_by_space(before.drop_last()) + seq![' '];
                assert(pieces.last() == grown);
                assert(joined_by_space(pieces) == front + grown);
                assert(shorter == front + before.last());
                assert(front + grown =~= (front + before.last()).push(text.last()));
                assert(text =~= shorter.push(text.last()));
            }
        }
    }
}

} // verus!
