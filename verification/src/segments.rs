//! The segment model of a path.
//!
//! A path is a sequence of characters. Cutting it at every separator gives its
//! pieces; the pieces that are not empty are its segments. Leading, trailing
//! and repeated separators therefore leave no trace in the segments.

use vstd::prelude::*;

verus! {

/// The character that separates the segments of a path.
pub const SEPARATOR: char = '/';

/// The number of characters that stand in front of the first separator of
/// `path`; the length of `path` when it holds no separator.
pub open spec fn first_separator(path: Seq<char>) -> int
    decreases path.len(),
{
    if path.len() == 0 || path[0] == SEPARATOR {
        0
    } else {
        1 + first_separator(path.drop_first())
    }
}

/// The pieces of `path` between its separators, in order, empty ones included.
/// A path with `n` separators has `n + 1` pieces.
pub open spec fn pieces(path: Seq<char>) -> Seq<Seq<char>>
    decreases path.len(),
{
    let n = first_separator(path);
    if n < 0 || n >= path.len() {
        seq![path]
    } else {
        seq![path.take(n)] + pieces(path.skip(n + 1))
    }
}

/// The test that tells a segment from an empty piece.
pub open spec fn non_empty() -> spec_fn(Seq<char>) -> bool {
    |piece: Seq<char>| piece.len() > 0
}

/// The segments of `path`: its pieces, in order, without the empty ones.
pub open spec fn segments(path: Seq<char>) -> Seq<Seq<char>> {
    pieces(path).filter(non_empty())
}

/// Whether `text` could be a segment: it is not empty and holds no separator.
pub open spec fn is_segment(text: Seq<char>) -> bool {
    text.len() > 0 && forall|i: int| 0 <= i < text.len() ==> text[i] != SEPARATOR
}

/// The characters of `path` in front of its first separator.
pub open spec fn leading_run(path: Seq<char>) -> Seq<char> {
    path.take(first_separator(path))
}

/// What is left of `path` from its first separator on.
pub open spec fn after_leading_run(path: Seq<char>) -> Seq<char> {
    path.skip(first_separator(path))
}

/// `first_separator` lies within the path, no separator stands in front of
/// it, and a separator stands at it unless it is the end of the path.
pub proof fn lemma_first_separator(path: Seq<char>)
    ensures
        0 <= first_separator(path) <= path.len(),
        forall|i: int| 0 <= i < first_separator(path) ==> path[i] != SEPARATOR,
        first_separator(path) < path.len() ==> path[first_separator(path)] == SEPARATOR,
    decreases path.len(),
{
    if path.len() == 0 || path[0] == SEPARATOR {
    } else {
        let rest = path.drop_first();
        lemma_first_separator(rest);
        assert forall|i: int| 0 <= i < first_separator(path) implies path[i] != SEPARATOR by {
            if i > 0 {
                assert(path[i] == rest[i - 1]);
            }
        }
        if first_separator(path) < path.len() {
            assert(path[first_separator(path)] == rest[first_separator(rest)]);
        }
    }
}

/// The three facts of `lemma_first_separator` hold of one position only.
pub proof fn lemma_first_separator_unique(path: Seq<char>, k: int)
    requires
        0 <= k <= path.len(),
        forall|i: int| 0 <= i < k ==> path[i] != SEPARATOR,
        k < path.len() ==> path[k] == SEPARATOR,
    ensures
        first_separator(path) == k,
    decreases path.len(),
{
    if path.len() == 0 || path[0] == SEPARATOR {
        if k > 0 {
            assert(path[0] != SEPARATOR);
        }
    } else {
        let rest = path.drop_first();
        assert forall|i: int| 0 <= i < k - 1 implies rest[i] != SEPARATOR by {
            assert(rest[i] == path[i + 1]);
        }
        if k - 1 < rest.len() {
            assert(rest[k - 1] == path[k]);
        }
        lemma_first_separator_unique(rest, k - 1);
    }
}

/// A character that is no separator, put in front of a path, moves the first
/// separator one place to the right.
pub proof fn lemma_first_separator_extend(first: char, rest: Seq<char>)
    requires
        first != SEPARATOR,
    ensures
        first_separator(seq![first] + rest) == 1 + first_separator(rest),
        leading_run(seq![first] + rest) == seq![first] + leading_run(rest),
        after_leading_run(seq![first] + rest) == after_leading_run(rest),
{
    let path = seq![first] + rest;
    assert(path.drop_first() =~= rest);
    lemma_first_separator(rest);
    assert(leading_run(path) =~= seq![first] + leading_run(rest));
    assert(after_leading_run(path) =~= after_leading_run(rest));
}

/// Filtering a single piece keeps it exactly when it is not empty.
proof fn lemma_filter_single(piece: Seq<char>)
    ensures
        seq![piece].filter(non_empty()) == if piece.len() > 0 {
            seq![piece]
        } else {
            Seq::<Seq<char>>::empty()
        },
{
    reveal_with_fuel(Seq::filter, 2);
    let one = seq![piece];
    assert(one.drop_last() =~= Seq::<Seq<char>>::empty());
    assert(one.last() == piece);
    assert(one.filter(non_empty()) =~= if piece.len() > 0 {
        seq![piece]
    } else {
        Seq::<Seq<char>>::empty()
    });
}

/// The empty path has no segments.
pub proof fn lemma_segments_empty()
    ensures
        segments(Seq::<char>::empty()) == Seq::<Seq<char>>::empty(),
{
    let nothing = Seq::<char>::empty();
    assert(pieces(nothing) == seq![nothing]);
    lemma_filter_single(nothing);
}

/// A separator at the front of a path adds no segment.
pub proof fn lemma_segments_leading_separator(path: Seq<char>)
    requires
        path.len() > 0,
        path[0] == SEPARATOR,
    ensures
        segments(path) == segments(path.drop_first()),
{
    let rest = path.skip(1);
    assert(rest =~= path.drop_first());
    assert(first_separator(path) == 0);
    assert(pieces(path) == seq![path.take(0)] + pieces(rest));
    Seq::filter_distributes_over_add(seq![path.take(0)], pieces(rest), non_empty());
    lemma_filter_single(path.take(0));
    assert(segments(path) =~= segments(rest));
}

/// A path that begins with another character has its leading run as its first
/// segment, followed by the segments of what comes after that run.
pub proof fn lemma_segments_leading_run(path: Seq<char>)
    requires
        path.len() > 0,
        path[0] != SEPARATOR,
    ensures
        is_segment(leading_run(path)),
        segments(path) == seq![leading_run(path)] + segments(after_leading_run(path)),
{
    let n = first_separator(path);
    lemma_first_separator(path);
    assert(n >= 1);
    let head = path.take(n);
    let tail = path.skip(n);
    assert(is_segment(head));
    lemma_filter_single(head);
    if n == path.len() {
        assert(head =~= path);
        assert(tail =~= Seq::<char>::empty());
        lemma_segments_empty();
        assert(segments(path) =~= seq![head] + segments(tail));
    } else {
        let rest = path.skip(n + 1);
        assert(pieces(path) == seq![head] + pieces(rest));
        Seq::filter_distributes_over_add(seq![head], pieces(rest), non_empty());
        assert(tail[0] == path[n]);
        lemma_segments_leading_separator(tail);
        assert(tail.drop_first() =~= rest);
    }
}

/// A segment on its own is a path with that one segment.
pub proof fn lemma_segments_single(text: Seq<char>)
    requires
        is_segment(text),
    ensures
        segments(text) == seq![text],
{
    lemma_first_separator_unique(text, text.len() as int);
    assert(pieces(text) == seq![text]);
    lemma_filter_single(text);
}

/// Cutting a path at one of its separators cuts its pieces in two.
pub proof fn lemma_pieces_concat(front: Seq<char>, back: Seq<char>)
    ensures
        pieces(front + seq![SEPARATOR] + back) == pieces(front) + pieces(back),
    decreases front.len(),
{
    let whole = front + seq![SEPARATOR] + back;
    let n = first_separator(front);
    lemma_first_separator(front);
    assert forall|i: int| 0 <= i < n implies whole[i] != SEPARATOR by {
        assert(whole[i] == front[i]);
    }
    if n < front.len() {
        assert(whole[n] == front[n]);
    }
    lemma_first_separator_unique(whole, n);
    assert(whole.take(n) =~= front.take(n));
    if n == front.len() {
        assert(whole.skip(n + 1) =~= back);
        assert(front.take(n) =~= front);
    } else {
        let rest = front.skip(n + 1);
        assert(whole.skip(n + 1) =~= rest + seq![SEPARATOR] + back);
        lemma_pieces_concat(rest, back);
        assert(pieces(whole) =~= pieces(front) + pieces(back));
    }
}

/// The segments of two paths joined by a separator are the segments of the
/// first followed by the segments of the second.
pub proof fn lemma_segments_concat(front: Seq<char>, back: Seq<char>)
    ensures
        segments(front + seq![SEPARATOR] + back) == segments(front) + segments(back),
{
    lemma_pieces_concat(front, back);
    Seq::filter_distributes_over_add(pieces(front), pieces(back), non_empty());
}

/// A separator at the end of a path adds no segment.
pub proof fn lemma_segments_trailing_separator(path: Seq<char>)
    ensures
        segments(path + seq![SEPARATOR]) == segments(path),
{
    let nothing = Seq::<char>::empty();
    assert(path + seq![SEPARATOR] + nothing =~= path + seq![SEPARATOR]);
    lemma_segments_concat(path, nothing);
    lemma_segments_empty();
    assert(segments(path) + Seq::<Seq<char>>::empty() =~= segments(path));
}

/// A separator repeated inside a path adds no segment.
pub proof fn lemma_segments_repeated_separator(front: Seq<char>, back: Seq<char>)
    ensures
        segments(front + seq![SEPARATOR] + seq![SEPARATOR] + back) == segments(
            front + seq![SEPARATOR] + back,
        ),
{
    lemma_segments_concat(front + seq![SEPARATOR], back);
    lemma_segments_trailing_separator(front);
    lemma_segments_concat(front, back);
}

} // verus!
