//! What holds of matching for all paths.

use vstd::prelude::*;
use crate::matcher::{active_at, matches_path, segment_prefix};
use crate::mode::Match;
use crate::segments::{
    after_leading_run, is_segment, lemma_first_separator, lemma_segments_concat,
    lemma_segments_empty, lemma_segments_leading_run, lemma_segments_leading_separator,
    lemma_segments_repeated_separator, lemma_segments_single, lemma_segments_trailing_separator,
    segments, SEPARATOR,
};

verus! {

/// Every segment of a path is non-empty and free of separators.
pub proof fn law_segments_are_whole(path: Seq<char>)
    ensures
        forall|i: int| 0 <= i < segments(path).len() ==> is_segment(#[trigger] segments(path)[i]),
    decreases path.len(),
{
    if path.len() == 0 {
        assert(path =~= Seq::<char>::empty());
        lemma_segments_empty();
    } else if path[0] == SEPARATOR {
        lemma_segments_leading_separator(path);
        law_segments_are_whole(path.drop_first());
    } else {
        lemma_first_separator(path);
        lemma_segments_leading_run(path);
        law_segments_are_whole(after_leading_run(path));
    }
}

/// A path put together from segments and single separators between them has
/// exactly those segments.
pub proof fn law_segments_of_joined(front: Seq<char>, last: Seq<char>)
    requires
        is_segment(last),
    ensures
        segments(front + seq![SEPARATOR] + last) == segments(front).push(last),
        segments(last) == seq![last],
{
    lemma_segments_concat(front, last);
    lemma_segments_single(last);
    assert(segments(front) + seq![last] =~= segments(front).push(last));
}

/// Under exact matching every path matches itself.
pub proof fn law_exact_reflexive(path: Seq<char>)
    ensures
        matches_path(path, path, Match::Exact),
{
}

/// Under exact matching two paths match only when they are the same string,
/// even where they have the same segments.
pub proof fn law_exact_is_equality(target: Seq<char>, current: Seq<char>)
    ensures
        matches_path(target, current, Match::Exact) <==> target == current,
{
}

/// While no current path is known, no link is active, whatever its target
/// and mode.
pub proof fn law_inactive_without_location(target: Seq<char>, mode: Match)
    ensures
        !active_at(target, None, mode),
{
}

/// Once a current path is known, a link is active exactly when that path
/// matches its target.
pub proof fn law_active_is_match(target: Seq<char>, current: Seq<char>, mode: Match)
    ensures
        active_at(target, Some(current), mode) == matches_path(target, current, mode),
{
}

/// Under partial matching a target matches exactly the paths whose segments
/// begin with the target's segments, in order.
pub proof fn law_partial_is_segment_prefix(target: Seq<char>, current: Seq<char>)
    ensures
        matches_path(target, current, Match::Partial) <==> segments(target).is_prefix_of(
            segments(current),
        ),
{
}

/// Under partial matching a target matches every path that has the same
/// segments.
pub proof fn law_partial_same_segments(target: Seq<char>, current: Seq<char>)
    requires
        segments(target) == segments(current),
    ensures
        matches_path(target, current, Match::Partial),
{
    assert(segments(current).subrange(0, segments(target).len() as int) =~= segments(target));
}

/// Under partial matching a target without segments matches every path.
pub proof fn law_partial_no_segments(target: Seq<char>, current: Seq<char>)
    requires
        segments(target).len() == 0,
    ensures
        matches_path(target, current, Match::Partial),
{
    assert(segments(current).subrange(0, 0) =~= segments(target));
}

/// Under partial matching the empty target matches every path.
pub proof fn law_partial_empty_target(current: Seq<char>)
    ensures
        matches_path(Seq::<char>::empty(), current, Match::Partial),
{
    lemma_segments_empty();
    law_partial_no_segments(Seq::<char>::empty(), current);
}

/// Under partial matching the root target, a single separator, matches every
/// path.
pub proof fn law_partial_root_target(current: Seq<char>)
    ensures
        matches_path(seq![SEPARATOR], current, Match::Partial),
{
    let root = seq![SEPARATOR];
    lemma_segments_leading_separator(root);
    assert(root.drop_first() =~= Seq::<char>::empty());
    lemma_segments_empty();
    law_partial_no_segments(root, current);
}

/// Under partial matching a target with more segments than the current path
/// does not match it.
pub proof fn law_partial_longer_target(target: Seq<char>, current: Seq<char>)
    requires
        segments(target).len() > segments(current).len(),
    ensures
        !matches_path(target, current, Match::Partial),
{
}

/// Partial matching compares whole segments: a target whose last segment is
/// only the beginning of the current path's segment at that place does not
/// match.
pub proof fn law_partial_segment_boundary(front: Seq<char>, word: Seq<char>, more: Seq<char>)
    requires
        is_segment(word),
        is_segment(more),
    ensures
        !matches_path(
            front + seq![SEPARATOR] + word,
            front + seq![SEPARATOR] + word + more,
            Match::Partial,
        ),
{
    let longer = word + more;
    assert(is_segment(longer)) by {
        assert forall|i: int| 0 <= i < longer.len() implies longer[i] != SEPARATOR by {
            if i < word.len() {
                assert(longer[i] == word[i]);
            } else {
                assert(longer[i] == more[i - word.len()]);
            }
        }
    }
    assert(front + seq![SEPARATOR] + word + more =~= front + seq![SEPARATOR] + longer);
    lemma_segments_concat(front, word);
    lemma_segments_concat(front, longer);
    lemma_segments_single(word);
    lemma_segments_single(longer);
    let target_segments = segments(front) + seq![word];
    let current_segments = segments(front) + seq![longer];
    let last = segments(front).len() as int;
    assert(target_segments[last] == word);
    assert(current_segments[last] == longer);
    assert(word.len() != longer.len());
    if target_segments.is_prefix_of(current_segments) {
        assert(current_segments.subrange(0, target_segments.len() as int)[last]
            == current_segments[last]);
    }
}

/// Partial matching sees only segments: separators at the front or the end
/// of either path, and separators repeated inside it, change no result.
pub proof fn law_partial_separator_noise(
    target: Seq<char>,
    current: Seq<char>,
    front: Seq<char>,
    back: Seq<char>,
)
    ensures
        matches_path(seq![SEPARATOR] + target, current, Match::Partial) == matches_path(
            target,
            current,
            Match::Partial,
        ),
        matches_path(target + seq![SEPARATOR], current, Match::Partial) == matches_path(
            target,
            current,
            Match::Partial,
        ),
        matches_path(target, seq![SEPARATOR] + current, Match::Partial) == matches_path(
            target,
            current,
            Match::Partial,
        ),
        matches_path(target, current + seq![SEPARATOR], Match::Partial) == matches_path(
            target,
            current,
            Match::Partial,
        ),
        matches_path(
            front + seq![SEPARATOR] + seq![SEPARATOR] + back,
            current,
            Match::Partial,
        ) == matches_path(front + seq![SEPARATOR] + back, current, Match::Partial),
        matches_path(
            target,
            front + seq![SEPARATOR] + seq![SEPARATOR] + back,
            Match::Partial,
        ) == matches_path(target, front + seq![SEPARATOR] + back, Match::Partial),
{
    lemma_segments_leading_separator(seq![SEPARATOR] + target);
    assert((seq![SEPARATOR] + target).drop_first() =~= target);
    lemma_segments_leading_separator(seq![SEPARATOR] + current);
    assert((seq![SEPARATOR] + current).drop_first() =~= current);
    lemma_segments_trailing_separator(target);
    lemma_segments_trailing_separator(current);
    lemma_segments_repeated_separator(front, back);
}

/// Partial matching is reflexive and transitive: every path matches itself,
/// and a target that matches a path matches whatever that path matches.
pub proof fn law_partial_preorder(a: Seq<char>, b: Seq<char>, c: Seq<char>)
    ensures
        matches_path(a, a, Match::Partial),
        matches_path(a, b, Match::Partial) && matches_path(b, c, Match::Partial) ==> matches_path(
            a,
            c,
            Match::Partial,
        ),
{
    law_partial_same_segments(a, a);
    if segment_prefix(a, b) && segment_prefix(b, c) {
        let n = segments(a).len() as int;
        assert forall|i: int| 0 <= i < n implies segments(a)[i] == segments(c)[i] by {
            assert(segments(a)[i] == segments(b).subrange(0, n)[i]);
            assert(segments(b)[i] == segments(c).subrange(0, segments(b).len() as int)[i]);
        }
        assert(segments(a) =~= segments(c).subrange(0, n));
    }
}

} // verus!
