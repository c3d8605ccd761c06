//! Deciding whether a link is active.
//!
//! The decision compares the link's target path with the current path, either
//! as whole strings or segment by segment. The executable functions read both
//! paths once, from left to right, and allocate nothing.

use std::str::Chars;
use vstd::prelude::*;
use vstd::std_specs::iter::IteratorSpec;
use crate::mode::Match;
use crate::segments::{
    after_leading_run, leading_run, lemma_first_separator, lemma_first_separator_extend,
    lemma_segments_empty, lemma_segments_leading_run, lemma_segments_leading_separator, segments, SEPARATOR,
};

verus! {

/// Whether the segments of `target` are the first segments of `current`, in
/// the same order.
pub open spec fn segment_prefix(target: Seq<char>, current: Seq<char>) -> bool {
    segments(target).is_prefix_of(segments(current))
}

/// Whether `current` matches `target` under `mode`.
pub open spec fn matches_path(target: Seq<char>, current: Seq<char>, mode: Match) -> bool {
    match mode {
        Match::Exact => target == current,
        Match::Partial => segment_prefix(target, current),
    }
}

/// Whether a link to `target` is active at `current`. Nothing is active while
/// no location is known.
pub open spec fn active_at(target: Seq<char>, current: Option<Seq<char>>, mode: Match) -> bool {
    match current {
        Some(path) => matches_path(target, path, mode),
        None => false,
    }
}

/// Two sequences that begin with one item each are in the prefix relation
/// exactly when those items are equal and the rests are in that relation.
proof fn lemma_prefix_step<A>(a: A, rest_a: Seq<A>, b: A, rest_b: Seq<A>)
    ensures
        (seq![a] + rest_a).is_prefix_of(seq![b] + rest_b) == (a == b && rest_a.is_prefix_of(rest_b)),
{
    let left = seq![a] + rest_a;
    let right = seq![b] + rest_b;
    if left.is_prefix_of(right) {
        assert(left[0] == right[0]);
        assert forall|i: int| 0 <= i < rest_a.len() implies rest_a[i] == rest_b[i] by {
            assert(left[i + 1] == right[i + 1]);
        }
        assert(rest_a =~= rest_b.subrange(0, rest_a.len() as int));
    }
    if a == b && rest_a.is_prefix_of(rest_b) {
        assert forall|i: int| 0 <= i < left.len() implies left[i] == right[i] by {
            if i > 0 {
                assert(rest_a[i - 1] == rest_b[i - 1]);
            }
        }
        assert(left =~= right.subrange(0, left.len() as int));
    }
}

/// Reads `chars` up to and including the first character that is no
/// separator, and returns that character; `None` when only separators, or
/// nothing, were left.
fn next_segment_start(chars: &mut Chars<'_>) -> (first: Option<char>)
    requires
        (*old(chars)).decrease() is Some,
    ensures
        (*final(chars)).decrease() is Some,
        first is None ==> segments((*old(chars)).remaining()).len() == 0,
        first matches Some(c) ==> {
            &&& c != SEPARATOR
            &&& segments((*old(chars)).remaining()) == segments(
                seq![c] + (*final(chars)).remaining(),
            )
            &&& (*old(chars)).remaining().len() > 0
            &&& (*final(chars)).decrease()->0 < (*old(chars)).decrease()->0
        },
{
    loop
        invariant
            segments((*old(chars)).remaining()) == segments((*chars).remaining()),
            (*chars).remaining().len() > 0 ==> (*old(chars)).remaining().len() > 0,
            (*chars).decrease() is Some,
            (*old(chars)).decrease() is Some,
            (*chars).decrease()->0 <= (*old(chars)).decrease()->0,
        decreases (*chars).decrease()->0,
    {
        let ghost before = (*chars).remaining();
        match chars.next() {
            None => {
                proof {
                    assert(before =~= Seq::<char>::empty());
                    lemma_segments_empty();
                }
                return None;
            },
            Some(c) => {
                assert(before =~= seq![c] + (*chars).remaining());
                if c != SEPARATOR {
                    return Some(c);
                }
                proof {
                    lemma_segments_leading_separator(before);
                }
            },
        }
    }
}

/// Compares the segment that begins with `target_first` and goes on with what
/// `target` yields with the segment that `current_first` and `current` make up
/// in the same way. When they are equal, both iterators are left behind the
/// separator that ends the segment, or at their end.
fn same_leading_segment(
    target_first: char,
    target: &mut Chars<'_>,
    current_first: char,
    current: &mut Chars<'_>,
) -> (same: bool)
    requires
        target_first != SEPARATOR,
        current_first != SEPARATOR,
        (*old(target)).decrease() is Some,
        (*old(current)).decrease() is Some,
    ensures
        (*final(target)).decrease() is Some,
        (*final(current)).decrease() is Some,
        (*final(target)).remaining().len() > 0 ==> (*final(target)).decrease()->0 <= (*old(
            target,
        )).decrease()->0,
        same == (leading_run(seq![target_first] + (*old(target)).remaining()) == leading_run(
            seq![current_first] + (*old(current)).remaining(),
        )),
        same ==> {
            &&& segments((*final(target)).remaining()) == segments(
                after_leading_run(seq![target_first] + (*old(target)).remaining()),
            )
            &&& segments((*final(current)).remaining()) == segments(
                after_leading_run(seq![current_first] + (*old(current)).remaining()),
            )
        },
{
    let ghost target_path = seq![target_first] + (*target).remaining();
    let ghost current_path = seq![current_first] + (*current).remaining();
    let mut t = target_first;
    let mut c = current_first;
    loop
        invariant
            t != SEPARATOR,
            c != SEPARATOR,
            (*target).decrease() is Some,
            (*current).decrease() is Some,
            (*old(target)).decrease() is Some,
            (*target).decrease()->0 <= (*old(target)).decrease()->0,
            target_path == seq![target_first] + (*old(target)).remaining(),
            current_path == seq![current_first] + (*old(current)).remaining(),
            (leading_run(target_path) == leading_run(current_path)) == (leading_run(
                seq![t] + (*target).remaining(),
            ) == leading_run(seq![c] + (*current).remaining())),
            after_leading_run(target_path) == after_leading_run(seq![t] + (*target).remaining()),
            after_leading_run(current_path) == after_leading_run(
                seq![c] + (*current).remaining(),
            ),
        decreases (*target).decrease()->0,
    {
        let ghost target_rest = (*target).remaining();
        let ghost current_rest = (*current).remaining();
        proof {
            lemma_first_separator_extend(t, target_rest);
            lemma_first_separator_extend(c, current_rest);
        }
        if t != c {
            assert(leading_run(seq![t] + target_rest)[0] == t);
            assert(leading_run(seq![c] + current_rest)[0] == c);
            return false;
        }
        let target_next = target.next();
        let current_next = current.next();
        let target_ends = match target_next {
            Some(x) => x == SEPARATOR,
            None => true,
        };
        let current_ends = match current_next {
            Some(y) => y == SEPARATOR,
            None => true,
        };
        proof {
            lemma_first_separator(target_rest);
            lemma_first_separator(current_rest);
            assert(target_ends ==> leading_run(target_rest) =~= Seq::<char>::empty());
            assert(current_ends ==> leading_run(current_rest) =~= Seq::<char>::empty());
            assert(!target_ends ==> leading_run(target_rest).len() > 0);
            assert(!current_ends ==> leading_run(current_rest).len() > 0);
            assert((seq![t] + leading_run(target_rest)).len() == 1 + leading_run(target_rest).len());
            assert((seq![c] + leading_run(current_rest)).len() == 1 + leading_run(
                current_rest,
            ).len());
        }
        if target_ends || current_ends {
            proof {
                if target_ends && current_ends {
                    assert(seq![t] + leading_run(target_rest) =~= seq![c] + leading_run(
                        current_rest,
                    ));
                    lemma_segments_after_end(target_rest, (*target).remaining());
                    lemma_segments_after_end(current_rest, (*current).remaining());
                }
            }
            return target_ends && current_ends;
        }
        proof {
            let x = target_next->0;
            let y = current_next->0;
            assert(target_rest =~= seq![x] + (*target).remaining());
            assert(current_rest =~= seq![y] + (*current).remaining());
            lemma_same_front(t, leading_run(target_rest), leading_run(current_rest));
        }
        t = target_next.unwrap();
        c = current_next.unwrap();
    }
}

/// Putting one item in front of two sequences does not change whether they
/// are equal.
proof fn lemma_same_front<A>(front: A, a: Seq<A>, b: Seq<A>)
    ensures
        (seq![front] + a == seq![front] + b) == (a == b),
{
    if seq![front] + a == seq![front] + b {
        assert((seq![front] + a).drop_first() =~= a);
        assert((seq![front] + b).drop_first() =~= b);
    }
}

/// Where a leading run has ended, reading on past the separator that ended
/// it, if there is one, loses no segment.
proof fn lemma_segments_after_end(rest: Seq<char>, left: Seq<char>)
    requires
        rest.len() == 0 || rest[0] == SEPARATOR,
        left == if rest.len() > 0 {
            rest.drop_first()
        } else {
            rest
        },
    ensures
        after_leading_run(rest) == rest,
        segments(left) == segments(rest),
{
    assert(after_leading_run(rest) =~= rest);
    if rest.len() > 0 {
        lemma_segments_leading_separator(rest);
    }
}

/// Checks if `target` is a segment-wise prefix of `current`.
///
/// Both paths are cut at every `/`, and empty pieces are dropped, so leading,
/// trailing and repeated slashes make no difference. The result says whether
/// the segments of `target`, in order, are the first segments of `current`.
/// Segments are compared whole: `/doc` is no prefix of `/documents`.
pub fn is_path_prefix(target: &str, current: &str) -> (is_prefix: bool)
    ensures
        is_prefix == segment_prefix(target@, current@),
{
    let mut target_chars = target.chars();
    let mut current_chars = current.chars();
    let mut pending = next_segment_start(&mut target_chars);
    loop
        invariant
            target_chars.decrease() is Some,
            current_chars.decrease() is Some,
            pending matches Some(first) ==> first != SEPARATOR,
            segment_prefix(target@, current@) == match pending {
                Some(first) => segment_prefix(
                    seq![first] + target_chars.remaining(),
                    current_chars.remaining(),
                ),
                None => true,
            },
        decreases
            match pending {
                Some(_) => 1 + target_chars.decrease()->0,
                None => 0,
            },
    {
        let target_first = match pending {
            Some(first) => first,
            None => {
                return true;
            },
        };
        let ghost target_path = seq![target_first] + target_chars.remaining();
        proof {
            lemma_segments_leading_run(target_path);
        }
        let current_first = match next_segment_start(&mut current_chars) {
            Some(first) => first,
            None => {
                return false;
            },
        };
        let ghost current_path = seq![current_first] + current_chars.remaining();
        proof {
            lemma_segments_leading_run(current_path);
            lemma_prefix_step(
                leading_run(target_path),
                segments(after_leading_run(target_path)),
                leading_run(current_path),
                segments(after_leading_run(current_path)),
            );
        }
        if !same_leading_segment(
            target_first,
            &mut target_chars,
            current_first,
            &mut current_chars,
        ) {
            return false;
        }
        pending = next_segment_start(&mut target_chars);
    }
}

/// Whether `a` and `b` hold the same characters.
fn same_text(a: &str, b: &str) -> (same: bool)
    ensures
        same == (a@ == b@),
{
    let mut left = a.chars();
    let mut right = b.chars();
    loop
        invariant
            (a@ == b@) == (left.remaining() == right.remaining()),
            left.decrease() is Some,
        decreases left.decrease()->0,
    {
        let ghost left_before = left.remaining();
        let ghost right_before = right.remaining();
        let x = left.next();
        let y = right.next();
        match (x, y) {
            (None, None) => {
                assert(left_before =~= right_before);
                return true;
            },
            (Some(p), Some(q)) => {
                assert(left_before =~= seq![p] + left.remaining());
                assert(right_before =~= seq![q] + right.remaining());
                if p != q {
                    assert(left_before[0] != right_before[0]);
                    return false;
                }
            },
            _ => {
                assert(left_before.len() != right_before.len());
                return false;
            },
        }
    }
}

/// Decides whether `current` matches `target` under `mode`.
///
/// Under [`Match::Exact`] the two paths must be the same string, character
/// for character; no slash is overlooked. Under [`Match::Partial`] the
/// segments of `target` must be the first segments of `current`.
pub fn path_matches(target: &str, current: &str, mode: Match) -> (matched: bool)
    ensures
        matched == matches_path(target@, current@, mode),
{
    match mode {
        Match::Exact => same_text(target, current),
        Match::Partial => is_path_prefix(target, current),
    }
}

/// Decides whether a link to `target` is active, given the current path if
/// one is known. While none is known the link is not active.
pub fn is_active(target: &str, current: Option<&str>, mode: Match) -> (active: bool)
    ensures
        active == active_at(
            target@,
            match current {
                Some(path) => Some(path@),
                None => None,
            },
            mode,
        ),
{
    match current {
        Some(path) => path_matches(target, path, mode),
        None => false,
    }
}

} // verus!
