//! The two ways a link's target can be compared with the current location.

use vstd::prelude::*;

verus! {

/// Path matching strategy for active state detection.
#[derive(Clone, Copy, Debug, PartialEq, Eq, Structural)]
pub enum Match {
    /// The link is active only when the two paths are the same string.
    Exact,
    /// The link is active when the target's segments lead the current path's segments.
    Partial,
}

impl Default for Match {
    /// The default strategy is [`Match::Exact`].
    fn default() -> (mode: Match)
        ensures
            mode == Match::Exact,
    {
        Match::Exact
    }
}

impl Match {
    /// The strategy selected by a boolean `partial` flag.
    pub fn from_partial(partial: bool) -> (mode: Match)
        ensures
            mode == (if partial { Match::Partial } else { Match::Exact }),
    {
        if partial {
            Match::Partial
        } else {
            Match::Exact
        }
    }

    /// Whether this strategy is [`Match::Partial`].
    pub fn is_partial(self) -> (partial: bool)
        ensures
            partial == (self == Match::Partial),
    {
        match self {
            Match::Partial => true,
            Match::Exact => false,
        }
    }
}

} // verus!
