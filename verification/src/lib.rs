//! Active-state detection for navigation links.
//!
//! A navigation link points at a target path. It is shown as active when the
//! current path matches the target: under [`Match::Exact`] when the two are
//! the same string, under [`Match::Partial`] when the segments of the target
//! are the first segments of the current path.
//!
//! [`path_matches`] and [`is_active`] make that decision, [`is_path_prefix`]
//! is the segment-wise comparison on its own, and [`build_class`] gives the
//! class attribute that goes with the decision.

pub mod class;
pub mod laws;
pub mod matcher;
pub mod mode;
pub mod segments;

pub use class::build_class;
pub use matcher::{is_active, is_path_prefix, path_matches};
pub use mode::Match;
