//! A declarative route-tree matcher.
//!
//! Route patterns such as `/users/:id` or `/*any` are parsed into
//! [`pattern::PathPattern`] values, assembled into a tree of
//! [`matcher::RouteNode`]s, and matched against request paths with
//! [`matcher::match_path`], which extracts dynamic parameters and reports
//! `NotFound` when no branch of the tree accepts the path.

pub mod laws;
pub mod matcher;
pub mod pattern;
pub mod scan;

pub use matcher::MatchResult;
pub use matcher::RouteNode;
pub use matcher::match_path;
pub use pattern::InvalidPatternError;
pub use pattern::PathPattern;
pub use pattern::Segment;
pub use scan::first_slash;
pub use scan::skip_slashes;
