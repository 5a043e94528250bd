//! Glob-style selection of file paths.
//!
//! A list of patterns such as `docs/**`, `*.js` or `!README.md` selects a list
//! of candidate paths when some path matches a positive pattern and no negated
//! one. Patterns and paths are compared component by component, a component
//! being the text between two `/`.

pub mod laws;
pub mod matcher;
pub mod pattern;
pub mod select;
pub mod text;

pub use matcher::{match_segments, matches_star_pattern};
pub use pattern::{compile, parse_pattern, CompiledRule, Pattern, Segment};
pub use select::{is_match, match_pattern};
