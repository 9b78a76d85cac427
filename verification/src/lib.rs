//! Splitting a text by a pattern and keeping only the last segment.

pub mod error;
pub mod laws;
pub mod pattern;
pub mod search;
pub mod segments;
pub mod split;
pub mod walk;

pub use error::SplitError;
pub use pattern::{Pattern, Predicate};
pub use split::SplitLast;
