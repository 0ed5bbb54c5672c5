//! Hunks of unified diffs, expanded by lines of context from the file that
//! they change.

pub mod header;
pub mod hunk;
pub mod laws;
pub mod line;
pub mod number;
pub mod text;

pub use hunk::{hunk_with_context, HeaderField, HeaderParseError, Hunk};
