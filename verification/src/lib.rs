//! Rewrites measurement-report text into a fixed-column layout.
//!
//! A report is plain text in which some lines are measurement records:
//! at least three whitespace-delimited tokens (element, numeric value,
//! unit), not opening with one of the reserved header words. Such lines
//! are re-rendered with the element at column 0, the formatted value at
//! column 17 and the unit at column 33; every other line passes through
//! unchanged. The file's line-ending convention (CRLF or LF) and the
//! presence of a trailing terminator are preserved.
//!
//! Everything the formatting policy reads of the numeric value is held
//! as plain data in [`value::ValueFacts`]; parsing the value token into
//! those facts is the caller's concern.

pub mod text;
pub mod file_text;
pub mod record;
pub mod transform;
pub mod value;
