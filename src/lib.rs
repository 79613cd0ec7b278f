//! Turns version-control diffs into fenced markdown, splits them into bounded
//! chunks and drives a text-generation service over them.
pub mod config;
pub mod text;
pub mod lines;
pub mod diff;
pub mod fences;
pub mod chunk;
pub mod reply;
pub mod prompt;
pub mod analysis;
pub mod commit;
pub mod report;
