//! Batch file renaming, verified stage by stage.
//!
//! The pipeline takes a directory listing, filters it with a glob
//! pattern, derives a rename plan by literal substring substitution,
//! and decides whether the plan may be applied.  Everything that
//! computes or decides lives here; the binary around this crate only
//! performs the I/O that each stage asks for.

pub mod text;
pub mod listing;
pub mod matching;
pub mod plan;
pub mod pipeline;
