//! Moves mail older than the current year into per-year archive folders.
//!
//! The library holds the decisions: how the mailbox's identifiers are cut into
//! batches, how fetched records are grouped by year, when a year's folder must
//! be listed or created, and what a move request carries. The mail session
//! itself is driven by the caller.
pub mod archive;
pub mod batch;
pub mod classify;
pub mod folders;
pub mod text;
