//! Reading the shell-history window: line parsing and recency trimming.
//!
//! Locating and reading the history file itself is console-side work and
//! stays with the binary; this module owns everything that follows from the
//! file's text alone.

pub mod parse;
pub mod path;
pub mod recent;

use vstd::prelude::*;

verus! {

/// Namespace for history extraction.
pub struct History;

impl History {
    /// The most recent `limit` commands of a history file's whole text,
    /// oldest first, blank and unparsable lines dropped.
    pub fn recent_commands(contents: &str, limit: usize) -> (r: Vec<String>)
        ensures
            r.deep_view() == recent::recent_spec(contents@, limit as nat),
            r@.len() <= limit,
    {
        recent::recent_commands(contents, limit)
    }
}

} // verus!
