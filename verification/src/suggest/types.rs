//! The data carried by one ranked candidate.

use vstd::prelude::*;

verus! {

/// One recommendation: a command together with how often it occurred in the
/// window and the position of its most recent occurrence.
#[derive(Debug)]
pub struct Recommendation {
    pub command: String,
    pub count: usize,
    pub last_seen: usize,
}

/// The mathematical shape of a recommendation, what the contracts speak of.
pub struct RecView {
    pub command: Seq<char>,
    pub count: nat,
    pub last_seen: nat,
}

impl View for Recommendation {
    type V = RecView;

    open spec fn view(&self) -> RecView {
        RecView {
            command: self.command@,
            count: self.count as nat,
            last_seen: self.last_seen as nat,
        }
    }
}

/// Occurrence statistics gathered while scanning the window: how many times
/// a command occurred and where it occurred last.
#[derive(Debug)]
pub struct CommandStats {
    pub count: usize,
    pub last_seen: usize,
}

} // verus!
