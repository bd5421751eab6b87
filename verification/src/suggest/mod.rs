//! The suggestion flow's core: ranking a window of recent commands and
//! interpreting the user's selection.
//!
//! Reading the history file, prompting, and writing the registry are
//! console-side work and stay with the binary.

pub mod recommend;
pub mod selection;
pub mod types;

use vstd::prelude::*;
use crate::history::recent::recent_spec;

verus! {

/// How many recent history entries feed the ranking.
pub const HISTORY_SAMPLE_SIZE: usize = 100;

/// How many recommendations are shown at most.
pub const MAX_RECOMMENDATIONS: usize = 10;

/// The recent window of a history text, required to be non-empty: an empty
/// window means there is nothing to recommend.
pub fn collect_recent_commands(contents: &str, limit: usize) -> (r: Result<Vec<String>, String>)
    ensures
        ({
            let win = recent_spec(contents@, limit as nat);
            match r {
                Ok(v) => v.deep_view() == win && win.len() > 0,
                Err(e) => win.len() == 0 && e@ == "no commands found in recent history"@,
            }
        }),
{
    let recent = crate::history::History::recent_commands(contents, limit);
    if recent.len() == 0 {
        proof {
            assert(recent.deep_view().len() == recent@.len());
        }
        Err(String::from_str("no commands found in recent history"))
    } else {
        proof {
            assert(recent.deep_view().len() == recent@.len());
        }
        Ok(recent)
    }
}

} // verus!
