//! The location of the history file under a home directory.

use vstd::prelude::*;

verus! {

/// The zsh history file sits directly under the home directory.
pub fn history_path_from_home(home: &str) -> (r: String)
    ensures
        r@ == home@ + "/.zsh_history"@,
{
    let mut path = String::from_str(home);
    path.append("/.zsh_history");
    path
}

} // verus!
