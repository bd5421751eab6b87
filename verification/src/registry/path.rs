//! The registry's file locations under its data directory.

use vstd::prelude::*;

verus! {

/// The data directory sits directly under the home directory.
pub fn data_dir_from_home(home: &str) -> (r: String)
    ensures
        r@ == home@ + "/.gclip"@,
{
    let mut path = String::from_str(home);
    path.append("/.gclip");
    path
}

/// The registered-command store inside the data directory.
pub fn registry_path(data_dir: &str) -> (r: String)
    ensures
        r@ == data_dir@ + "/registered.toml"@,
{
    let mut path = String::from_str(data_dir);
    path.append("/registered.toml");
    path
}

/// The recently-used store inside the data directory.
pub fn recent_path(data_dir: &str) -> (r: String)
    ensures
        r@ == data_dir@ + "/recent.toml"@,
{
    let mut path = String::from_str(data_dir);
    path.append("/recent.toml");
    path
}

} // verus!
