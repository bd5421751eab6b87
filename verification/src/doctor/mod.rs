//! The diagnostic report shown by the doctor flow.

use vstd::prelude::*;

verus! {

/// The configuration paths and the store's health, as one record; printing
/// it is the binary's work.
#[derive(Debug)]
pub struct DoctorReport {
    pub data_dir: String,
    pub registry_path: String,
    pub data_dir_exists: bool,
    pub registry_exists: bool,
    pub registry_readable: bool,
    pub registry_valid: bool,
    pub command_count: usize,
    pub empty_commands: usize,
    pub duplicate_commands: usize,
    pub errors: Vec<String>,
}

/// Renders a flag the way the report prints it.
pub fn yes_no(value: bool) -> (r: &'static str)
    ensures
        value ==> r@ == "yes"@,
        !value ==> r@ == "no"@,
{
    if value {
        "yes"
    } else {
        "no"
    }
}

} // verus!
