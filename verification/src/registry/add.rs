//! Registering a single command by hand.

use vstd::prelude::*;
use crate::text::{trim_spec, trim_str};
use super::{merge, Registry};

verus! {

/// Trims the command; an all-blank command is refused.
pub fn normalize_command(command: &str) -> (r: Result<String, String>)
    ensures
        trim_spec(command@).len() > 0 ==> (r matches Ok(c) && c@ == trim_spec(command@)),
        trim_spec(command@).len() == 0 ==> (r matches Err(e) && e@ == "command is empty"@),
{
    let trimmed = trim_str(command);
    if trimmed.unicode_len() == 0 {
        Err(String::from_str("command is empty"))
    } else {
        Ok(String::from_str(trimmed))
    }
}

/// Wraps one command for the list-based registration entry point.
pub fn build_single_command(command: String) -> (r: Vec<String>)
    ensures
        r.deep_view() =~= seq![command@],
{
    let mut r: Vec<String> = Vec::new();
    r.push(command);
    r
}

/// Registers one command after trimming it; an all-blank command is
/// refused. Returns how many entries were added.
pub fn add_command(registry: &mut Registry, command: &str) -> (r: Result<usize, String>)
    ensures
        ({
            let t = trim_spec(command@);
            match r {
                Ok(added) => t.len() > 0 && final (registry).registered.commands.deep_view()
                    == merge::merge_spec(old(registry).registered.commands.deep_view(), seq![t])
                    && added as int == final (registry).registered.commands.deep_view().len()
                    - old(registry).registered.commands.deep_view().len()
                    && final (registry).recent == old(registry).recent,
                Err(e) => t.len() == 0 && e@ == "command is empty"@
                    && *final (registry) == *old(registry),
            }
        }),
{
    let normalized = match normalize_command(command) {
        Ok(c) => c,
        Err(e) => {
            return Err(e);
        },
    };
    let commands = build_single_command(normalized);
    let added = merge::merge_commands(&mut registry.registered, &commands);
    Ok(added)
}

} // verus!
