//! The registry of saved commands and the recently-used list.
//!
//! The registry is held in memory here; the binary loads it from and saves
//! it back to its store file around each operation.

pub mod add;
pub mod doctor;
pub mod list;
pub mod merge;
pub mod path;
pub mod recent;
pub mod remove;
pub mod search;

use vstd::prelude::*;
use crate::text::trim_spec;

verus! {

/// The store schema: an ordered list of command strings.
#[derive(Debug)]
pub struct RegisteredCommands {
    pub commands: Vec<String>,
}

/// The registry state: the saved commands and the recently-used list.
#[derive(Debug)]
pub struct Registry {
    pub registered: RegisteredCommands,
    pub recent: RegisteredCommands,
}

impl Registry {
    /// An empty registry, what a missing or empty store file loads as.
    pub fn new() -> (r: Registry)
        ensures
            r.registered.commands@.len() == 0,
            r.recent.commands@.len() == 0,
    {
        Registry {
            registered: RegisteredCommands { commands: Vec::new() },
            recent: RegisteredCommands { commands: Vec::new() },
        }
    }

    /// Appends every command not yet registered, keeping order; returns how
    /// many were new.
    pub fn register_commands(&mut self, commands: &Vec<String>) -> (added: usize)
        ensures
            final (self).registered.commands.deep_view() == merge::merge_spec(
                old(self).registered.commands.deep_view(),
                commands.deep_view(),
            ),
            added as int == final (self).registered.commands.deep_view().len()
                - old(self).registered.commands.deep_view().len(),
            final (self).recent == old(self).recent,
    {
        merge::merge_commands(&mut self.registered, commands)
    }

    /// Registers one command after trimming it; an all-blank command is
    /// refused. Returns how many entries were added: 1, or 0 for a command
    /// already present.
    pub fn add_command(&mut self, command: &str) -> (r: Result<usize, String>)
        ensures
            ({
                let t = trim_spec(command@);
                match r {
                    Ok(added) => t.len() > 0 && final (self).registered.commands.deep_view()
                        == merge::merge_spec(
                        old(self).registered.commands.deep_view(),
                        seq![t],
                    ) && added as int == final (self).registered.commands.deep_view().len()
                        - old(self).registered.commands.deep_view().len()
                        && final (self).recent == old(self).recent,
                    Err(e) => t.len() == 0 && e@ == "command is empty"@
                        && *final (self) == *old(self),
                }
            }),
    {
        add::add_command(self, command)
    }

    /// The registered commands that contain the trimmed query as a run of
    /// characters, in registration order; an all-blank query is refused.
    pub fn search_commands(&self, query: &str) -> (r: Result<Vec<String>, String>)
        ensures
            ({
                let q = trim_spec(query@);
                match r {
                    Ok(v) => q.len() > 0 && v.deep_view() == search::filter_spec(
                        self.registered.commands.deep_view(),
                        q,
                    ),
                    Err(e) => q.len() == 0 && e@ == "query is empty"@,
                }
            }),
    {
        search::search_commands(&self.registered, query)
    }

    /// Every registered command, in registration order.
    pub fn list_commands(&self) -> (r: Result<Vec<String>, String>)
        ensures
            r matches Ok(v) && v.deep_view() == self.registered.commands.deep_view(),
    {
        list::list_commands(&self.registered)
    }

    /// Removes every entry equal to the trimmed command; an all-blank
    /// command is refused. Returns how many entries went away.
    pub fn remove_command(&mut self, command: &str) -> (r: Result<usize, String>)
        ensures
            ({
                let t = trim_spec(command@);
                match r {
                    Ok(removed) => t.len() > 0 && final (self).registered.commands.deep_view()
                        == remove::remove_spec(old(self).registered.commands.deep_view(), t)
                        && removed as int == old(self).registered.commands.deep_view().len()
                        - final (self).registered.commands.deep_view().len() && final (self).recent
                        == old(self).recent,
                    Err(e) => t.len() == 0 && e@ == "command is empty"@
                        && *final (self) == *old(self),
                }
            }),
    {
        remove::remove_command(&mut self.registered, command)
    }

    /// Moves the trimmed command to the front of the recently-used list,
    /// dropping older copies and anything beyond the list's cap; an
    /// all-blank command is refused.
    pub fn record_recent(&mut self, command: &str) -> (r: Result<(), String>)
        ensures
            ({
                let t = trim_spec(command@);
                match r {
                    Ok(()) => t.len() > 0 && final (self).recent.commands.deep_view()
                        == recent::record_spec(
                        old(self).recent.commands.deep_view(),
                        t,
                        recent::RECENT_LIMIT as nat,
                    ) && final (self).registered == old(self).registered,
                    Err(e) => t.len() == 0 && e@ == "command is empty"@
                        && *final (self) == *old(self),
                }
            }),
    {
        recent::record_recent(&mut self.recent, command)
    }

    /// The most recently used commands, newest first, at most `limit` of
    /// them.
    pub fn recent_commands(&self, limit: usize) -> (r: Result<Vec<String>, String>)
        ensures
            r matches Ok(v) && v.deep_view() == recent::take_spec(
                self.recent.commands.deep_view(),
                limit as nat,
            ),
    {
        recent::recent_commands(&self.recent, limit)
    }

    /// The diagnostic report for what the binary observed of the store.
    pub fn doctor_report(data_dir: &str, data_dir_exists: bool, probe: doctor::RegistryProbe) -> (r:
        crate::doctor::DoctorReport)
        ensures
            doctor::report_matches(r, data_dir@, data_dir_exists, probe),
    {
        doctor::doctor_report(data_dir, data_dir_exists, probe)
    }
}

} // verus!
