//! The diagnostic report over the registry store.

use vstd::prelude::*;
use crate::doctor::DoctorReport;
use super::path::registry_path;
use super::RegisteredCommands;

verus! {

/// What the binary observed of the registry file on disk; the report is a
/// pure function of this observation.
#[derive(Debug)]
pub enum RegistryProbe {
    /// The file does not exist.
    Missing,
    /// The file exists but reading it failed; the payload says why.
    Unreadable(String),
    /// The file was read and parsed; an empty file counts as an empty list.
    Loaded(RegisteredCommands),
    /// The file was read but parsing it failed; the payload says why.
    Invalid(String),
}

/// A command that is empty once trimmed.
pub open spec fn is_blank(c: Seq<char>) -> bool {
    crate::text::trim_spec(c).len() == 0
}

/// How many commands are blank.
pub open spec fn count_empty_spec(cmds: Seq<Seq<char>>) -> nat
    decreases cmds.len(),
{
    if cmds.len() == 0 {
        0
    } else {
        count_empty_spec(cmds.drop_last()) + if is_blank(cmds.last()) {
            1nat
        } else {
            0nat
        }
    }
}

/// A position whose command already occurred earlier.
pub open spec fn is_dup_at(cmds: Seq<Seq<char>>, i: int) -> bool {
    exists|j: int| 0 <= j < i && cmds[j] == cmds[i]
}

/// How many of the first `n` positions repeat an earlier command.
pub open spec fn count_dup_upto(cmds: Seq<Seq<char>>, n: int) -> nat
    decreases n,
{
    if n <= 0 {
        0
    } else {
        count_dup_upto(cmds, n - 1) + if is_dup_at(cmds, n - 1) {
            1nat
        } else {
            0nat
        }
    }
}

/// How many entries repeat an earlier one.
pub open spec fn count_dup_spec(cmds: Seq<Seq<char>>) -> nat {
    count_dup_upto(cmds, cmds.len() as int)
}

/// Counts the commands that are blank once trimmed.
pub fn count_empty_commands(commands: &Vec<String>) -> (r: usize)
    ensures
        r == count_empty_spec(commands.deep_view()),
{
    let ghost cmds = commands.deep_view();
    let n = commands.len();
    let mut r: usize = 0;
    let mut k: usize = 0;
    while k < n
        invariant
            0 <= k <= n,
            n == commands@.len(),
            cmds == commands.deep_view(),
            r <= k,
            r == count_empty_spec(cmds.take(k as int)),
        decreases n - k,
    {
        proof {
            assert(cmds.take(k + 1).drop_last() =~= cmds.take(k as int));
            assert(cmds.take(k + 1).last() == cmds[k as int]);
        }
        let entry = &commands[k];
        let trimmed = crate::text::trim_str(entry.as_str());
        if trimmed.unicode_len() == 0 {
            r = r + 1;
        }
        k = k + 1;
    }
    proof {
        assert(cmds.take(n as int) =~= cmds);
    }
    r
}

/// Counts the entries that repeat an earlier one.
pub fn count_duplicate_commands(commands: &Vec<String>) -> (r: usize)
    ensures
        r == count_dup_spec(commands.deep_view()),
{
    let ghost cmds = commands.deep_view();
    let n = commands.len();
    let mut r: usize = 0;
    let mut k: usize = 0;
    while k < n
        invariant
            0 <= k <= n,
            n == commands@.len(),
            cmds == commands.deep_view(),
            r <= k,
            r == count_dup_upto(cmds, k as int),
        decreases n - k,
    {
        let entry = &commands[k];
        proof {
            assert(cmds[k as int] == entry@);
        }
        let mut j: usize = 0;
        let mut seen = false;
        while j < k
            invariant_except_break
                0 <= j <= k < n,
                n == commands@.len(),
                cmds == commands.deep_view(),
                entry@ == cmds[k as int],
                !seen,
                forall|i: int| 0 <= i < j ==> cmds[i] != cmds[k as int],
            ensures
                0 <= j <= k,
                forall|i: int| 0 <= i < j ==> cmds[i] != cmds[k as int],
                seen ==> j < k && cmds[j as int] == cmds[k as int],
                !seen ==> j == k,
            decreases k - j,
        {
            let other = &commands[j];
            proof {
                assert(cmds[j as int] == other@);
            }
            if other.eq(entry) {
                seen = true;
                break ;
            }
            j = j + 1;
        }
        if seen {
            proof {
                assert(is_dup_at(cmds, k as int));
            }
            r = r + 1;
        } else {
            proof {
                assert(!is_dup_at(cmds, k as int));
            }
        }
        k = k + 1;
    }
    r
}

/// What the report owes for each observation of the store.
pub open spec fn report_matches(
    r: DoctorReport,
    data_dir: Seq<char>,
    data_dir_exists: bool,
    probe: RegistryProbe,
) -> bool {
    &&& r.data_dir@ == data_dir
    &&& r.registry_path@ == data_dir + "/registered.toml"@
    &&& r.data_dir_exists == data_dir_exists
    &&& r.registry_exists == !(probe is Missing)
    &&& match probe {
        RegistryProbe::Missing => r.registry_readable && r.registry_valid && r.command_count == 0
            && r.empty_commands == 0 && r.duplicate_commands == 0 && r.errors@.len() == 0,
        RegistryProbe::Unreadable(msg) => !r.registry_readable && !r.registry_valid
            && r.command_count == 0 && r.empty_commands == 0 && r.duplicate_commands == 0
            && r.errors.deep_view() == seq!["failed to read registry file: "@ + msg@],
        RegistryProbe::Loaded(regs) => r.registry_readable && r.registry_valid && r.command_count
            == regs.commands@.len() && r.empty_commands == count_empty_spec(
            regs.commands.deep_view(),
        ) && r.duplicate_commands == count_dup_spec(regs.commands.deep_view()) && r.errors@.len()
            == 0,
        RegistryProbe::Invalid(msg) => r.registry_readable && !r.registry_valid && r.command_count
            == 0 && r.empty_commands == 0 && r.duplicate_commands == 0 && r.errors.deep_view()
            == seq!["failed to parse registry file: "@ + msg@],
    }
}

/// Builds the diagnostic report from what the binary observed of the store.
pub fn doctor_report(data_dir: &str, data_dir_exists: bool, probe: RegistryProbe) -> (r:
    DoctorReport)
    ensures
        report_matches(r, data_dir@, data_dir_exists, probe),
{
    let registry_path = registry_path(data_dir);
    let mut report = DoctorReport {
        data_dir: String::from_str(data_dir),
        registry_path,
        data_dir_exists,
        registry_exists: true,
        registry_readable: false,
        registry_valid: false,
        command_count: 0,
        empty_commands: 0,
        duplicate_commands: 0,
        errors: Vec::new(),
    };
    match probe {
        RegistryProbe::Missing => {
            report.registry_exists = false;
            report.registry_readable = true;
            report.registry_valid = true;
            proof {
                assert(report.errors.deep_view() =~= Seq::<Seq<char>>::empty());
            }
            report
        },
        RegistryProbe::Unreadable(msg) => {
            let mut text = String::from_str("failed to read registry file: ");
            text.append(msg.as_str());
            report.errors.push(text);
            proof {
                assert(report.errors.deep_view() =~= seq![
                    "failed to read registry file: "@ + msg@,
                ]);
            }
            report
        },
        RegistryProbe::Loaded(regs) => {
            report.registry_readable = true;
            report.registry_valid = true;
            report.command_count = regs.commands.len();
            report.empty_commands = count_empty_commands(&regs.commands);
            report.duplicate_commands = count_duplicate_commands(&regs.commands);
            proof {
                assert(report.errors.deep_view() =~= Seq::<Seq<char>>::empty());
            }
            report
        },
        RegistryProbe::Invalid(msg) => {
            report.registry_readable = true;
            let mut text = String::from_str("failed to parse registry file: ");
            text.append(msg.as_str());
            report.errors.push(text);
            proof {
                assert(report.errors.deep_view() =~= seq![
                    "failed to parse registry file: "@ + msg@,
                ]);
            }
            report
        },
    }
}

} // verus!
