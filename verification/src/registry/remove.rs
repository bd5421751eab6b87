//! Removing a registered command by exact match.

use vstd::prelude::*;
use crate::text::{trim_spec, trim_str};
use super::RegisteredCommands;

verus! {

/// The registered list with every entry equal to `command` dropped.
pub open spec fn remove_spec(cmds: Seq<Seq<char>>, command: Seq<char>) -> Seq<Seq<char>>
    decreases cmds.len(),
{
    if cmds.len() == 0 {
        seq![]
    } else {
        let rest = remove_spec(cmds.drop_first(), command);
        if cmds[0] == command {
            rest
        } else {
            seq![cmds[0]] + rest
        }
    }
}

pub proof fn lemma_remove_cons(cmds: Seq<Seq<char>>, command: Seq<char>, k: int)
    requires
        0 <= k < cmds.len(),
    ensures
        remove_spec(cmds.skip(k), command) == (if cmds[k] == command {
            remove_spec(cmds.skip(k + 1), command)
        } else {
            seq![cmds[k]] + remove_spec(cmds.skip(k + 1), command)
        }),
{
    assert(cmds.skip(k)[0] == cmds[k]);
    assert(cmds.skip(k).drop_first() =~= cmds.skip(k + 1));
}

pub proof fn lemma_remove_len(cmds: Seq<Seq<char>>, command: Seq<char>)
    ensures
        remove_spec(cmds, command).len() <= cmds.len(),
    decreases cmds.len(),
{
    if cmds.len() > 0 {
        lemma_remove_len(cmds.drop_first(), command);
    }
}

/// Trims the command; an all-blank command is refused.
pub fn normalize_command(command: &str) -> (r: Result<String, String>)
    ensures
        trim_spec(command@).len() > 0 ==> (r matches Ok(c) && c@ == trim_spec(command@)),
        trim_spec(command@).len() == 0 ==> (r matches Err(e) && e@ == "command is empty"@),
{
    let trimmed = trim_str(command);
    if trimmed.unicode_len() == 0 {
        Err(String::from_str("command is empty"))
    } else {
        Ok(String::from_str(trimmed))
    }
}

/// Drops every entry equal to `command`, keeping the order of the rest;
/// returns how many entries went away.
pub fn remove_matching(registered: &mut RegisteredCommands, command: &str) -> (removed: usize)
    ensures
        final (registered).commands.deep_view() == remove_spec(
            old(registered).commands.deep_view(),
            command@,
        ),
        removed as int == old(registered).commands.deep_view().len()
            - final (registered).commands.deep_view().len(),
{
    let ghost orig = old(registered).commands.deep_view();
    let cmd_owned = String::from_str(command);
    let n = registered.commands.len();
    let mut kept: Vec<String> = Vec::new();
    let mut k: usize = 0;
    proof {
        assert(orig.skip(0) =~= orig);
        assert(kept.deep_view() =~= Seq::<Seq<char>>::empty());
        assert(Seq::<Seq<char>>::empty() + remove_spec(orig, command@) =~= remove_spec(
            orig,
            command@,
        ));
    }
    while k < n
        invariant
            0 <= k <= n,
            n == registered.commands@.len(),
            orig == registered.commands.deep_view(),
            cmd_owned@ == command@,
            kept@.len() <= k,
            remove_spec(orig, command@) =~= kept.deep_view() + remove_spec(
                orig.skip(k as int),
                command@,
            ),
        decreases n - k,
    {
        proof {
            lemma_remove_cons(orig, command@, k as int);
        }
        let entry = &registered.commands[k];
        proof {
            assert(orig[k as int] == entry@);
        }
        if !entry.eq(&cmd_owned) {
            let ghost old_kept = kept@;
            kept.push(entry.clone());
            proof {
                assert(kept.deep_view() =~= Seq::new(
                    old_kept.len(),
                    |j: int| old_kept[j].deep_view(),
                ).push(orig[k as int]));
                assert(kept.deep_view() + remove_spec(orig.skip(k + 1), command@) =~= Seq::new(
                    old_kept.len(),
                    |j: int| old_kept[j].deep_view(),
                ) + (seq![orig[k as int]] + remove_spec(orig.skip(k + 1), command@)));
            }
        } else {
            proof {
                assert(orig[k as int] == command@);
            }
        }
        k = k + 1;
    }
    proof {
        assert(orig.skip(n as int) =~= Seq::<Seq<char>>::empty());
        assert(kept.deep_view() + remove_spec(Seq::<Seq<char>>::empty(), command@)
            =~= kept.deep_view());
        lemma_remove_len(orig, command@);
    }
    let removed = n - kept.len();
    registered.commands = kept;
    removed
}

/// Removes every entry equal to the trimmed command; an all-blank command
/// is refused. Returns how many entries went away.
pub fn remove_command(registered: &mut RegisteredCommands, command: &str) -> (r: Result<
    usize,
    String,
>)
    ensures
        ({
            let t = trim_spec(command@);
            match r {
                Ok(removed) => t.len() > 0 && final (registered).commands.deep_view()
                    == remove_spec(old(registered).commands.deep_view(), t) && removed as int
                    == old(registered).commands.deep_view().len()
                    - final (registered).commands.deep_view().len(),
                Err(e) => t.len() == 0 && e@ == "command is empty"@ && *final (registered) == *old(registered),
            }
        }),
{
    let normalized = match normalize_command(command) {
        Ok(c) => c,
        Err(e) => {
            return Err(e);
        },
    };
    let removed = remove_matching(registered, normalized.as_str());
    Ok(removed)
}

} // verus!
