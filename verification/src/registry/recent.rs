//! The recently-used command list: newest first, deduplicated, capped.

use vstd::prelude::*;
use crate::text::{trim_spec, trim_str};
use super::remove::{lemma_remove_len, remove_spec};
use super::RegisteredCommands;

verus! {

/// How many recently-used commands are kept at most.
pub const RECENT_LIMIT: usize = 50;

/// The recent list after using `cmd`: older copies go away, `cmd` moves to
/// the front, and the list is cut to the cap.
pub open spec fn record_spec(recent: Seq<Seq<char>>, cmd: Seq<char>, cap: nat) -> Seq<Seq<char>> {
    let fronted = seq![cmd] + remove_spec(recent, cmd);
    if fronted.len() > cap {
        fronted.take(cap as int)
    } else {
        fronted
    }
}

/// The first `limit` entries.
pub open spec fn take_spec(s: Seq<Seq<char>>, limit: nat) -> Seq<Seq<char>> {
    if s.len() > limit {
        s.take(limit as int)
    } else {
        s
    }
}

/// Trims the command; an all-blank command is refused.
pub fn normalize_command(command: &str) -> (r: Result<String, String>)
    ensures
        trim_spec(command@).len() > 0 ==> (r matches Ok(c) && c@ == trim_spec(command@)),
        trim_spec(command@).len() == 0 ==> (r matches Err(e) && e@ == "command is empty"@),
{
    let trimmed = trim_str(command);
    if trimmed.unicode_len() == 0 {
        Err(String::from_str("command is empty"))
    } else {
        Ok(String::from_str(trimmed))
    }
}

/// Marks the trimmed command as just used: older copies go away, it moves
/// to the front, and the list is cut to the cap. An all-blank command is
/// refused.
pub fn record_recent(recent: &mut RegisteredCommands, command: &str) -> (r: Result<(), String>)
    ensures
        ({
            let t = trim_spec(command@);
            match r {
                Ok(()) => t.len() > 0 && final (recent).commands.deep_view() == record_spec(
                    old(recent).commands.deep_view(),
                    t,
                    RECENT_LIMIT as nat,
                ),
                Err(e) => t.len() == 0 && e@ == "command is empty"@
                    && *final (recent) == *old(recent),
            }
        }),
{
    let normalized = match normalize_command(command) {
        Ok(c) => c,
        Err(e) => {
            return Err(e);
        },
    };
    let ghost orig = recent.commands.deep_view();
    super::remove::remove_matching(recent, normalized.as_str());
    let ghost without = recent.commands.deep_view();
    recent.commands.insert(0, normalized);
    proof {
        assert(recent.commands.deep_view() =~= seq![trim_spec(command@)] + without);
        lemma_remove_len(orig, trim_spec(command@));
    }
    let ghost fronted = recent.commands.deep_view();
    if recent.commands.len() > RECENT_LIMIT {
        recent.commands.truncate(RECENT_LIMIT);
        proof {
            assert(recent.commands.deep_view() =~= fronted.take(RECENT_LIMIT as int));
        }
    }
    Ok(())
}

/// The most recently used commands, newest first, at most `limit` of them.
pub fn recent_commands(recent: &RegisteredCommands, limit: usize) -> (r: Result<
    Vec<String>,
    String,
>)
    ensures
        r matches Ok(v) && v.deep_view() == take_spec(recent.commands.deep_view(), limit as nat),
{
    let n = recent.commands.len();
    let upto = if n > limit {
        limit
    } else {
        n
    };
    let mut out: Vec<String> = Vec::new();
    let mut k: usize = 0;
    while k < upto
        invariant
            0 <= k <= upto <= n,
            n == recent.commands@.len(),
            out.deep_view() =~= recent.commands.deep_view().take(k as int),
        decreases upto - k,
    {
        let entry = &recent.commands[k];
        let ghost old_out = out@;
        out.push(entry.clone());
        proof {
            assert(out.deep_view() =~= Seq::new(
                old_out.len(),
                |j: int| old_out[j].deep_view(),
            ).push(recent.commands.deep_view()[k as int]));
        }
        k = k + 1;
    }
    proof {
        if n > limit {
            assert(out.deep_view() =~= take_spec(recent.commands.deep_view(), limit as nat));
        } else {
            assert(recent.commands.deep_view().take(n as int) =~= recent.commands.deep_view());
        }
    }
    Ok(out)
}

} // verus!
