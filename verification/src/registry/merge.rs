//! Merging new commands into the registered list.

use vstd::prelude::*;
use super::RegisteredCommands;

verus! {

/// The registered list after adding, in order, each command not already
/// present; duplicates among the new commands collapse too.
pub open spec fn merge_spec(registered: Seq<Seq<char>>, commands: Seq<Seq<char>>) -> Seq<Seq<char>>
    decreases commands.len(),
{
    if commands.len() == 0 {
        registered
    } else {
        let after = if registered.contains(commands[0]) {
            registered
        } else {
            registered.push(commands[0])
        };
        merge_spec(after, commands.drop_first())
    }
}

/// Appends every command not yet registered, keeping order; returns how
/// many were new.
pub fn merge_commands(registered: &mut RegisteredCommands, commands: &Vec<String>) -> (added: usize)
    ensures
        final (registered).commands.deep_view() == merge_spec(
            old(registered).commands.deep_view(),
            commands.deep_view(),
        ),
        added as int == final (registered).commands.deep_view().len()
            - old(registered).commands.deep_view().len(),
{
    let ghost orig = old(registered).commands.deep_view();
    let ghost cmds = commands.deep_view();
    let n = commands.len();
    let mut added: usize = 0;
    let mut k: usize = 0;
    proof {
        assert(cmds.skip(0) =~= cmds);
    }
    while k < n
        invariant
            0 <= k <= n,
            n == commands@.len(),
            cmds == commands.deep_view(),
            merge_spec(orig, cmds) == merge_spec(
                registered.commands.deep_view(),
                cmds.skip(k as int),
            ),
            added as int == registered.commands.deep_view().len() - orig.len(),
            orig.len() <= registered.commands.deep_view().len(),
            added <= k,
        decreases n - k,
    {
        let cmd: &String = &commands[k];
        proof {
            assert(cmds.skip(k as int)[0] == cmd@);
            assert(cmds.skip(k as int).drop_first() =~= cmds.skip(k + 1));
        }
        let m = registered.commands.len();
        let mut j: usize = 0;
        let mut present = false;
        while j < m
            invariant_except_break
                0 <= j <= m,
                m == registered.commands@.len(),
                !present,
                forall|i: int| 0 <= i < j ==> registered.commands@[i]@ != cmd@,
            ensures
                0 <= j <= m,
                m == registered.commands@.len(),
                forall|i: int| 0 <= i < j ==> registered.commands@[i]@ != cmd@,
                present ==> j < m && registered.commands@[j as int]@ == cmd@,
                !present ==> j == m,
            decreases m - j,
        {
            let entry = &registered.commands[j];
            if entry.eq(cmd) {
                present = true;
                break ;
            }
            j = j + 1;
        }
        let ghost before = registered.commands.deep_view();
        if present {
            proof {
                assert(before[j as int] == cmd@);
                assert(before.contains(cmd@));
            }
        } else {
            proof {
                assert(forall|i: int|
                    0 <= i < before.len() ==> before[i] != cmd@);
                assert(!before.contains(cmd@));
            }
            registered.commands.push(cmd.clone());
            added = added + 1;
            proof {
                assert(registered.commands.deep_view() =~= before.push(cmd@));
            }
        }
        k = k + 1;
    }
    proof {
        assert(cmds.skip(n as int) =~= Seq::<Seq<char>>::empty());
    }
    added
}

} // verus!
