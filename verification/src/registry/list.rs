//! Listing the registered commands.

use vstd::prelude::*;
use super::RegisteredCommands;

verus! {

/// Every registered command, in registration order.
pub fn list_commands(registered: &RegisteredCommands) -> (r: Result<Vec<String>, String>)
    ensures
        r matches Ok(v) && v.deep_view() == registered.commands.deep_view(),
{
    let n = registered.commands.len();
    let mut out: Vec<String> = Vec::new();
    let mut k: usize = 0;
    while k < n
        invariant
            0 <= k <= n,
            n == registered.commands@.len(),
            out.deep_view() =~= registered.commands.deep_view().take(k as int),
        decreases n - k,
    {
        let entry = &registered.commands[k];
        let ghost old_out = out@;
        out.push(entry.clone());
        proof {
            assert(out.deep_view() =~= Seq::new(
                old_out.len(),
                |j: int| old_out[j].deep_view(),
            ).push(registered.commands.deep_view()[k as int]));
        }
        k = k + 1;
    }
    proof {
        assert(registered.commands.deep_view().take(n as int) =~= registered.commands.deep_view());
    }
    Ok(out)
}

} // verus!
