//! Substring search over the registered commands.

use vstd::prelude::*;
use crate::text::{contains_seq, str_contains, trim_spec, trim_str};
use super::RegisteredCommands;

verus! {

/// The registered commands that contain `query` as a contiguous run, in
/// registration order.
pub open spec fn filter_spec(cmds: Seq<Seq<char>>, query: Seq<char>) -> Seq<Seq<char>>
    decreases cmds.len(),
{
    if cmds.len() == 0 {
        seq![]
    } else {
        let rest = filter_spec(cmds.drop_first(), query);
        if contains_seq(cmds[0], query) {
            seq![cmds[0]] + rest
        } else {
            rest
        }
    }
}

pub proof fn lemma_filter_cons(cmds: Seq<Seq<char>>, query: Seq<char>, k: int)
    requires
        0 <= k < cmds.len(),
    ensures
        filter_spec(cmds.skip(k), query) == (if contains_seq(cmds[k], query) {
            seq![cmds[k]] + filter_spec(cmds.skip(k + 1), query)
        } else {
            filter_spec(cmds.skip(k + 1), query)
        }),
{
    assert(cmds.skip(k)[0] == cmds[k]);
    assert(cmds.skip(k).drop_first() =~= cmds.skip(k + 1));
}

/// Trims the query; an all-blank query is refused.
pub fn normalize_query(query: &str) -> (r: Result<String, String>)
    ensures
        trim_spec(query@).len() > 0 ==> (r matches Ok(c) && c@ == trim_spec(query@)),
        trim_spec(query@).len() == 0 ==> (r matches Err(e) && e@ == "query is empty"@),
{
    let trimmed = trim_str(query);
    if trimmed.unicode_len() == 0 {
        Err(String::from_str("query is empty"))
    } else {
        Ok(String::from_str(trimmed))
    }
}

/// Keeps, in order, the commands that contain the query as a run of
/// characters.
pub fn filter_commands(registered: &RegisteredCommands, query: &str) -> (r: Vec<String>)
    ensures
        r.deep_view() == filter_spec(registered.commands.deep_view(), query@),
{
    let ghost cmds = registered.commands.deep_view();
    let n = registered.commands.len();
    let mut r: Vec<String> = Vec::new();
    let mut k: usize = 0;
    proof {
        assert(cmds.skip(0) =~= cmds);
        assert(r.deep_view() =~= Seq::<Seq<char>>::empty());
        assert(Seq::<Seq<char>>::empty() + filter_spec(cmds, query@) =~= filter_spec(
            cmds,
            query@,
        ));
    }
    while k < n
        invariant
            0 <= k <= n,
            n == registered.commands@.len(),
            cmds == registered.commands.deep_view(),
            filter_spec(cmds, query@) =~= r.deep_view() + filter_spec(
                cmds.skip(k as int),
                query@,
            ),
        decreases n - k,
    {
        proof {
            lemma_filter_cons(cmds, query@, k as int);
        }
        let entry = &registered.commands[k];
        if str_contains(entry.as_str(), query) {
            let ghost old_r = r@;
            r.push(entry.clone());
            proof {
                assert(r.deep_view() =~= Seq::new(
                    old_r.len(),
                    |j: int| old_r[j].deep_view(),
                ).push(cmds[k as int]));
                assert(r.deep_view() + filter_spec(cmds.skip(k + 1), query@) =~= Seq::new(
                    old_r.len(),
                    |j: int| old_r[j].deep_view(),
                ) + (seq![cmds[k as int]] + filter_spec(cmds.skip(k + 1), query@)));
            }
        }
        k = k + 1;
    }
    proof {
        assert(cmds.skip(n as int) =~= Seq::<Seq<char>>::empty());
        assert(r.deep_view() + filter_spec(Seq::<Seq<char>>::empty(), query@) =~= r.deep_view());
    }
    r
}

/// Searches the registered commands with a trimmed, non-blank query.
pub fn search_commands(registered: &RegisteredCommands, query: &str) -> (r: Result<
    Vec<String>,
    String,
>)
    ensures
        ({
            let q = trim_spec(query@);
            match r {
                Ok(v) => q.len() > 0 && v.deep_view() == filter_spec(
                    registered.commands.deep_view(),
                    q,
                ),
                Err(e) => q.len() == 0 && e@ == "query is empty"@,
            }
        }),
{
    let normalized = match normalize_query(query) {
        Ok(q) => q,
        Err(e) => {
            return Err(e);
        },
    };
    Ok(filter_commands(registered, normalized.as_str()))
}

} // verus!
