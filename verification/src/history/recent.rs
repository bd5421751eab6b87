//! Extraction of the recent-command window from a history file's text.

use vstd::prelude::*;
use crate::text::{first_index_of, lemma_first_index_at, lemma_first_index_none};
use super::parse::{parse_history_line, parse_line_spec};

verus! {

/// The lines of a text, split at every `\n`; a trailing newline contributes
/// a final empty line, which line parsing discards anyway.
pub open spec fn split_lines(s: Seq<char>) -> Seq<Seq<char>>
    decreases s.len(),
{
    let p = first_index_of(s, '\n');
    if p < 0 || p >= s.len() {
        seq![s]
    } else {
        seq![s.subrange(0, p)] + split_lines(s.subrange(p + 1, s.len() as int))
    }
}

/// The commands the given lines carry, in order, unparsable lines dropped.
pub open spec fn collect_from(lines: Seq<Seq<char>>) -> Seq<Seq<char>>
    decreases lines.len(),
{
    if lines.len() == 0 {
        seq![]
    } else {
        let rest = collect_from(lines.drop_first());
        match parse_line_spec(lines[0]) {
            Some(c) => seq![c] + rest,
            None => rest,
        }
    }
}

/// The commands a history file's whole text carries, in order.
pub open spec fn collect_spec(s: Seq<char>) -> Seq<Seq<char>> {
    collect_from(split_lines(s))
}

/// The last `limit` elements, or everything when there are fewer.
pub open spec fn limit_spec(s: Seq<Seq<char>>, limit: nat) -> Seq<Seq<char>> {
    if s.len() > limit {
        s.skip(s.len() - limit)
    } else {
        s
    }
}

/// The window the ranking engine works on: the commands of the text, oldest
/// first, cut down to the most recent `limit`.
pub open spec fn recent_spec(s: Seq<char>, limit: nat) -> Seq<Seq<char>> {
    limit_spec(collect_spec(s), limit)
}

proof fn lemma_first_index_decomposes(s: Seq<char>, p: int)
    requires
        0 <= p <= s.len(),
        forall|k: int| 0 <= k < p ==> s[k] != '\n',
        p < s.len() ==> s[p] == '\n',
    ensures
        p < s.len() ==> split_lines(s) == seq![s.subrange(0, p)] + split_lines(
            s.subrange(p + 1, s.len() as int),
        ),
        p == s.len() ==> split_lines(s) == seq![s],
{
    if p < s.len() {
        lemma_first_index_at(s, '\n', p);
    } else {
        lemma_first_index_none(s, '\n');
    }
}

proof fn lemma_collect_cons(line: Seq<char>, rest: Seq<Seq<char>>)
    ensures
        collect_from(seq![line] + rest) == (match parse_line_spec(line) {
            Some(c) => seq![c] + collect_from(rest),
            None => collect_from(rest),
        }),
{
    let ls = seq![line] + rest;
    assert(ls[0] == line);
    assert(ls.drop_first() =~= rest);
}

/// Collects every command in the text, one per parsable line, in order.
pub fn collect_commands(contents: &str) -> (v: Vec<String>)
    ensures
        v.deep_view() == collect_spec(contents@),
{
    let n = contents.unicode_len();
    let mut v: Vec<String> = Vec::new();
    let mut start: usize = 0;
    let mut i: usize = 0;
    proof {
        assert(contents@.skip(0) =~= contents@);
        assert(v.deep_view() =~= Seq::<Seq<char>>::empty());
        assert(Seq::<Seq<char>>::empty() + collect_from(split_lines(contents@)) =~= collect_from(
            split_lines(contents@),
        ));
    }
    while i < n
        invariant
            0 <= start <= i <= n,
            n == contents@.len(),
            forall|k: int| start <= k < i ==> contents@[k] != '\n',
            collect_spec(contents@) =~= v.deep_view() + collect_from(
                split_lines(contents@.skip(start as int)),
            ),
        decreases n - i,
    {
        if contents.get_char(i) == '\n' {
            let line = contents.substring_char(start, i);
            let ghost rem = contents@.skip(start as int);
            let ghost rest = contents@.skip(i + 1);
            proof {
                assert(forall|k: int| 0 <= k < i - start ==> rem[k] == contents@[k + start]);
                assert(rem[(i - start) as int] == contents@[i as int]);
                lemma_first_index_decomposes(rem, i - start);
                assert(rem.subrange(0, i - start) =~= line@);
                assert(rem.subrange(i - start + 1, rem.len() as int) =~= rest);
                lemma_collect_cons(line@, split_lines(rest));
            }
            let parsed = parse_history_line(line);
            match parsed {
                Some(cmd) => {
                    let ghost old_v = v;
                    v.push(cmd);
                    proof {
                        assert(v.deep_view() =~= old_v.deep_view().push(cmd@));
                        assert(old_v.deep_view().push(cmd@) + collect_from(split_lines(rest))
                            =~= old_v.deep_view() + (seq![cmd@] + collect_from(
                            split_lines(rest),
                        )));
                    }
                },
                None => {
                },
            }
            start = i + 1;
        }
        i = i + 1;
    }
    let line = contents.substring_char(start, n);
    let ghost rem = contents@.skip(start as int);
    proof {
        assert(forall|k: int| 0 <= k < n - start ==> rem[k] == contents@[k + start]);
        lemma_first_index_decomposes(rem, n - start);
        assert(rem =~= line@);
        assert(split_lines(rem) =~= seq![line@] + Seq::<Seq<char>>::empty());
        lemma_collect_cons(line@, Seq::<Seq<char>>::empty());
    }
    let parsed = parse_history_line(line);
    match parsed {
        Some(cmd) => {
            let ghost old_v = v;
            v.push(cmd);
            proof {
                assert(v.deep_view() =~= old_v.deep_view().push(cmd@));
                assert(old_v.deep_view().push(cmd@) =~= old_v.deep_view() + (seq![cmd@]
                    + collect_from(Seq::<Seq<char>>::empty())));
                assert(v.deep_view() =~= collect_spec(contents@));
            }
        },
        None => {
            proof {
                assert(v.deep_view() + collect_from(Seq::<Seq<char>>::empty()) =~= v.deep_view());
                assert(v.deep_view() =~= collect_spec(contents@));
            }
        },
    }
    v
}

/// Keeps only the most recent `limit` commands, the tail of the list.
pub fn limit_recent(commands: Vec<String>, limit: usize) -> (r: Vec<String>)
    ensures
        r.deep_view() == limit_spec(commands.deep_view(), limit as nat),
{
    let mut commands = commands;
    let len = commands.len();
    if len > limit {
        let ghost whole = commands;
        let tail = commands.split_off(len - limit);
        proof {
            assert(tail.deep_view() =~= whole.deep_view().skip(len - limit));
        }
        tail
    } else {
        commands
    }
}

/// The window never exceeds its cap.
pub proof fn lemma_window_bounded(s: Seq<char>, limit: nat)
    ensures
        recent_spec(s, limit).len() <= limit || recent_spec(s, limit) == collect_spec(s),
        recent_spec(s, limit).len() <= collect_spec(s).len(),
        limit_spec(collect_spec(s), limit).len() <= limit,
{
}

/// The most recent `limit` commands of a history file's text, oldest first.
pub fn recent_commands(contents: &str, limit: usize) -> (r: Vec<String>)
    ensures
        r.deep_view() == recent_spec(contents@, limit as nat),
        r@.len() <= limit,
{
    let commands = collect_commands(contents);
    let r = limit_recent(commands, limit);
    proof {
        assert(r.deep_view().len() == r@.len());
        assert(r.deep_view().len() <= limit as nat);
    }
    r
}

} // verus!
