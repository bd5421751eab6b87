//! The recommendation engine: one scan of the window aggregates per-command
//! statistics; ranking orders them by frequency, then recency, then text;
//! truncation keeps the best few.

use vstd::prelude::*;
use vstd::pervasive::VecAdditionalExecFns;
use crate::text::{lex_lt, str_lex_lt};
use super::types::{CommandStats, RecView, Recommendation};

verus! {

/// The views of a recommendation list.
pub open spec fn views_of(s: Seq<Recommendation>) -> Seq<RecView> {
    s.map_values(|r: Recommendation| r@)
}

/// The view of one aggregation entry.
pub open spec fn pair_view(p: (String, CommandStats)) -> RecView {
    RecView { command: p.0@, count: p.1.count as nat, last_seen: p.1.last_seen as nat }
}

pub open spec fn pairs_view(s: Seq<(String, CommandStats)>) -> Seq<RecView> {
    s.map_values(|p: (String, CommandStats)| pair_view(p))
}

/// The position of `cmd` among the gathered statistics, -1 when absent.
pub open spec fn find_cmd(stats: Seq<RecView>, cmd: Seq<char>) -> int
    decreases stats.len(),
{
    if stats.len() == 0 {
        -1
    } else if stats[0].command == cmd {
        0
    } else {
        let r = find_cmd(stats.drop_first(), cmd);
        if r < 0 {
            -1
        } else {
            r + 1
        }
    }
}

/// One aggregation step: a fresh command is appended with count 1; a known
/// one has its count raised and its last-seen position moved forward.
pub open spec fn bump(stats: Seq<RecView>, cmd: Seq<char>, pos: nat) -> Seq<RecView> {
    let k = find_cmd(stats, cmd);
    if 0 <= k < stats.len() {
        stats.update(
            k,
            RecView { command: cmd, count: (stats[k].count + 1) as nat, last_seen: pos },
        )
    } else {
        stats.push(RecView { command: cmd, count: 1, last_seen: pos })
    }
}

/// The statistics after the first `n` window entries.
pub open spec fn stats_upto(win: Seq<Seq<char>>, n: int) -> Seq<RecView>
    decreases n,
{
    if n <= 0 {
        seq![]
    } else {
        bump(stats_upto(win, n - 1), win[n - 1], (n - 1) as nat)
    }
}

/// The statistics of the whole window, in first-seen order.
pub open spec fn stats_spec(win: Seq<Seq<char>>) -> Seq<RecView> {
    stats_upto(win, win.len() as int)
}

/// The ranking order: count descending, then last-seen position descending,
/// then command text ascending; `a` ranks strictly before `b`.
pub open spec fn rank_before(a: RecView, b: RecView) -> bool {
    a.count > b.count || (a.count == b.count && a.last_seen > b.last_seen) || (a.count == b.count
        && a.last_seen == b.last_seen && lex_lt(a.command, b.command))
}

/// Insertion into an already ranked list, before the first entry the new one
/// outranks.
pub open spec fn insert_sorted(sorted: Seq<RecView>, r: RecView) -> Seq<RecView>
    decreases sorted.len(),
{
    if sorted.len() == 0 {
        seq![r]
    } else if rank_before(r, sorted[0]) {
        seq![r] + sorted
    } else {
        seq![sorted[0]] + insert_sorted(sorted.drop_first(), r)
    }
}

/// The ranked order of a statistics list.
pub open spec fn sort_spec(s: Seq<RecView>) -> Seq<RecView>
    decreases s.len(),
{
    if s.len() == 0 {
        seq![]
    } else {
        insert_sorted(sort_spec(s.drop_first()), s[0])
    }
}

/// What the engine owes for a window: its statistics, ranked.
pub open spec fn ranked_spec(win: Seq<Seq<char>>) -> Seq<RecView> {
    sort_spec(stats_spec(win))
}

/// The first `max` entries of a ranked list.
pub open spec fn top_spec(s: Seq<RecView>, max: nat) -> Seq<RecView> {
    if s.len() > max {
        s.take(max as int)
    } else {
        s
    }
}

proof fn lemma_find_cmd_at(stats: Seq<RecView>, cmd: Seq<char>, k: int)
    requires
        0 <= k < stats.len(),
        stats[k].command == cmd,
        forall|m: int| 0 <= m < k ==> stats[m].command != cmd,
    ensures
        find_cmd(stats, cmd) == k,
    decreases k,
{
    if k > 0 {
        assert(stats.drop_first()[k - 1] == stats[k]);
        assert(forall|m: int| 0 <= m < k - 1 ==> stats.drop_first()[m] == stats[m + 1]);
        lemma_find_cmd_at(stats.drop_first(), cmd, k - 1);
    }
}

proof fn lemma_find_cmd_none(stats: Seq<RecView>, cmd: Seq<char>)
    requires
        forall|m: int| 0 <= m < stats.len() ==> stats[m].command != cmd,
    ensures
        find_cmd(stats, cmd) == -1,
    decreases stats.len(),
{
    if stats.len() > 0 {
        assert(forall|m: int|
            0 <= m < stats.len() - 1 ==> stats.drop_first()[m] == stats[m + 1]);
        lemma_find_cmd_none(stats.drop_first(), cmd);
    }
}

/// Scans the window once, in order, and gathers each distinct command's
/// occurrence count and most recent position, in first-seen order.
pub fn count_commands(recent: &Vec<String>) -> (stats: Vec<(String, CommandStats)>)
    ensures
        pairs_view(stats@) == stats_spec(recent.deep_view()),
{
    let ghost win = recent.deep_view();
    let mut stats: Vec<(String, CommandStats)> = Vec::new();
    let n = recent.len();
    let mut idx: usize = 0;
    proof {
        assert(pairs_view(stats@) =~= stats_upto(win, 0));
    }
    while idx < n
        invariant
            0 <= idx <= n,
            n == recent@.len(),
            win == recent.deep_view(),
            pairs_view(stats@) =~= stats_upto(win, idx as int),
            forall|j: int| 0 <= j < stats@.len() ==> (#[trigger] stats@[j]).1.count <= idx,
        decreases n - idx,
    {
        let cmd: &String = &recent[idx];
        proof {
            assert(win[idx as int] == cmd@);
        }
        let m = stats.len();
        let mut k: usize = 0;
        let mut found = false;
        while k < m
            invariant_except_break
                0 <= k <= m,
                m == stats@.len(),
                !found,
                forall|j: int| 0 <= j < k ==> (#[trigger] stats@[j]).0@ != cmd@,
            ensures
                0 <= k <= m,
                m == stats@.len(),
                forall|j: int| 0 <= j < k ==> (#[trigger] stats@[j]).0@ != cmd@,
                found ==> k < m && stats@[k as int].0@ == cmd@,
                !found ==> k == m,
            decreases m - k,
        {
            let entry = &stats[k];
            if entry.0.eq(cmd) {
                found = true;
                break ;
            }
            k = k + 1;
        }
        let ghost old_stats = stats@;
        if found {
            proof {
                assert(forall|j: int|
                    0 <= j < k ==> pairs_view(old_stats)[j].command != cmd@);
                assert(pairs_view(old_stats)[k as int].command == cmd@);
                lemma_find_cmd_at(pairs_view(old_stats), cmd@, k as int);
            }
            let c = stats[k].1.count;
            let p = (cmd.clone(), CommandStats { count: c + 1, last_seen: idx });
            stats.set(k, p);
            proof {
                assert(pairs_view(stats@) =~= pairs_view(old_stats).update(
                    k as int,
                    RecView { command: cmd@, count: (c + 1) as nat, last_seen: idx as nat },
                ));
                assert(pairs_view(stats@) =~= stats_upto(win, idx + 1));
            }
        } else {
            proof {
                assert(forall|j: int|
                    0 <= j < old_stats.len() ==> pairs_view(old_stats)[j].command != cmd@);
                lemma_find_cmd_none(pairs_view(old_stats), cmd@);
            }
            stats.push((cmd.clone(), CommandStats { count: 1, last_seen: idx }));
            proof {
                assert(pairs_view(stats@) =~= pairs_view(old_stats).push(
                    RecView { command: cmd@, count: 1, last_seen: idx as nat },
                ));
                assert(pairs_view(stats@) =~= stats_upto(win, idx + 1));
            }
        }
        idx = idx + 1;
    }
    proof {
        assert(pairs_view(stats@) =~= stats_spec(win));
    }
    stats
}

/// Turns the gathered statistics into recommendation records, in order.
pub fn to_recommendations(stats: Vec<(String, CommandStats)>) -> (recs: Vec<Recommendation>)
    ensures
        views_of(recs@) == pairs_view(stats@),
{
    let mut recs: Vec<Recommendation> = Vec::new();
    let n = stats.len();
    let mut i: usize = 0;
    proof {
        assert(views_of(recs@) =~= pairs_view(stats@.take(0)));
    }
    while i < n
        invariant
            0 <= i <= n,
            n == stats@.len(),
            views_of(recs@) =~= pairs_view(stats@.take(i as int)),
        decreases n - i,
    {
        let entry = &stats[i];
        let rec = Recommendation {
            command: entry.0.clone(),
            count: entry.1.count,
            last_seen: entry.1.last_seen,
        };
        let ghost old_recs = recs@;
        recs.push(rec);
        proof {
            assert(views_of(recs@) =~= views_of(old_recs).push(
                pair_view(stats@[i as int]),
            ));
            assert(pairs_view(stats@.take(i + 1)) =~= pairs_view(stats@.take(i as int)).push(
                pair_view(stats@[i as int]),
            ));
        }
        i = i + 1;
    }
    proof {
        assert(stats@.take(n as int) =~= stats@);
        assert(views_of(recs@) =~= pairs_view(stats@));
    }
    recs
}

/// The ranking comparison on records.
fn rank_before_exec(a: &Recommendation, b: &Recommendation) -> (r: bool)
    ensures
        r == rank_before(a@, b@),
{
    if a.count > b.count {
        true
    } else if a.count < b.count {
        false
    } else if a.last_seen > b.last_seen {
        true
    } else if a.last_seen < b.last_seen {
        false
    } else {
        str_lex_lt(a.command.as_str(), b.command.as_str())
    }
}

proof fn lemma_insert_sorted_at(s: Seq<RecView>, r: RecView, j: int)
    requires
        0 <= j <= s.len(),
        forall|m: int| 0 <= m < j ==> !rank_before(r, s[m]),
        j < s.len() ==> rank_before(r, s[j]),
    ensures
        insert_sorted(s, r) == s.insert(j, r),
    decreases j,
{
    if s.len() == 0 {
        assert(insert_sorted(s, r) =~= s.insert(0, r));
    } else if j == 0 {
        assert(rank_before(r, s[0]));
        assert(insert_sorted(s, r) =~= s.insert(0, r));
    } else {
        assert(!rank_before(r, s[0]));
        assert(forall|m: int| 0 <= m < s.len() - 1 ==> s.drop_first()[m] == s[m + 1]);
        lemma_insert_sorted_at(s.drop_first(), r, j - 1);
        assert(insert_sorted(s, r) =~= seq![s[0]] + s.drop_first().insert(j - 1, r));
        assert(seq![s[0]] + s.drop_first().insert(j - 1, r) =~= s.insert(j, r));
    }
}

/// Inserts one record into an already ranked list, keeping the ranking.
fn insert_ranked(sorted: Vec<Recommendation>, rec: Recommendation) -> (res: Vec<Recommendation>)
    ensures
        views_of(res@) == insert_sorted(views_of(sorted@), rec@),
{
    let mut sorted = sorted;
    let n = sorted.len();
    let mut j: usize = 0;
    let mut found = false;
    while j < n
        invariant_except_break
            0 <= j <= n,
            n == sorted@.len(),
            !found,
            forall|m: int| 0 <= m < j ==> !rank_before(rec@, views_of(sorted@)[m]),
        ensures
            0 <= j <= n,
            n == sorted@.len(),
            forall|m: int| 0 <= m < j ==> !rank_before(rec@, views_of(sorted@)[m]),
            found ==> j < n && rank_before(rec@, views_of(sorted@)[j as int]),
            !found ==> j == n,
        decreases n - j,
    {
        if rank_before_exec(&rec, &sorted[j]) {
            found = true;
            break ;
        }
        j = j + 1;
    }
    proof {
        lemma_insert_sorted_at(views_of(sorted@), rec@, j as int);
    }
    let ghost old_sorted = sorted@;
    sorted.insert(j, rec);
    proof {
        assert(views_of(sorted@) =~= views_of(old_sorted).insert(j as int, rec@));
    }
    sorted
}

/// How often `c` occurs among the first `n` window entries.
pub open spec fn occ_upto(win: Seq<Seq<char>>, c: Seq<char>, n: int) -> nat
    decreases n,
{
    if n <= 0 {
        0
    } else {
        occ_upto(win, c, n - 1) + if win[n - 1] == c {
            1nat
        } else {
            0nat
        }
    }
}

/// How often `c` occurs in the window.
pub open spec fn occ_count(win: Seq<Seq<char>>, c: Seq<char>) -> nat {
    occ_upto(win, c, win.len() as int)
}

proof fn lemma_occ_pos(win: Seq<Seq<char>>, c: Seq<char>, i: int, n: int)
    requires
        0 <= i < n <= win.len(),
        win[i] == c,
    ensures
        occ_upto(win, c, n) >= 1,
    decreases n,
{
    if i < n - 1 {
        lemma_occ_pos(win, c, i, n - 1);
    }
}

proof fn lemma_find_cmd_props(stats: Seq<RecView>, cmd: Seq<char>)
    ensures
        find_cmd(stats, cmd) >= 0 ==> 0 <= find_cmd(stats, cmd) < stats.len() && stats[find_cmd(
            stats,
            cmd,
        )].command == cmd,
        find_cmd(stats, cmd) < 0 ==> forall|m: int|
            0 <= m < stats.len() ==> (#[trigger] stats[m]).command != cmd,
    decreases stats.len(),
{
    if stats.len() > 0 && stats[0].command != cmd {
        lemma_find_cmd_props(stats.drop_first(), cmd);
        if find_cmd(stats, cmd) < 0 {
            assert(find_cmd(stats.drop_first(), cmd) < 0);
            assert forall|m: int| 0 <= m < stats.len() implies (#[trigger] stats[m]).command
                != cmd by {
                if m > 0 {
                    assert(stats.drop_first()[m - 1] == stats[m]);
                }
            }
        }
    }
}

proof fn lemma_stats_upto_correct(win: Seq<Seq<char>>, n: int)
    requires
        0 <= n <= win.len(),
    ensures
        forall|j: int|
            0 <= j < stats_upto(win, n).len() ==> (#[trigger] stats_upto(win, n)[j]).count
                == occ_upto(win, stats_upto(win, n)[j].command, n),
        forall|c: Seq<char>|
            #[trigger] occ_upto(win, c, n) > 0 ==> exists|j: int|
                0 <= j < stats_upto(win, n).len() && (#[trigger] stats_upto(win, n)[j]).command
                    == c,
        forall|j1: int, j2: int|
            0 <= j1 < j2 < stats_upto(win, n).len() ==> (#[trigger] stats_upto(win, n)[j1]).command
                != (#[trigger] stats_upto(win, n)[j2]).command,
    decreases n,
{
    if n > 0 {
        lemma_stats_upto_correct(win, n - 1);
        let s = stats_upto(win, n - 1);
        let cmd = win[n - 1];
        let s2 = stats_upto(win, n);
        lemma_find_cmd_props(s, cmd);
        let k = find_cmd(s, cmd);
        assert(forall|c: Seq<char>|
            c != cmd ==> #[trigger] occ_upto(win, c, n) == occ_upto(win, c, n - 1));
        assert(occ_upto(win, cmd, n) == occ_upto(win, cmd, n - 1) + 1);
        if 0 <= k < s.len() {
            assert(s2 == s.update(
                k,
                RecView { command: cmd, count: (s[k].count + 1) as nat, last_seen: (n - 1) as nat },
            ));
            assert(s[k].command == cmd);
            assert forall|j: int| 0 <= j < s2.len() implies (#[trigger] s2[j]).count == occ_upto(
                win,
                s2[j].command,
                n,
            ) by {
                if j == k {
                    assert(s2[j].count == s[k].count + 1);
                    assert(s[k].count == occ_upto(win, cmd, n - 1));
                } else {
                    assert(s2[j] == s[j]);
                    if j < k {
                        assert(s[j].command != s[k].command);
                    } else {
                        assert(s[k].command != s[j].command);
                    }
                    assert(s[j].command != cmd);
                }
            }
            assert forall|c: Seq<char>| #[trigger] occ_upto(win, c, n) > 0 implies exists|j: int|
                0 <= j < s2.len() && (#[trigger] s2[j]).command == c by {
                if c == cmd {
                    assert(s2[k].command == c);
                } else {
                    assert(occ_upto(win, c, n - 1) > 0);
                    let j0 = choose|j: int| 0 <= j < s.len() && (#[trigger] s[j]).command == c;
                    assert(j0 != k);
                    assert(s2[j0].command == c);
                }
            }
            assert(forall|j: int| 0 <= j < s2.len() ==> (#[trigger] s2[j]).command == s[j].command);
        } else {
            assert(s2 == s.push(RecView { command: cmd, count: 1, last_seen: (n - 1) as nat }));
            assert(occ_upto(win, cmd, n - 1) == 0) by {
                if occ_upto(win, cmd, n - 1) > 0 {
                    let j0 = choose|j: int|
                        0 <= j < s.len() && (#[trigger] s[j]).command == cmd;
                    assert(false);
                }
            }
            assert forall|j: int| 0 <= j < s2.len() implies (#[trigger] s2[j]).count == occ_upto(
                win,
                s2[j].command,
                n,
            ) by {
                if j == s.len() {
                    assert(s2[j].command == cmd && s2[j].count == 1);
                } else {
                    assert(s2[j] == s[j]);
                    assert(s[j].command != cmd);
                }
            }
            assert forall|c: Seq<char>| #[trigger] occ_upto(win, c, n) > 0 implies exists|j: int|
                0 <= j < s2.len() && (#[trigger] s2[j]).command == c by {
                if c == cmd {
                    assert(s2[s.len() as int].command == c);
                } else {
                    assert(occ_upto(win, c, n - 1) > 0);
                    let j0 = choose|j: int| 0 <= j < s.len() && (#[trigger] s[j]).command == c;
                    assert(s2[j0].command == c);
                }
            }
            assert forall|j1: int, j2: int| 0 <= j1 < j2 < s2.len() implies (
            #[trigger] s2[j1]).command != (#[trigger] s2[j2]).command by {
                if j2 == s.len() {
                    assert(s2[j1] == s[j1]);
                    assert(s[j1].command != cmd);
                } else {
                    assert(s2[j1] == s[j1] && s2[j2] == s[j2]);
                }
            }
        }
    }
}

/// The ranking order is transitive.
proof fn lemma_rank_before_trans(a: RecView, b: RecView, c: RecView)
    requires
        rank_before(a, b),
        rank_before(b, c),
    ensures
        rank_before(a, c),
{
    if a.count == c.count && a.last_seen == c.last_seen {
        crate::text::lemma_lex_lt_trans(a.command, b.command, c.command);
    }
}

/// The ranking order never holds both ways round.
proof fn lemma_rank_before_asym(a: RecView, b: RecView)
    requires
        rank_before(a, b),
    ensures
        !rank_before(b, a),
{
    if a.count == b.count && a.last_seen == b.last_seen {
        crate::text::lemma_lex_lt_asym(a.command, b.command);
    }
}

proof fn lemma_contains_cons(h: RecView, t: Seq<RecView>, x: RecView)
    ensures
        (seq![h] + t).contains(x) <==> (x == h || t.contains(x)),
{
    let u = seq![h] + t;
    if u.contains(x) {
        let i = choose|i: int| 0 <= i < u.len() && u[i] == x;
        if i > 0 {
            assert(t[i - 1] == x);
            assert(t.contains(x));
        }
    }
    if x == h {
        assert(u[0] == x);
        assert(u.contains(x));
    }
    if t.contains(x) {
        let i = choose|i: int| 0 <= i < t.len() && t[i] == x;
        assert(u[i + 1] == x);
        assert(u.contains(x));
    }
}

proof fn lemma_insert_sorted_contains(s: Seq<RecView>, r: RecView, x: RecView)
    ensures
        insert_sorted(s, r).contains(x) <==> (s.contains(x) || x == r),
    decreases s.len(),
{
    if s.len() == 0 {
        assert(insert_sorted(s, r) =~= seq![r] + Seq::<RecView>::empty());
        lemma_contains_cons(r, Seq::<RecView>::empty(), x);
        assert(!s.contains(x));
        assert(!Seq::<RecView>::empty().contains(x));
    } else if rank_before(r, s[0]) {
        lemma_contains_cons(r, s, x);
    } else {
        lemma_insert_sorted_contains(s.drop_first(), r, x);
        lemma_contains_cons(s[0], insert_sorted(s.drop_first(), r), x);
        assert(s =~= seq![s[0]] + s.drop_first());
        lemma_contains_cons(s[0], s.drop_first(), x);
    }
}

proof fn lemma_sort_contains(s: Seq<RecView>, x: RecView)
    ensures
        sort_spec(s).contains(x) <==> s.contains(x),
    decreases s.len(),
{
    if s.len() > 0 {
        lemma_sort_contains(s.drop_first(), x);
        lemma_insert_sorted_contains(sort_spec(s.drop_first()), s[0], x);
        assert(s =~= seq![s[0]] + s.drop_first());
        lemma_contains_cons(s[0], s.drop_first(), x);
    } else {
        assert(!s.contains(x));
        assert(!sort_spec(s).contains(x));
    }
}

/// A ranked list is ordered: no later entry outranks an earlier one.
pub open spec fn ranked_ordered(s: Seq<RecView>) -> bool {
    forall|i: int, j: int| 0 <= i < j < s.len() ==> !rank_before(#[trigger] s[j], #[trigger] s[i])
}

proof fn lemma_insert_sorted_ordered(s: Seq<RecView>, r: RecView)
    requires
        ranked_ordered(s),
    ensures
        ranked_ordered(insert_sorted(s, r)),
    decreases s.len(),
{
    if s.len() == 0 {
    } else if rank_before(r, s[0]) {
        let t = seq![r] + s;
        assert forall|i: int, j: int| 0 <= i < j < t.len() implies !rank_before(
            #[trigger] t[j],
            #[trigger] t[i],
        ) by {
            if i == 0 {
                assert(t[j] == s[j - 1]);
                if rank_before(s[j - 1], r) {
                    lemma_rank_before_trans(s[j - 1], r, s[0]);
                    if j == 1 {
                        lemma_rank_before_asym(s[0], s[0]);
                    }
                }
            } else {
                assert(t[i] == s[i - 1] && t[j] == s[j - 1]);
            }
        }
    } else {
        assert(ranked_ordered(s.drop_first())) by {
            assert(forall|m: int|
                0 <= m < s.len() - 1 ==> s.drop_first()[m] == s[m + 1]);
        }
        lemma_insert_sorted_ordered(s.drop_first(), r);
        let t2 = insert_sorted(s.drop_first(), r);
        let t = seq![s[0]] + t2;
        assert forall|i: int, j: int| 0 <= i < j < t.len() implies !rank_before(
            #[trigger] t[j],
            #[trigger] t[i],
        ) by {
            if i == 0 {
                let x = t2[j - 1];
                assert(t[j] == x);
                assert(t2.contains(x));
                lemma_insert_sorted_contains(s.drop_first(), r, x);
                if x == r {
                } else {
                    let m = choose|m: int|
                        0 <= m < s.drop_first().len() && s.drop_first()[m] == x;
                    assert(s[m + 1] == x);
                }
            } else {
                assert(t[i] == t2[i - 1] && t[j] == t2[j - 1]);
            }
        }
    }
}

proof fn lemma_sort_ordered(s: Seq<RecView>)
    ensures
        ranked_ordered(sort_spec(s)),
    decreases s.len(),
{
    if s.len() > 0 {
        lemma_sort_ordered(s.drop_first());
        lemma_insert_sorted_ordered(sort_spec(s.drop_first()), s[0]);
    }
}

/// Ranking determinism: the ranked list is a function of the window alone,
/// so any two results computed over equal windows are equal.
pub proof fn lemma_ranking_deterministic(win: Seq<Seq<char>>, r1: Seq<RecView>, r2: Seq<RecView>)
    requires
        r1 == ranked_spec(win),
        r2 == ranked_spec(win),
    ensures
        r1 == r2,
{
}

/// Count correctness: every command of the window appears in the ranked
/// list, with its count equal to its number of occurrences in the window.
pub proof fn lemma_count_correct(win: Seq<Seq<char>>, c: Seq<char>)
    requires
        win.contains(c),
    ensures
        exists|j: int|
            0 <= j < ranked_spec(win).len() && (#[trigger] ranked_spec(win)[j]).command == c
                && ranked_spec(win)[j].count == occ_count(win, c),
{
    let i = choose|i: int| 0 <= i < win.len() && win[i] == c;
    lemma_occ_pos(win, c, i, win.len() as int);
    lemma_stats_upto_correct(win, win.len() as int);
    let s = stats_spec(win);
    let j0 = choose|j: int| 0 <= j < s.len() && (#[trigger] s[j]).command == c;
    let x = s[j0];
    assert(x.count == occ_count(win, c));
    assert(s.contains(x));
    lemma_sort_contains(s, x);
    let r = ranked_spec(win);
    let j = choose|j: int| 0 <= j < r.len() && r[j] == x;
    assert(r[j].command == c && r[j].count == occ_count(win, c));
}

/// Tie-break law: a higher count ranks first; with equal counts the later
/// last-seen position ranks first; with both equal the lexically smaller
/// command text ranks first.
pub proof fn lemma_tie_break(a: RecView, b: RecView)
    ensures
        a.count > b.count ==> rank_before(a, b),
        a.count == b.count && a.last_seen > b.last_seen ==> rank_before(a, b),
        a.count == b.count && a.last_seen == b.last_seen && lex_lt(a.command, b.command)
            ==> rank_before(a, b),
{
}

/// The ranked list the engine owes is ordered by the ranking.
pub proof fn lemma_ranked_sorted(win: Seq<Seq<char>>)
    ensures
        ranked_ordered(ranked_spec(win)),
{
    lemma_sort_ordered(stats_spec(win));
}

/// Truncation law: the kept prefix has the smaller of `max` and the list's
/// length as its length.
pub proof fn lemma_truncation(s: Seq<RecView>, max: nat)
    ensures
        top_spec(s, max).len() == if s.len() > max {
            max
        } else {
            s.len()
        },
        top_spec(s, 0).len() == 0,
{
}

/// Ranks recommendations best-first: count descending, then last-seen
/// descending, then command text ascending.
pub fn sort_recommendations(recommendations: &mut Vec<Recommendation>)
    ensures
        views_of(final (recommendations)@) == sort_spec(views_of(old(recommendations)@)),
{
    let ghost orig = views_of(recommendations@);
    let n = recommendations.len();
    let mut sorted: Vec<Recommendation> = Vec::new();
    let mut k: usize = n;
    proof {
        assert(orig.skip(n as int) =~= Seq::<RecView>::empty());
        assert(views_of(sorted@) =~= sort_spec(orig.skip(n as int)));
    }
    while k > 0
        invariant
            0 <= k <= n,
            n == recommendations@.len(),
            orig == views_of(recommendations@),
            views_of(sorted@) =~= sort_spec(orig.skip(k as int)),
        decreases k,
    {
        let entry = &recommendations[k - 1];
        let rec = Recommendation {
            command: entry.command.clone(),
            count: entry.count,
            last_seen: entry.last_seen,
        };
        proof {
            assert(rec@ == orig[k - 1]);
            assert(orig.skip(k - 1).drop_first() =~= orig.skip(k as int));
            assert(orig.skip(k - 1)[0] == orig[k - 1]);
        }
        sorted = insert_ranked(sorted, rec);
        k = k - 1;
    }
    proof {
        assert(orig.skip(0) =~= orig);
    }
    *recommendations = sorted;
}

/// Builds the ranked recommendation list for a window of recent commands.
pub fn build_recommendations(recent: &Vec<String>) -> (recs: Vec<Recommendation>)
    ensures
        views_of(recs@) == ranked_spec(recent.deep_view()),
{
    let stats = count_commands(recent);
    let mut recommendations = to_recommendations(stats);
    sort_recommendations(&mut recommendations);
    recommendations
}

/// Keeps only the first `max` recommendations; the result's length is the
/// smaller of `max` and the input's length.
pub fn select_top(recommendations: Vec<Recommendation>, max: usize) -> (r: Vec<Recommendation>)
    ensures
        views_of(r@) == top_spec(views_of(recommendations@), max as nat),
        r@.len() == if recommendations@.len() > max {
            max as int
        } else {
            recommendations@.len() as int
        },
{
    let mut recommendations = recommendations;
    let ghost orig = views_of(recommendations@);
    if recommendations.len() > max {
        recommendations.truncate(max);
        proof {
            assert(views_of(recommendations@) =~= orig.take(max as int));
        }
    }
    recommendations
}

} // verus!
