//! Parsing of single history-file lines.

use vstd::prelude::*;
use crate::text::{first_index_of, lemma_first_index_at, lemma_first_index_none, trim_spec,
    trim_str};

verus! {

/// The command a zsh extended-format line `: <time>:<dur>;<cmd>` carries:
/// everything after the first `;`, trimmed; nothing when the line does not
/// begin with `: `, has no `;`, or carries an empty command.
pub open spec fn zsh_command_spec(t: Seq<char>) -> Option<Seq<char>> {
    if !(t.len() >= 2 && t[0] == ':' && t[1] == ' ') {
        None
    } else {
        let p = first_index_of(t, ';');
        if p < 0 {
            None
        } else {
            let cmd = trim_spec(t.subrange(p + 1, t.len() as int));
            if cmd.len() == 0 {
                None
            } else {
                Some(cmd)
            }
        }
    }
}

/// The command a history line carries: blank lines carry none, extended
/// zsh lines carry what follows the `;`, every other line carries itself,
/// trimmed.
pub open spec fn parse_line_spec(line: Seq<char>) -> Option<Seq<char>> {
    let t = trim_spec(line);
    if t.len() == 0 {
        None
    } else if t.len() >= 2 && t[0] == ':' && t[1] == ' ' {
        zsh_command_spec(t)
    } else {
        Some(t)
    }
}

/// Parses one history line; blank and unparsable lines yield nothing.
pub fn parse_history_line(line: &str) -> (r: Option<String>)
    ensures
        r.deep_view() == parse_line_spec(line@),
{
    let trimmed = trim_str(line);
    let n = trimmed.unicode_len();
    if n == 0 {
        return None;
    }
    if n >= 2 && trimmed.get_char(0) == ':' && trimmed.get_char(1) == ' ' {
        return parse_zsh_extended_line(trimmed);
    }
    parse_plain_line(trimmed)
}

/// Parses the zsh extended history format `: <time>:<dur>;<cmd>`, returning
/// the command after the `;`, or nothing when it is empty or absent.
pub fn parse_zsh_extended_line(trimmed: &str) -> (r: Option<String>)
    ensures
        r.deep_view() == zsh_command_spec(trimmed@),
{
    let n = trimmed.unicode_len();
    if !(n >= 2 && trimmed.get_char(0) == ':' && trimmed.get_char(1) == ' ') {
        return None;
    }
    let mut i: usize = 0;
    let mut found: bool = false;
    while i < n
        invariant_except_break
            0 <= i <= n,
            n == trimmed@.len(),
            !found,
            forall|k: int| 0 <= k < i ==> trimmed@[k] != ';',
        ensures
            0 <= i <= n,
            n == trimmed@.len(),
            forall|k: int| 0 <= k < i ==> trimmed@[k] != ';',
            found ==> i < n && trimmed@[i as int] == ';',
            !found ==> i == n,
        decreases n - i,
    {
        if trimmed.get_char(i) == ';' {
            found = true;
            break ;
        }
        i = i + 1;
    }
    if !found {
        proof {
            lemma_first_index_none(trimmed@, ';');
        }
        return None;
    }
    proof {
        lemma_first_index_at(trimmed@, ';', i as int);
    }
    let tail = trimmed.substring_char(i + 1, n);
    let command = trim_str(tail);
    if command.unicode_len() == 0 {
        None
    } else {
        Some(String::from_str(command))
    }
}

/// A plain history line is the command itself (the caller has already
/// trimmed it and ruled out blank lines).
pub fn parse_plain_line(trimmed: &str) -> (r: Option<String>)
    ensures
        r.deep_view() == Some(trimmed@),
{
    Some(String::from_str(trimmed))
}

} // verus!
