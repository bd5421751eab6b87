//! The search flow's core: checking matches and picking one of them.
//!
//! Printing the match list and reading the reply are console-side work and
//! stay with the binary.

pub mod widget;

use vstd::prelude::*;
use crate::selection::single_selection_spec;
use crate::suggest::selection::{single_index_spec, SelErrView, SelectionError};
use crate::text::dec_str;
use crate::text::usize_to_string;

verus! {

/// A search must match something before a selection is asked for.
pub fn ensure_matches(matches: &Vec<String>) -> (r: Result<(), String>)
    ensures
        matches@.len() > 0 ==> (r is Ok),
        matches@.len() == 0 ==> (r matches Err(e) && e@
            == "no registered commands match the query"@),
{
    if matches.len() == 0 {
        Err(String::from_str("no registered commands match the query"))
    } else {
        Ok(())
    }
}

/// Parses the one numeric index a single selection consists of.
pub fn parse_index(token: &str) -> (r: Result<usize, SelectionError>)
    ensures
        ({
            match r {
                Ok(v) => single_index_spec(token@) == Ok::<usize, SelErrView>(v),
                Err(e) => single_index_spec(token@) == Err::<usize, SelErrView>(e@),
            }
        }),
{
    crate::selection::parse_index(token)
}

/// Parses a single-selection input: blank cancels, one in-range index
/// selects, anything else is an error.
pub fn parse_selection_input(input: &str, max: usize) -> (r: Result<Option<usize>, SelectionError>)
    ensures
        ({
            match r {
                Ok(v) => single_selection_spec(input@, max) == Ok::<Option<usize>, SelErrView>(v),
                Err(e) => single_selection_spec(input@, max) == Err::<Option<usize>, SelErrView>(
                    e@,
                ),
            }
        }),
{
    crate::selection::parse_selection_input(input, max)
}

/// The match a 1-based selection index points at.
pub fn command_at_index<'a>(matches: &'a Vec<String>, index: usize) -> (r: Result<&'a str, String>)
    ensures
        1 <= index <= matches@.len() ==> (r matches Ok(c) && c@ == matches.deep_view()[index - 1]),
        !(1 <= index <= matches@.len()) ==> (r matches Err(e) && e@ == "out of range: "@ + dec_str(
            index as nat,
        )),
{
    if 1 <= index && index <= matches.len() {
        let entry = &matches[index - 1];
        proof {
            assert(matches.deep_view()[index - 1] == entry@);
        }
        Ok(entry.as_str())
    } else {
        let mut msg = String::from_str("out of range: ");
        let num = usize_to_string(index);
        msg.append(num.as_str());
        Err(msg)
    }
}

} // verus!
