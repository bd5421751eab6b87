//! Single-index selection: the reduced grammar used when exactly one entry
//! is to be picked. Blank input cancels; otherwise the input must be one
//! decimal index within the bound.

use vstd::prelude::*;
use crate::suggest::selection::{single_index_spec, SelErrView, SelectionError};
use crate::text::{parse_usize, trim_spec, trim_str};

verus! {

/// What a single-selection input means: blank cancels; otherwise the whole
/// input must be one decimal index in `[1, max]`.
pub open spec fn single_selection_spec(input: Seq<char>, max: usize) -> Result<
    Option<usize>,
    SelErrView,
> {
    let t = trim_spec(input);
    if t.len() == 0 {
        Ok(None)
    } else {
        match single_index_spec(t) {
            Err(e) => Err(e),
            Ok(v) => if v == 0 || v > max {
                Err(SelErrView::OutOfRange(v as nat))
            } else {
                Ok(Some(v))
            },
        }
    }
}

/// The two states of the single-selection prompt: still waiting for a
/// usable line, or done with the chosen index (none when cancelled).
#[derive(Debug)]
pub enum SinglePromptState {
    AwaitingInput,
    Done(Option<usize>),
}

/// One turn of the retry loop: a line that parses finishes the prompt; one
/// that does not keeps it waiting and hands back the error to show. The
/// console loop around it only reads lines and prints errors.
pub fn prompt_step(input: &str, max: usize) -> (r: (SinglePromptState, Option<SelectionError>))
    ensures
        ({
            match single_selection_spec(input@, max) {
                Ok(picked) => (r.0 matches SinglePromptState::Done(v) && v == picked) && r.1
                    is None,
                Err(e) => r.0 is AwaitingInput && (r.1 matches Some(err) && err@ == e),
            }
        }),
{
    match parse_selection_input(input, max) {
        Ok(picked) => (SinglePromptState::Done(picked), None),
        Err(err) => (SinglePromptState::AwaitingInput, Some(err)),
    }
}

/// Index invariant for the single variant: an accepted index lies within
/// the bound.
pub proof fn lemma_single_selection_in_bounds(input: Seq<char>, max: usize)
    ensures
        single_selection_spec(input, max) matches Ok(Some(v)) ==> 1 <= v <= max,
{
}

/// Empty-input law for the single variant: blank input cancels and is no
/// error.
pub proof fn lemma_blank_input_cancels(input: Seq<char>, max: usize)
    requires
        trim_spec(input).len() == 0,
    ensures
        single_selection_spec(input, max) == Ok::<Option<usize>, SelErrView>(None),
{
}

/// Bound check for the single variant: `0` is rejected whatever the bound
/// is, and so is the index one above the bound.
pub proof fn lemma_single_out_of_range(max: usize)
    ensures
        single_selection_spec("0"@, max) == Err::<Option<usize>, SelErrView>(
            SelErrView::OutOfRange(0),
        ),
        single_selection_spec(crate::text::dec_str(max as nat + 1), max) is Err,
        max < usize::MAX ==> single_selection_spec(crate::text::dec_str(max as nat + 1), max)
            == Err::<Option<usize>, SelErrView>(SelErrView::OutOfRange(max as nat + 1)),
{
    reveal_strlit("0");
    let z = "0"@;
    assert(z.len() == 1 && z[0] == '0');
    assert(crate::text::all_digits(z));
    crate::text::lemma_trim_digits(z);
    assert(z[0] != '+');
    assert(crate::text::digits_part(z) == z);
    assert(z.drop_last() =~= Seq::<char>::empty());
    assert(crate::text::dec_val(Seq::<char>::empty()) == 0);
    assert(crate::text::dec_val(z) == crate::text::dec_val(z.drop_last()) * 10
        + crate::text::digit_of(z.last()));
    assert(crate::text::number_value(z) == 0);
    let n = max as nat + 1;
    let t = crate::text::dec_str(n);
    crate::text::lemma_dec_str_digits(n);
    crate::text::lemma_dec_str_val(n);
    crate::text::lemma_trim_digits(t);
    assert(crate::text::is_digit_char(t[0]) && t[0] != '+');
    assert(crate::text::digits_part(t) == t);
    assert(crate::text::number_value(t) == n);
}

/// Parses the one numeric index a single selection consists of.
pub fn parse_index(token: &str) -> (r: Result<usize, SelectionError>)
    ensures
        ({
            match r {
                Ok(v) => single_index_spec(token@) == Ok::<usize, SelErrView>(v),
                Err(e) => single_index_spec(token@) == Err::<usize, SelErrView>(e@),
            }
        }),
{
    match parse_usize(token) {
        Some(v) => Ok(v),
        None => Err(SelectionError::NotANumber(String::from_str(token))),
    }
}

/// Parses a single-selection input: blank cancels, one in-range index
/// selects, anything else is an error.
pub fn parse_selection_input(input: &str, max: usize) -> (r: Result<Option<usize>, SelectionError>)
    ensures
        ({
            match r {
                Ok(v) => single_selection_spec(input@, max) == Ok::<Option<usize>, SelErrView>(v),
                Err(e) => single_selection_spec(input@, max) == Err::<Option<usize>, SelErrView>(
                    e@,
                ),
            }
        }),
{
    let trimmed = trim_str(input);
    if trimmed.unicode_len() == 0 {
        return Ok(None);
    }
    let index = match parse_index(trimmed) {
        Ok(v) => v,
        Err(e) => {
            return Err(e);
        },
    };
    if index == 0 || index > max {
        Err(SelectionError::OutOfRange(index))
    } else {
        Ok(Some(index))
    }
}

} // verus!
