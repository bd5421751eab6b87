use gclip_cli::search::{command_at_index, ensure_matches, parse_selection_input};
use gclip_cli::selection::{prompt_step, SinglePromptState};

#[test]
fn empty_input_returns_none() {
    // Blank input cancels the selection.
    let result = parse_selection_input("", 3).expect("empty input should be ok");
    assert!(result.is_none());
}

#[test]
fn valid_number_returns_index() {
    // A number within the bound selects that entry.
    let result = parse_selection_input("2", 3).expect("valid input should be ok");
    assert_eq!(result, Some(2));
}

#[test]
fn out_of_range_is_error() {
    // Zero and anything above the bound are rejected.
    assert!(parse_selection_input("0", 3).is_err());
    assert!(parse_selection_input("4", 3).is_err());
}

#[test]
fn non_numeric_is_error() {
    // Anything that is not a number is rejected.
    assert!(parse_selection_input("a", 3).is_err());
}

#[test]
fn command_at_index_maps_one_based() {
    // Index 1 picks the first match; an out-of-range index is an error.
    let matches = vec!["git status".to_string(), "git log".to_string()];
    assert_eq!(command_at_index(&matches, 1).expect("in range"), "git status");
    assert_eq!(command_at_index(&matches, 2).expect("in range"), "git log");
    let err = command_at_index(&matches, 3).expect_err("out of range");
    assert_eq!(err, "out of range: 3");
}

#[test]
fn ensure_matches_rejects_empty() {
    // A search with no hits stops before any prompt.
    let none: Vec<String> = Vec::new();
    assert!(ensure_matches(&none).is_err());
    assert!(ensure_matches(&vec!["ls".to_string()]).is_ok());
}

#[test]
fn single_prompt_finishes_only_on_valid_input() {
    // The single-selection prompt behaves the same way.
    let (state, err) = prompt_step("9", 3);
    assert!(matches!(state, SinglePromptState::AwaitingInput));
    assert_eq!(err.expect("an error to show").message(), "out of range: 9");
    let (state, err) = prompt_step("2", 3);
    assert!(matches!(state, SinglePromptState::Done(Some(2))));
    assert!(err.is_none());
    let (state, _) = prompt_step("", 3);
    assert!(matches!(state, SinglePromptState::Done(None)));
}
