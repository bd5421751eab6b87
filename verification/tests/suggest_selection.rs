use gclip_cli::suggest::recommend::build_recommendations;
use gclip_cli::suggest::selection::{
    ensure_recommendations, parse_selection_input, prompt_step, select_commands, PromptState,
    SelectionError,
};

#[test]
fn empty_input_returns_empty_vec() {
    // Blank input selects nothing, without error.
    let result = parse_selection_input("", 5).expect("empty input should be ok");
    assert!(result.is_empty());
}

#[test]
fn all_selects_all() {
    // The keyword selects every index up to the bound.
    let result = parse_selection_input("all", 3).expect("all should be ok");
    assert_eq!(result, vec![1, 2, 3]);
}

#[test]
fn supports_comma_separated_input() {
    // A comma list picks exactly the named indices.
    let result = parse_selection_input("1,3", 3).expect("comma selection should be ok");
    assert_eq!(result, vec![1, 3]);
}

#[test]
fn supports_range_input() {
    // A range expands to every index it covers.
    let result = parse_selection_input("1-3", 3).expect("range selection should be ok");
    assert_eq!(result, vec![1, 2, 3]);
}

#[test]
fn deduplicates_indices() {
    // A repeated index is kept once.
    let result = parse_selection_input("2,2", 3).expect("duplicate selection should be ok");
    assert_eq!(result, vec![2]);
}

#[test]
fn selection_out_of_range_is_error() {
    // Zero and anything above the bound are rejected.
    assert!(parse_selection_input("0", 3).is_err());
    assert!(parse_selection_input("4", 3).is_err());
}

#[test]
fn reverse_range_is_error() {
    // A range running backwards is rejected.
    assert!(parse_selection_input("3-1", 3).is_err());
}

#[test]
fn selection_non_numeric_is_error() {
    // Anything that is not a number is rejected.
    assert!(parse_selection_input("a", 3).is_err());
}

#[test]
fn mixed_separators_are_accepted() {
    // Commas and spaces may be mixed between tokens.
    let result = parse_selection_input("1, 3 4", 4).expect("mixed separators should be ok");
    assert_eq!(result, vec![1, 3, 4]);
}

#[test]
fn error_messages_are_descriptive() {
    // Each failure names what went wrong.
    let err = parse_selection_input("4", 3).expect_err("out of range");
    assert_eq!(err.message(), "out of range: 4");
    let err = parse_selection_input("a", 3).expect_err("not a number");
    assert_eq!(err.message(), "not a number: a");
    let err = parse_selection_input("3-1", 3).expect_err("invalid range");
    assert_eq!(err.message(), "invalid range: 3-1");
    let err = parse_selection_input(",", 3).expect_err("no selection");
    assert_eq!(err.message(), "no valid selection");
    let err = parse_selection_input("12", 3).expect_err("two digits out of range");
    assert_eq!(err.message(), "out of range: 12");
}

#[test]
fn error_kinds_can_be_matched() {
    // Callers can pattern-match the error instead of its text.
    assert!(matches!(
        parse_selection_input("0", 3),
        Err(SelectionError::OutOfRange(0))
    ));
    assert!(matches!(
        parse_selection_input("x", 3),
        Err(SelectionError::NotANumber(_))
    ));
    assert!(matches!(
        parse_selection_input("5-2", 9),
        Err(SelectionError::InvalidRange(_))
    ));
    assert!(matches!(
        parse_selection_input(", ,", 3),
        Err(SelectionError::NoValidSelection)
    ));
}

#[test]
fn select_commands_maps_indices_back() {
    // The chosen 1-based indices pick the matching recommendations.
    let recent = vec!["b".to_string(), "a".to_string(), "b".to_string()];
    let recommendations = build_recommendations(&recent);
    assert!(ensure_recommendations(&recommendations).is_ok());
    let picked = select_commands(&recommendations, &vec![1, 2]);
    assert_eq!(picked, vec!["b".to_string(), "a".to_string()]);
}

#[test]
fn ensure_recommendations_rejects_empty() {
    // An empty candidate list stops the flow before any prompt.
    let none = Vec::new();
    assert!(ensure_recommendations(&none).is_err());
}

#[test]
fn prompt_finishes_only_on_valid_input() {
    // The prompt state machine stays waiting on bad input and finishes on
    // good input.
    let (state, err) = prompt_step("x", 3);
    assert!(matches!(state, PromptState::AwaitingInput));
    assert_eq!(err.expect("an error to show").message(), "not a number: x");
    let (state, err) = prompt_step("1,2", 3);
    assert!(matches!(state, PromptState::Done(v) if v == vec![1, 2]));
    assert!(err.is_none());
}
