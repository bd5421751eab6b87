use gclip_cli::registry::search::{filter_commands, normalize_query};
use gclip_cli::registry::RegisteredCommands;

#[test]
fn normalize_query_trims_whitespace() {
    // Surrounding whitespace is removed before searching.
    let normalized = normalize_query("  git ").expect("query should be valid");
    assert_eq!(normalized, "git");
}

#[test]
fn normalize_query_rejects_empty() {
    // An all-blank query cannot be searched for.
    assert!(normalize_query("   ").is_err());
}

#[test]
fn filter_commands_matches_substring_in_order() {
    // Substring matches come back in registration order.
    let registered = RegisteredCommands {
        commands: vec![
            "git status".to_string(),
            "ls -la".to_string(),
            "git commit -m test".to_string(),
        ],
    };
    let results = filter_commands(&registered, "git");
    assert_eq!(
        results,
        vec!["git status".to_string(), "git commit -m test".to_string()]
    );
}

#[test]
fn filter_commands_returns_empty_when_no_match() {
    // No match yields an empty list.
    let registered = RegisteredCommands { commands: vec!["ls -la".to_string()] };
    let results = filter_commands(&registered, "git");
    assert!(results.is_empty());
}
