use gclip_cli::registry::remove::{normalize_command, remove_matching};
use gclip_cli::registry::RegisteredCommands;

#[test]
fn remove_normalize_command_trims_whitespace() {
    // Surrounding whitespace is removed before matching.
    let normalized = normalize_command("  git status  ").expect("should be valid");
    assert_eq!(normalized, "git status");
}

#[test]
fn remove_normalize_command_rejects_empty() {
    // An all-blank command cannot be removed.
    assert!(normalize_command("   ").is_err());
}

#[test]
fn remove_matching_removes_only_exact_match() {
    // Only the exact command goes away, not entries containing it.
    let mut registered = RegisteredCommands {
        commands: vec!["git status".to_string(), "git".to_string()],
    };
    let removed = remove_matching(&mut registered, "git");
    assert_eq!(removed, 1);
    assert_eq!(registered.commands, vec!["git status".to_string()]);
}
