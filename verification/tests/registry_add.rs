use gclip_cli::registry::add::normalize_command;
use gclip_cli::registry::Registry;

#[test]
fn add_normalize_command_trims_whitespace() {
    // Surrounding whitespace is removed before registration.
    let normalized = normalize_command("  git status  ").expect("should be valid");
    assert_eq!(normalized, "git status");
}

#[test]
fn add_normalize_command_rejects_empty() {
    // An all-blank command cannot be registered.
    assert!(normalize_command("   ").is_err());
}

#[test]
fn accepts_long_command() {
    // A long piped command registers as it is.
    let command = r#"gh pr list --author godslew --state all --limit 500 --json number,createdAt,title --search "created:2025-10-01..2025-12-31" 2>/dev/null | jq -r '.[].createdAt' | cut -c1-7 | sort | uniq -c | awk '{print; sum+=$1} END{print sum, "合計"}'"#;
    let normalized = normalize_command(command).expect("long command should be valid");
    assert_eq!(normalized, command);
}

#[test]
fn add_command_registers_once() {
    // Adding the same command twice registers it only the first time.
    let mut registry = Registry::new();
    let added = registry.add_command(" ls ").expect("add should succeed");
    assert_eq!(added, 1);
    let added_again = registry.add_command("ls").expect("add should succeed");
    assert_eq!(added_again, 0);
    let listed = registry.list_commands().expect("list should succeed");
    assert_eq!(listed, vec!["ls".to_string()]);
}
