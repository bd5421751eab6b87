use gclip_cli::registry::merge::merge_commands;
use gclip_cli::registry::RegisteredCommands;

#[test]
fn adds_new_commands() {
    // Only commands not yet present are appended.
    let mut registered = RegisteredCommands { commands: vec!["ls".to_string()] };
    let added = merge_commands(&mut registered, &vec!["pwd".to_string()]);
    assert_eq!(added, 1);
    assert_eq!(registered.commands, vec!["ls".to_string(), "pwd".to_string()]);
}

#[test]
fn does_not_add_duplicates() {
    // An already registered command is not appended again.
    let mut registered = RegisteredCommands { commands: vec!["ls".to_string()] };
    let added = merge_commands(&mut registered, &vec!["ls".to_string()]);
    assert_eq!(added, 0);
    assert_eq!(registered.commands, vec!["ls".to_string()]);
}

#[test]
fn no_change_on_empty_input() {
    // Nothing to merge leaves the list untouched.
    let mut registered = RegisteredCommands { commands: vec!["ls".to_string()] };
    let empty: Vec<String> = Vec::new();
    let added = merge_commands(&mut registered, &empty);
    assert_eq!(added, 0);
    assert_eq!(registered.commands, vec!["ls".to_string()]);
}

#[test]
fn ignores_duplicate_inputs() {
    // A command repeated among the new ones is appended once.
    let mut registered = RegisteredCommands { commands: vec!["ls".to_string()] };
    let added = merge_commands(&mut registered, &vec!["pwd".to_string(), "pwd".to_string()]);
    assert_eq!(added, 1);
    assert_eq!(registered.commands, vec!["ls".to_string(), "pwd".to_string()]);
}
