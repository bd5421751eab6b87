use gclip_cli::registry::recent::{record_recent, recent_commands};
use gclip_cli::registry::RegisteredCommands;

#[test]
fn record_recent_moves_command_to_front() {
    // Using a command again moves it to the front without duplicating it.
    let mut recent = RegisteredCommands { commands: Vec::new() };
    record_recent(&mut recent, "ls").expect("record should succeed");
    record_recent(&mut recent, "pwd").expect("record should succeed");
    record_recent(&mut recent, "ls").expect("record should succeed");

    let listed = recent_commands(&recent, 10).expect("recent should succeed");
    assert_eq!(listed, vec!["ls".to_string(), "pwd".to_string()]);
}

#[test]
fn recent_commands_respects_limit() {
    // Asking for two entries returns the two newest.
    let mut recent = RegisteredCommands { commands: Vec::new() };
    record_recent(&mut recent, "one").expect("record should succeed");
    record_recent(&mut recent, "two").expect("record should succeed");
    record_recent(&mut recent, "three").expect("record should succeed");

    let listed = recent_commands(&recent, 2).expect("recent should succeed");
    assert_eq!(listed, vec!["three".to_string(), "two".to_string()]);
}

#[test]
fn record_recent_rejects_blank() {
    // An all-blank command cannot be recorded.
    let mut recent = RegisteredCommands { commands: Vec::new() };
    assert!(record_recent(&mut recent, "   ").is_err());
}

#[test]
fn record_recent_caps_the_list() {
    // The list never grows past its cap of fifty entries.
    let mut recent = RegisteredCommands { commands: Vec::new() };
    for i in 0..60 {
        let command = format!("command-{i}");
        record_recent(&mut recent, &command).expect("record should succeed");
    }
    assert_eq!(recent.commands.len(), 50);
    assert_eq!(recent.commands[0], "command-59");
}
