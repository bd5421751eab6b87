use gclip_cli::history::recent::recent_commands;
use gclip_cli::history::History;

#[test]
fn truncates_to_recent_limit() {
    // Only the most recent two commands survive a limit of two.
    let contents = ["one", "two", "three"].join("\n");
    let recent = recent_commands(&contents, 2);
    assert_eq!(recent, vec!["two".to_string(), "three".to_string()]);
}

#[test]
fn recent_returns_all_when_under_limit() {
    // Fewer commands than the limit come back unchanged.
    let contents = ["only"].join("\n");
    let recent = recent_commands(&contents, 10);
    assert_eq!(recent, vec!["only".to_string()]);
}

#[test]
fn filters_empty_lines() {
    // Blank lines between commands are dropped.
    let contents = ["git status", "", "ls -la", "   "].join("\n");
    let recent = recent_commands(&contents, 10);
    assert_eq!(recent, vec!["git status".to_string(), "ls -la".to_string()]);
}

#[test]
fn includes_zsh_extended_lines() {
    // Extended-format lines mix freely with plain ones.
    let contents = [": 1700000000:0;pwd", "echo done"].join("\n");
    let recent = recent_commands(&contents, 10);
    assert_eq!(recent, vec!["pwd".to_string(), "echo done".to_string()]);
}

#[test]
fn public_api_can_read_history() {
    // The History entry point exposes the same extraction.
    let contents = ["pwd", "ls"].join("\n");
    let recent = History::recent_commands(&contents, 10);
    assert_eq!(recent, vec!["pwd".to_string(), "ls".to_string()]);
}

#[test]
fn strips_carriage_returns() {
    // A Windows-style line ending does not leak into the command.
    let contents = "git status\r\nls\r\n";
    let recent = recent_commands(contents, 10);
    assert_eq!(recent, vec!["git status".to_string(), "ls".to_string()]);
}
