use gclip_cli::history::parse::parse_history_line;

#[test]
fn ignores_empty_lines() {
    // Blank and whitespace-only lines carry no command.
    assert_eq!(parse_history_line(""), None);
    assert_eq!(parse_history_line("   "), None);
    assert_eq!(parse_history_line("\t"), None);
}

#[test]
fn parses_zsh_extended_format() {
    // Only the command after the `;` is kept.
    let line = ": 1700000000:0;ls -la";
    assert_eq!(parse_history_line(line), Some("ls -la".to_string()));
}

#[test]
fn ignores_empty_zsh_extended_command() {
    // An extended line with nothing after the `;` carries no command.
    let line = ": 1700000000:0;";
    assert_eq!(parse_history_line(line), None);
}

#[test]
fn accepts_plain_format() {
    // A line that is not in the extended format is the command itself.
    let line = "git status";
    assert_eq!(parse_history_line(line), Some("git status".to_string()));
}
