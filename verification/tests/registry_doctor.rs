use gclip_cli::registry::doctor::{count_duplicate_commands, count_empty_commands, RegistryProbe};
use gclip_cli::registry::{RegisteredCommands, Registry};

#[test]
fn count_empty_commands_detects_blank() {
    // Empty and whitespace-only commands are both counted.
    let commands = vec!["".to_string(), "  ".to_string(), "ls".to_string()];
    assert_eq!(count_empty_commands(&commands), 2);
}

#[test]
fn count_duplicate_commands_detects_duplicates() {
    // Only the repeated occurrences count, not the first ones.
    let commands = vec!["ls".to_string(), "ls".to_string(), "pwd".to_string()];
    assert_eq!(count_duplicate_commands(&commands), 1);
}

#[test]
fn doctor_report_for_missing_store() {
    // A missing store file is healthy: nothing to read, nothing wrong.
    let report = Registry::doctor_report("/home/me/.gclip", false, RegistryProbe::Missing);
    assert_eq!(report.data_dir, "/home/me/.gclip");
    assert_eq!(report.registry_path, "/home/me/.gclip/registered.toml");
    assert!(!report.registry_exists);
    assert!(report.registry_readable);
    assert!(report.registry_valid);
    assert_eq!(report.command_count, 0);
    assert!(report.errors.is_empty());
}

#[test]
fn doctor_report_for_loaded_store() {
    // A parsed store reports its size, blanks and duplicates.
    let regs = RegisteredCommands {
        commands: vec!["ls".to_string(), " ".to_string(), "ls".to_string()],
    };
    let report = Registry::doctor_report("/home/me/.gclip", true, RegistryProbe::Loaded(regs));
    assert!(report.registry_exists);
    assert!(report.registry_readable);
    assert!(report.registry_valid);
    assert_eq!(report.command_count, 3);
    assert_eq!(report.empty_commands, 1);
    assert_eq!(report.duplicate_commands, 1);
    assert!(report.errors.is_empty());
}

#[test]
fn doctor_report_for_invalid_store() {
    // A store that does not parse reports the failure.
    let probe = RegistryProbe::Invalid("bad toml".to_string());
    let report = Registry::doctor_report("/home/me/.gclip", true, probe);
    assert!(report.registry_readable);
    assert!(!report.registry_valid);
    assert_eq!(
        report.errors,
        vec!["failed to parse registry file: bad toml".to_string()]
    );
}
