use gclip_cli::doctor::yes_no;
use gclip_cli::history::path::history_path_from_home;
use gclip_cli::registry::path::{data_dir_from_home, recent_path, registry_path};
use gclip_cli::registry::Registry;
use gclip_cli::search::widget::build_zsh_script;
use gclip_cli::selection;
use gclip_cli::suggest::collect_recent_commands;

#[test]
fn registry_flow_add_search_remove() {
    // A command can be registered, found again, and removed exactly.
    let mut registry = Registry::new();
    registry.add_command("git status").expect("add should succeed");
    registry.add_command("git log").expect("add should succeed");
    registry.add_command("ls").expect("add should succeed");

    let hits = registry.search_commands("git").expect("search should succeed");
    assert_eq!(hits, vec!["git status".to_string(), "git log".to_string()]);
    assert!(registry.search_commands("   ").is_err());

    let removed = registry.remove_command(" git log ").expect("remove should succeed");
    assert_eq!(removed, 1);
    let listed = registry.list_commands().expect("list should succeed");
    assert_eq!(listed, vec!["git status".to_string(), "ls".to_string()]);
}

#[test]
fn registry_register_commands_counts_new_entries() {
    // Registering a batch reports how many were actually new.
    let mut registry = Registry::new();
    let added = registry.register_commands(&vec!["ls".to_string(), "pwd".to_string()]);
    assert_eq!(added, 2);
    let added = registry.register_commands(&vec!["pwd".to_string(), "make".to_string()]);
    assert_eq!(added, 1);
}

#[test]
fn registry_tracks_recent_commands() {
    // The registry also keeps the recently-used list.
    let mut registry = Registry::new();
    registry.record_recent("ls").expect("record should succeed");
    registry.record_recent("pwd").expect("record should succeed");
    let recent = registry.recent_commands(10).expect("recent should succeed");
    assert_eq!(recent, vec!["pwd".to_string(), "ls".to_string()]);
}

#[test]
fn collect_recent_commands_rejects_empty_history() {
    // A history with no commands is reported, not silently accepted.
    assert!(collect_recent_commands("\n  \n", 100).is_err());
    let window = collect_recent_commands("ls\npwd\n", 100).expect("history should load");
    assert_eq!(window, vec!["ls".to_string(), "pwd".to_string()]);
}

#[test]
fn single_selection_accepts_only_one_index() {
    // The reduced grammar knows no lists and no ranges.
    assert_eq!(selection::parse_selection_input(" 2 ", 3).expect("ok"), Some(2));
    assert!(selection::parse_selection_input("1,2", 3).is_err());
    assert!(selection::parse_selection_input("1-2", 3).is_err());
    assert!(selection::parse_selection_input("all", 3).is_err());
}

#[test]
fn paths_are_built_under_home() {
    // All files live under the home directory.
    assert_eq!(history_path_from_home("/home/me"), "/home/me/.zsh_history");
    let data_dir = data_dir_from_home("/home/me");
    assert_eq!(data_dir, "/home/me/.gclip");
    assert_eq!(registry_path(&data_dir), "/home/me/.gclip/registered.toml");
    assert_eq!(recent_path(&data_dir), "/home/me/.gclip/recent.toml");
}

#[test]
fn zsh_script_variants_differ_by_bindkey() {
    // Only the set-up variant binds the key.
    let plain = build_zsh_script(false);
    let setup = build_zsh_script(true);
    assert!(!plain.contains("bindkey"));
    assert!(setup.ends_with("bindkey '^g' gclip_insert\n"));
    assert!(setup.starts_with(&plain));
}

#[test]
fn yes_no_renders_flags() {
    assert_eq!(yes_no(true), "yes");
    assert_eq!(yes_no(false), "no");
}
