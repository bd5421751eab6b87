use gclip_cli::suggest::recommend::{build_recommendations, select_top};

#[test]
fn sorts_by_count_then_recency() {
    // With equal counts, the command seen more recently ranks first.
    let recent = vec![
        "ls".to_string(),
        "git status".to_string(),
        "ls".to_string(),
        "make".to_string(),
        "git status".to_string(),
    ];
    let recommendations = build_recommendations(&recent);
    assert_eq!(recommendations[0].command, "git status");
    assert_eq!(recommendations[1].command, "ls");
    assert_eq!(recommendations[2].command, "make");
}

#[test]
fn recommend_returns_all_when_under_limit() {
    // Fewer candidates than the cap come back whole.
    let recent = vec!["a".to_string(), "b".to_string()];
    let recommendations = build_recommendations(&recent);
    let top = select_top(recommendations, 10);
    assert_eq!(top.len(), 2);
}

#[test]
fn returns_empty_when_limit_zero() {
    // A cap of zero yields nothing whatever the window holds.
    let recent = vec!["a".to_string(), "b".to_string()];
    let recommendations = build_recommendations(&recent);
    let top = select_top(recommendations, 0);
    assert!(top.is_empty());
}

#[test]
fn reports_counts_and_last_seen() {
    // The full scenario: counts and last-seen positions come out exactly.
    let recent = vec![
        "ls".to_string(),
        "git status".to_string(),
        "ls".to_string(),
        "make".to_string(),
        "git status".to_string(),
    ];
    let top = select_top(build_recommendations(&recent), 10);
    assert_eq!(top.len(), 3);
    assert_eq!((top[0].command.as_str(), top[0].count, top[0].last_seen), ("git status", 2, 4));
    assert_eq!((top[1].command.as_str(), top[1].count, top[1].last_seen), ("ls", 2, 2));
    assert_eq!((top[2].command.as_str(), top[2].count, top[2].last_seen), ("make", 1, 3));
}

#[test]
fn two_distinct_commands_rank_by_recency() {
    // Two single-occurrence commands: the later one ranks first.
    let recent = vec!["alpha".to_string(), "beta".to_string()];
    let recommendations = build_recommendations(&recent);
    assert_eq!(recommendations[0].command, "beta");
    assert_eq!(recommendations[1].command, "alpha");
}

#[test]
fn ranking_is_deterministic() {
    // Two runs over the same window agree entirely.
    let recent = vec!["b".to_string(), "a".to_string(), "b".to_string()];
    let first = build_recommendations(&recent);
    let second = build_recommendations(&recent);
    assert_eq!(first.len(), second.len());
    for (x, y) in first.iter().zip(second.iter()) {
        assert_eq!(x.command, y.command);
        assert_eq!(x.count, y.count);
        assert_eq!(x.last_seen, y.last_seen);
    }
}

#[test]
fn equal_stats_rank_lexically() {
    // With count and position ties impossible in one window, the comparator
    // still falls back to text order for distinct commands seen once each:
    // here both counts are 1, so recency decides, and reversing the window
    // reverses the outcome.
    let recent = vec!["zz".to_string(), "aa".to_string()];
    let recommendations = build_recommendations(&recent);
    assert_eq!(recommendations[0].command, "aa");
    let reversed = vec!["aa".to_string(), "zz".to_string()];
    let recommendations = build_recommendations(&reversed);
    assert_eq!(recommendations[0].command, "zz");
}

#[test]
fn empty_window_yields_no_recommendations() {
    // Nothing in, nothing out.
    let recent: Vec<String> = Vec::new();
    let recommendations = build_recommendations(&recent);
    assert!(recommendations.is_empty());
}
