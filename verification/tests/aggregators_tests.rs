use shellist::{
    CommandMap, HistoryEntry, command_key, count_commands, count_commands_at_depth,
    filter_by_min_frequency, filter_commands, last_used_at_depth, rank_commands,
    rank_commands_ascending, top_n,
};

#[test]
fn counts_basic_commands() {
    let entries = vec![
        HistoryEntry::new("ls", "ls"),
        HistoryEntry::new("ls -la", "ls"),
        HistoryEntry::new("git status", "git"),
    ];
    let counts = count_commands(&entries);
    assert_eq!(counts.get("ls"), Some(&2));
    assert_eq!(counts.get("git"), Some(&1));
}

#[test]
fn normalizes_to_lowercase() {
    let entries = vec![
        HistoryEntry::new("Git status", "Git"),
        HistoryEntry::new("git commit", "git"),
        HistoryEntry::new("GIT push", "GIT"),
    ];
    let counts = count_commands(&entries);
    assert_eq!(counts.get("git"), Some(&3));
}

#[test]
fn trims_spaces_before_counting() {
    let entries = vec![
        HistoryEntry::new("  ls  ", "  ls  "),
        HistoryEntry::new("ls", "ls"),
    ];
    let counts = count_commands(&entries);
    assert_eq!(counts.get("ls"), Some(&2));
}

#[test]
fn skips_empty_commands() {
    let entries = vec![
        HistoryEntry::new("", ""),
        HistoryEntry::new("   ", "   "),
        HistoryEntry::new("ls", "ls"),
    ];
    let counts = count_commands(&entries);
    assert_eq!(counts.len(), 1);
    assert_eq!(counts.get("ls"), Some(&1));
}

#[test]
fn empty_entries_returns_empty_map() {
    let entries: Vec<HistoryEntry> = vec![];
    let counts = count_commands(&entries);
    assert!(counts.is_empty());
}

#[test]
fn depth_one_matches_count_commands() {
    let entries = vec![
        HistoryEntry::new("ls -la", "ls"),
        HistoryEntry::new("git status", "git"),
        HistoryEntry::new("ls", "ls"),
    ];
    let d1 = count_commands_at_depth(&entries, 1);
    assert_eq!(d1.get("ls"), Some(&2));
    assert_eq!(d1.get("git"), Some(&1));
}

#[test]
fn depth_two_separates_subcommands() {
    let entries = vec![
        HistoryEntry::new("git commit", "git"),
        HistoryEntry::new("git push", "git"),
        HistoryEntry::new("git commit -m x", "git"),
        HistoryEntry::new("ls", "ls"),
    ];
    let d2 = count_commands_at_depth(&entries, 2);
    assert_eq!(d2.get("git commit"), Some(&2));
    assert_eq!(d2.get("git push"), Some(&1));
    assert_eq!(d2.get("ls"), Some(&1));
}

#[test]
fn depth_zero_returns_empty() {
    let entries = vec![HistoryEntry::new("ls", "ls")];
    assert!(count_commands_at_depth(&entries, 0).is_empty());
}

#[test]
fn depth_exceeding_tokens_uses_whole_line() {
    let entries = vec![HistoryEntry::new("git push", "git")];
    let d5 = count_commands_at_depth(&entries, 5);
    assert_eq!(d5.get("git push"), Some(&1));
}

#[test]
fn command_key_depth_uses_base_vs_raw() {
    let entry = HistoryEntry::new("Git Push Origin", "Git");
    assert_eq!(command_key(&entry, 1).as_deref(), Some("git"));
    assert_eq!(command_key(&entry, 2).as_deref(), Some("git push"));
    assert_eq!(command_key(&entry, 0), None);
}

#[test]
fn command_key_skips_empty() {
    let entry = HistoryEntry::new("   ", "");
    assert_eq!(command_key(&entry, 1), None);
    assert_eq!(command_key(&entry, 2), None);
}

#[test]
fn command_key_collapses_inner_whitespace() {
    let entry = HistoryEntry::new("  Docker \t  Compose   up ", "Docker");
    assert_eq!(command_key(&entry, 3).as_deref(), Some("docker compose up"));
    assert_eq!(command_key(&entry, 2).as_deref(), Some("docker compose"));
}

#[test]
fn last_used_keeps_latest_timestamp() {
    let entries = vec![
        HistoryEntry::new("ls", "ls").with_timestamp(10),
        HistoryEntry::new("ls -la", "ls").with_timestamp(30),
        HistoryEntry::new("LS", "LS").with_timestamp(20),
        HistoryEntry::new("git", "git"),
    ];
    let last = last_used_at_depth(&entries, 1);
    assert_eq!(last.get("ls"), Some(&30));
    assert_eq!(last.get("git"), None);
    assert_eq!(last.len(), 1);
}

#[test]
fn command_map_insert_replaces() {
    let mut m = CommandMap::new();
    m.insert("a".to_string(), 1usize);
    m.insert("b".to_string(), 2);
    m.insert("a".to_string(), 5);
    assert_eq!(m.len(), 2);
    assert_eq!(m.get("a"), Some(&5));
    assert_eq!(m.get("c"), None);
}

#[test]
fn top_n_returns_first_n() {
    let commands = vec![("ls".into(), 10), ("git".into(), 5), ("cd".into(), 3)];
    let result = top_n(commands, 2);
    assert_eq!(result.len(), 2);
    assert_eq!(result[0], ("ls".into(), 10));
    assert_eq!(result[1], ("git".into(), 5));
}

#[test]
fn top_n_with_n_larger_than_list() {
    let commands = vec![("ls".into(), 10)];
    let result = top_n(commands, 100);
    assert_eq!(result.len(), 1);
}

#[test]
fn top_n_zero_returns_empty() {
    let commands = vec![("ls".into(), 10)];
    let result = top_n(commands, 0);
    assert!(result.is_empty());
}

#[test]
fn top_n_empty_input() {
    let commands: Vec<(String, usize)> = vec![];
    let result = top_n(commands, 5);
    assert!(result.is_empty());
}

#[test]
fn filter_commands_removes_matching() {
    let commands = vec![("ls".into(), 10), ("git".into(), 5), ("cd".into(), 3)];
    let result = filter_commands(commands, &["git".to_string()]);
    assert_eq!(result.len(), 2);
    assert_eq!(result[0].0, "ls");
    assert_eq!(result[1].0, "cd");
}

#[test]
fn filter_commands_with_str_slices() {
    let commands = vec![("ls".into(), 10), ("git".into(), 5), ("cd".into(), 3)];
    let result = filter_commands(commands, &["git", "cd"]);
    assert_eq!(result.len(), 1);
    assert_eq!(result[0].0, "ls");
}

#[test]
fn filter_commands_nothing_ignored() {
    let commands = vec![("ls".into(), 10), ("git".into(), 5)];
    let result: Vec<(String, usize)> = filter_commands(commands, &[] as &[&str]);
    assert_eq!(result.len(), 2);
}

#[test]
fn filter_commands_all_ignored() {
    let commands = vec![("ls".into(), 10)];
    let result = filter_commands(commands, &["ls"]);
    assert!(result.is_empty());
}

#[test]
fn filter_commands_empty_input() {
    let commands: Vec<(String, usize)> = vec![];
    let result = filter_commands(commands, &["git"]);
    assert!(result.is_empty());
}

#[test]
fn min_frequency_filters_below_threshold() {
    let commands = vec![("ls".into(), 10), ("git".into(), 5), ("cd".into(), 1)];
    let result = filter_by_min_frequency(commands, 2);
    assert_eq!(result.len(), 2);
    assert_eq!(result[0].0, "ls");
    assert_eq!(result[1].0, "git");
}

#[test]
fn min_frequency_exact_threshold() {
    let commands = vec![("ls".into(), 3), ("git".into(), 2)];
    let result = filter_by_min_frequency(commands, 3);
    assert_eq!(result.len(), 1);
    assert_eq!(result[0].0, "ls");
}

#[test]
fn min_frequency_zero_passes_all() {
    let commands = vec![("ls".into(), 1)];
    let result = filter_by_min_frequency(commands, 0);
    assert_eq!(result.len(), 1);
}

#[test]
fn min_frequency_higher_than_any_count() {
    let commands = vec![("ls".into(), 5)];
    let result = filter_by_min_frequency(commands, 100);
    assert!(result.is_empty());
}

#[test]
fn min_frequency_empty_input() {
    let commands: Vec<(String, usize)> = vec![];
    let result = filter_by_min_frequency(commands, 1);
    assert!(result.is_empty());
}

#[test]
fn ranks_by_frequency_descending() {
    let mut map = CommandMap::new();
    map.insert("git".to_string(), 3);
    map.insert("ls".to_string(), 5);
    map.insert("cd".to_string(), 1);
    let ranked = rank_commands(map);
    assert_eq!(ranked[0], ("ls".to_string(), 5));
    assert_eq!(ranked[1], ("git".to_string(), 3));
    assert_eq!(ranked[2], ("cd".to_string(), 1));
}

#[test]
fn tie_breaks_alphabetically() {
    let mut map = CommandMap::new();
    map.insert("zebra".to_string(), 2);
    map.insert("alpha".to_string(), 2);
    map.insert("middle".to_string(), 2);
    let ranked = rank_commands(map);
    assert_eq!(ranked[0], ("alpha".to_string(), 2));
    assert_eq!(ranked[1], ("middle".to_string(), 2));
    assert_eq!(ranked[2], ("zebra".to_string(), 2));
}

#[test]
fn handles_single_command() {
    let mut map = CommandMap::new();
    map.insert("ls".to_string(), 42);
    let ranked = rank_commands(map);
    assert_eq!(ranked.len(), 1);
    assert_eq!(ranked[0], ("ls".to_string(), 42));
}

#[test]
fn handles_empty_map() {
    let map: CommandMap<usize> = CommandMap::new();
    let ranked = rank_commands(map);
    assert!(ranked.is_empty());
}

#[test]
fn mixed_frequencies_and_ties() {
    let mut map = CommandMap::new();
    map.insert("vim".to_string(), 10);
    map.insert("emacs".to_string(), 10);
    map.insert("nano".to_string(), 5);
    map.insert("cat".to_string(), 20);
    let ranked = rank_commands(map);
    assert_eq!(ranked[0], ("cat".to_string(), 20));
    assert_eq!(ranked[1], ("emacs".to_string(), 10));
    assert_eq!(ranked[2], ("vim".to_string(), 10));
    assert_eq!(ranked[3], ("nano".to_string(), 5));
}

#[test]
fn ascending_orders_lowest_first() {
    let mut map = CommandMap::new();
    map.insert("git".to_string(), 3);
    map.insert("ls".to_string(), 5);
    map.insert("cd".to_string(), 1);
    let ranked = rank_commands_ascending(map);
    assert_eq!(ranked[0], ("cd".to_string(), 1));
    assert_eq!(ranked[1], ("git".to_string(), 3));
    assert_eq!(ranked[2], ("ls".to_string(), 5));
}

#[test]
fn ascending_tie_breaks_alphabetically() {
    let mut map = CommandMap::new();
    map.insert("zebra".to_string(), 2);
    map.insert("alpha".to_string(), 2);
    let ranked = rank_commands_ascending(map);
    assert_eq!(ranked[0], ("alpha".to_string(), 2));
    assert_eq!(ranked[1], ("zebra".to_string(), 2));
}

#[test]
fn ranking_orders_names_by_code_point() {
    let mut map = CommandMap::new();
    map.insert("b".to_string(), 1);
    map.insert("B".to_string(), 1);
    map.insert("é".to_string(), 1);
    map.insert("ba".to_string(), 1);
    let ranked = rank_commands(map);
    let names: Vec<&str> = ranked.iter().map(|(c, _)| c.as_str()).collect();
    assert_eq!(names, vec!["B", "b", "ba", "é"]);
}

#[test]
fn ascii_case_merges_at_every_depth() {
    let entries = vec![
        HistoryEntry::new("Git Commit -m x", "Git"),
        HistoryEntry::new("git commit", "git"),
        HistoryEntry::new("GIT COMMIT --amend", "GIT"),
    ];
    let d2 = count_commands_at_depth(&entries, 2);
    assert_eq!(d2.get("git commit"), Some(&3));
    assert_eq!(d2.len(), 1);
    assert_eq!(command_key(&entries[0], 1), Some("git".to_string()));
    assert_eq!(command_key(&entries[2], 2), Some("git commit".to_string()));
}
