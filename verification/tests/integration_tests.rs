use shellist::{CommandPattern, Shell, completions, grep_filter, man_page};

#[test]
fn bash_script_has_complete_directive() {
    let s = completions(Shell::Bash);
    assert!(s.contains("complete -F _shellist shellist"));
    assert!(s.contains("--json"));
}

#[test]
fn zsh_script_has_compdef() {
    let s = completions(Shell::Zsh);
    assert!(s.contains("#compdef shellist"));
    assert!(s.contains("--csv"));
}

#[test]
fn fish_script_has_complete_lines() {
    let s = completions(Shell::Fish);
    assert!(s.contains("complete -c shellist"));
    assert!(s.contains("-l grep"));
}

#[test]
fn fish_script_exact_lines() {
    let s = completions(Shell::Fish);
    let lines: Vec<&str> = s.lines().collect();
    assert_eq!(lines.len(), 27);
    assert_eq!(lines[0], "complete -c shellist -l path -d \"History file path\" -r");
    assert_eq!(lines[1], "complete -c shellist -l shell -d \"Force shell parser\" -x -a \"bash zsh fish\"");
    assert_eq!(lines[2], "complete -c shellist -l top -d \"Show top N commands\"");
    assert_eq!(lines[19], "complete -c shellist -l trend-bucket -d \"Trend bucket\" -x -a \"day week month\"");
}

#[test]
fn bash_script_lists_all_flags() {
    let s = completions(Shell::Bash);
    assert!(s.starts_with("_shellist() {\n"));
    assert!(s.contains("opts=\"--path --shell --top --ignore"));
    assert!(s.contains("--man --help --version\""));
    assert!(s.ends_with("complete -F _shellist shellist\n"));
}

#[test]
fn man_page_has_title_and_options() {
    let m = man_page();
    assert!(m.contains(".TH SHELLIST 1"));
    assert!(m.contains(".SH OPTIONS"));
    assert!(m.contains("\\-\\-json"));
    assert!(m.contains("\\-\\-grep"));
}

#[test]
fn man_page_carries_version() {
    let m = man_page();
    assert!(m.starts_with(".TH SHELLIST 1 \"0.1.0\" \"shellist 0.1.0\" \"User Commands\"\n"));
}

fn ranked() -> Vec<(String, usize)> {
    vec![
        ("git".to_string(), 5),
        ("gita".to_string(), 2),
        ("ls".to_string(), 9),
        ("grep".to_string(), 1),
    ]
}

#[test]
fn filters_by_pattern() {
    let re = CommandPattern::new("^git").ok().unwrap();
    let got = grep_filter(&ranked(), &re);
    let names: Vec<&str> = got.iter().map(|(c, _)| c.as_str()).collect();
    assert_eq!(names, vec!["git", "gita"]);
}

#[test]
fn no_match_returns_empty() {
    let re = CommandPattern::new("^zzz").ok().unwrap();
    assert!(grep_filter(&ranked(), &re).is_empty());
}

#[test]
fn anchored_vs_unanchored() {
    let re = CommandPattern::new("git").ok().unwrap();
    assert_eq!(grep_filter(&ranked(), &re).len(), 2);
}

#[test]
fn invalid_pattern_is_refused() {
    let err = CommandPattern::new("(").err().unwrap();
    assert!(!err.message.is_empty());
    assert_eq!(CommandPattern::new("a+").ok().unwrap().as_str(), "a+");
}
