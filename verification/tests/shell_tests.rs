use shellist::shell::looks_like_zsh_extended;
use shellist::{Shell, detect_shell, parse_with_detected, analyze};

#[test]
fn shell_from_name() {
    assert_eq!(Shell::from_name("bash"), Some(Shell::Bash));
    assert_eq!(Shell::from_name("ZSH"), Some(Shell::Zsh));
    assert_eq!(Shell::from_name("Fish"), Some(Shell::Fish));
    assert_eq!(Shell::from_name("powershell"), None);
}

#[test]
fn shell_as_str() {
    assert_eq!(Shell::Bash.as_str(), "bash");
    assert_eq!(Shell::Zsh.as_str(), "zsh");
    assert_eq!(Shell::Fish.as_str(), "fish");
}

fn file_name(p: &str) -> &str {
    p.rsplit('/').next().unwrap()
}

#[test]
fn bash_default_path() {
    let path = Shell::Bash.default_history_path(Some("/home/user"), None).unwrap();
    assert_eq!(file_name(&path), ".bash_history");
}

#[test]
fn zsh_default_path() {
    let path = Shell::Zsh.default_history_path(Some("/home/user"), None).unwrap();
    assert_eq!(file_name(&path), ".zsh_history");
}

#[test]
fn fish_default_path() {
    let path = Shell::Fish.default_history_path(Some("/home/user"), None).unwrap();
    assert_eq!(file_name(&path), "fish_history");
}

#[test]
fn history_paths_join_components() {
    assert_eq!(
        Shell::Bash.default_history_path(Some("/home/user"), None).as_deref(),
        Some("/home/user/.bash_history")
    );
    assert_eq!(Shell::Zsh.default_history_path(Some("/root/"), None).as_deref(), Some("/root/.zsh_history"));
    assert_eq!(
        Shell::Fish.default_history_path(Some("/h"), None).as_deref(),
        Some("/h/.local/share/fish/fish_history")
    );
    assert_eq!(
        Shell::Fish.default_history_path(Some("/h"), Some("/data")).as_deref(),
        Some("/data/fish/fish_history")
    );
    assert_eq!(Shell::Fish.default_history_path(None, Some("/data")), None);
}

#[test]
fn detect_bash() {
    assert_eq!(detect_shell("ls\ngit status\ncd .."), Shell::Bash);
}

#[test]
fn detect_zsh_extended() {
    let input = ": 1577836800:0;ls\n: 1577836801:0;git status\n";
    assert_eq!(detect_shell(input), Shell::Zsh);
}

#[test]
fn detect_fish() {
    let input = "- cmd: ls\n  when: 1577836800\n- cmd: git status\n  when: 1577836801\n";
    assert_eq!(detect_shell(input), Shell::Fish);
}

#[test]
fn detect_empty_defaults_to_bash() {
    assert_eq!(detect_shell(""), Shell::Bash);
}

#[test]
fn zsh_extended_detection_helper() {
    assert!(looks_like_zsh_extended(": 1577836800:0;git push"));
    assert!(looks_like_zsh_extended(":1234567890:0;ls"));
    assert!(!looks_like_zsh_extended("git push"));
    assert!(!looks_like_zsh_extended("- cmd: ls"));
    assert!(!looks_like_zsh_extended(":not zsh"));
}

#[test]
fn detect_mixed_falls_to_first_signal() {
    // fish marker wins on its line
    let input = "ls\n- cmd: git status\n  when: 1\n";
    assert_eq!(detect_shell(input), Shell::Fish);
}

#[test]
fn detect_looks_at_ten_lines_only() {
    let input = "a\nb\n\n\nc\nd\ne\nf\ng\nh\ni\nj\n- cmd: ls\n";
    assert_eq!(detect_shell(input), Shell::Bash);
    let input = "a\nb\n\n\nc\nd\ne\nf\ng\nh\ni\n- cmd: ls\n";
    assert_eq!(detect_shell(input), Shell::Fish);
}

#[test]
fn analyze_doc_example() {
    let ranked = analyze("ls\ngit\nls\ncd\ngit\nls");
    assert_eq!(
        ranked,
        vec![("ls".to_string(), 3), ("git".to_string(), 2), ("cd".to_string(), 1)]
    );
    let result = analyze("git push\ngit commit\ncargo test\ncd ..\ncd /\n");
    assert_eq!(result.first(), Some(&("cd".to_string(), 2)));
}

#[test]
fn parse_with_detected_doc_example() {
    let entries = parse_with_detected(": 1577836800:0;git push\nls\n");
    assert_eq!(entries.len(), 2);
    assert_eq!(entries[0].timestamp, Some(1577836800));
    assert_eq!(entries[1].command, "ls");
}
