use shellist::parsers::zsh_history_parser::parse_zsh_extended;
use shellist::{
    DefaultHistoryParser, FishHistoryParser, HistoryEntry, HistoryParser, ZshHistoryParser,
    parse_history,
};

#[test]
fn parser_parses_basic_commands() {
    let parser = DefaultHistoryParser::new();
    let entries = parser.parse("ls\ngit commit\ncd /home");
    assert_eq!(entries.len(), 3);
    assert_eq!(entries[0].command, "ls");
    assert_eq!(entries[1].command, "git");
    assert_eq!(entries[2].command, "cd");
}

#[test]
fn parser_ignores_empty_lines() {
    let parser = DefaultHistoryParser::new();
    let entries = parser.parse("ls\n\n\ngit");
    assert_eq!(entries.len(), 2);
}

#[test]
fn parser_trims_whitespace() {
    let parser = DefaultHistoryParser::new();
    let entries = parser.parse("  ls  \n  git status  ");
    assert_eq!(entries.len(), 2);
    assert_eq!(entries[0].raw, "ls");
    assert_eq!(entries[0].command, "ls");
    assert_eq!(entries[1].raw, "git status");
    assert_eq!(entries[1].command, "git");
}

#[test]
fn parser_handles_empty_input() {
    let parser = DefaultHistoryParser::new();
    let entries = parser.parse("");
    assert!(entries.is_empty());
}

#[test]
fn parser_extracts_first_token() {
    let parser = DefaultHistoryParser::new();
    let entries = parser.parse("git commit -m \"hello world\"");
    assert_eq!(entries.len(), 1);
    assert_eq!(entries[0].command, "git");
}

#[test]
fn parse_history_convenience_function() {
    let entries = parse_history("echo hello");
    assert_eq!(entries.len(), 1);
    assert_eq!(entries[0].command, "echo");
}

#[test]
fn parses_bash_timestamp_prefix() {
    let input = "#1577836800\nls\n#1577836801\ngit status\n";
    let entries = DefaultHistoryParser::new().parse(input);
    assert_eq!(entries.len(), 2);
    assert_eq!(entries[0].timestamp, Some(1577836800));
    assert_eq!(entries[0].command, "ls");
    assert_eq!(entries[1].timestamp, Some(1577836801));
    assert_eq!(entries[1].command, "git");
}

#[test]
fn bash_timestamp_mixed_with_plain() {
    let input = "ls\n#1577836800\ncd ..\n";
    let entries = DefaultHistoryParser::new().parse(input);
    assert_eq!(entries.len(), 2);
    assert_eq!(entries[0].timestamp, None);
    assert_eq!(entries[0].command, "ls");
    assert_eq!(entries[1].timestamp, Some(1577836800));
    assert_eq!(entries[1].command, "cd");
}

#[test]
fn bash_consecutive_timestamps_use_last() {
    let input = "#1\n#2\nls\n";
    let entries = DefaultHistoryParser::new().parse(input);
    assert_eq!(entries.len(), 1);
    assert_eq!(entries[0].timestamp, Some(2));
}

#[test]
fn bash_hash_not_digits_is_plain() {
    let input = "# comment\nls\n";
    let entries = DefaultHistoryParser::new().parse(input);
    assert_eq!(entries.len(), 2);
    assert_eq!(entries[0].command, "#");
    assert_eq!(entries[1].command, "ls");
}

#[test]
fn bash_timestamp_overflow_clears_pending() {
    let input = "#5\n#99999999999999999999999\nls\n";
    let entries = DefaultHistoryParser::new().parse(input);
    assert_eq!(entries.len(), 1);
    assert_eq!(entries[0].timestamp, None);
}

#[test]
fn bash_crlf_lines_are_trimmed() {
    let entries = parse_history("ls -l\r\n#7\r\ngit\r\n");
    assert_eq!(entries.len(), 2);
    assert_eq!(entries[0].raw, "ls -l");
    assert_eq!(entries[1].timestamp, Some(7));
}

#[test]
fn parses_basic_fish_history() {
    let input = "- cmd: git push\n  when: 1577836800\n- cmd: ls\n  when: 1577836801\n";
    let entries = FishHistoryParser::new().parse(input);
    assert_eq!(entries.len(), 2);
    assert_eq!(entries[0].command, "git");
    assert_eq!(entries[0].raw, "git push");
    assert_eq!(entries[0].timestamp, Some(1577836800));
    assert_eq!(entries[1].command, "ls");
    assert_eq!(entries[1].timestamp, Some(1577836801));
}

#[test]
fn handles_missing_when() {
    let input = "- cmd: ls\n- cmd: git status\n";
    let entries = FishHistoryParser::new().parse(input);
    assert_eq!(entries.len(), 2);
    assert_eq!(entries[0].timestamp, None);
}

#[test]
fn ignores_paths_block() {
    let input = "- cmd: cd\n  when: 1\n  paths:\n    - /home\n- cmd: ls\n  when: 2\n";
    let entries = FishHistoryParser::new().parse(input);
    assert_eq!(entries.len(), 2);
    assert_eq!(entries[0].command, "cd");
    assert_eq!(entries[1].command, "ls");
}

#[test]
fn handles_empty_cmd_value() {
    let input = "- cmd:\n- cmd: ls\n  when: 1\n";
    let entries = FishHistoryParser::new().parse(input);
    assert_eq!(entries.len(), 1);
    assert_eq!(entries[0].command, "ls");
}

#[test]
fn fish_history_parser_handles_empty_input() {
    assert!(FishHistoryParser::new().parse("").is_empty());
}

#[test]
fn handles_trailing_cmd_without_when() {
    let input = "- cmd: ls\n  when: 1\n- cmd: git status\n";
    let entries = FishHistoryParser::new().parse(input);
    assert_eq!(entries.len(), 2);
    assert_eq!(entries[1].command, "git");
    assert_eq!(entries[1].timestamp, None);
}

#[test]
fn ignores_garbage_lines() {
    let input = "garbage line\n- cmd: ls\n  when: 5\nrandom: value\n";
    let entries = FishHistoryParser::new().parse(input);
    assert_eq!(entries.len(), 1);
    assert_eq!(entries[0].timestamp, Some(5));
}

#[test]
fn fish_bare_cmd_and_bad_when() {
    let input = "cmd: vim a\n  when: soon\n  when: +9\n";
    let entries = FishHistoryParser::new().parse(input);
    assert_eq!(entries.len(), 1);
    assert_eq!(entries[0].raw, "vim a");
    assert_eq!(entries[0].timestamp, Some(9));
}

#[test]
fn parses_extended_history() {
    let entries = ZshHistoryParser::new().parse(": 1577836800:0;git push\n");
    assert_eq!(entries.len(), 1);
    assert_eq!(entries[0].command, "git");
    assert_eq!(entries[0].raw, "git push");
    assert_eq!(entries[0].timestamp, Some(1577836800));
}

#[test]
fn parses_plain_lines() {
    let entries = ZshHistoryParser::new().parse("ls\ncd ..\n");
    assert_eq!(entries.len(), 2);
    assert_eq!(entries[0].command, "ls");
    assert_eq!(entries[0].timestamp, None);
}

#[test]
fn handles_multiline_extended() {
    let input = ": 1:0;ls\n: 2:0;git status\n: 3:0;cargo build\n";
    let entries = ZshHistoryParser::new().parse(input);
    assert_eq!(entries.len(), 3);
    assert_eq!(entries[2].command, "cargo");
    assert_eq!(entries[2].timestamp, Some(3));
}

#[test]
fn skips_empty_lines() {
    let entries = ZshHistoryParser::new().parse(": 1:0;ls\n\n  \n: 2:0;git\n");
    assert_eq!(entries.len(), 2);
}

#[test]
fn handles_empty_command_after_separator() {
    let entries = ZshHistoryParser::new().parse(": 1:0;\nls\n");
    assert_eq!(entries.len(), 1);
    assert_eq!(entries[0].command, "ls");
}

#[test]
fn zsh_history_parser_handles_empty_input() {
    assert!(ZshHistoryParser::new().parse("").is_empty());
}

#[test]
fn extended_without_separator_is_plain() {
    // ": 123" has no ';' so it's not valid extended; treat as plain command.
    let entries = ZshHistoryParser::new().parse(": 123\n");
    assert_eq!(entries.len(), 1);
    assert_eq!(entries[0].command, ":");
}

#[test]
fn parse_zsh_extended_helper() {
    assert_eq!(
        parse_zsh_extended(": 1577836800:0;git push"),
        Some(("git push".to_string(), 1577836800))
    );
    assert_eq!(parse_zsh_extended("git push"), None);
}

#[test]
fn zsh_extended_edge_cases() {
    assert_eq!(parse_zsh_extended(":12:3;  ls -a"), Some(("ls -a".to_string(), 12)));
    assert_eq!(parse_zsh_extended(": 12;ls"), None);
    assert_eq!(parse_zsh_extended(": 99999999999999999999:0;ls"), None);
    assert_eq!(parse_zsh_extended(": 5:x;y;z"), Some(("y;z".to_string(), 5)));
}

#[test]
fn integration_parse_full_pipeline() {
    let input = "ls\nls\ngit\n";
    let entries = parse_history(input);
    assert_eq!(entries.len(), 3);
    assert_eq!(entries[0], HistoryEntry::new("ls", "ls"));
    assert_eq!(entries[1], HistoryEntry::new("ls", "ls"));
    assert_eq!(entries[2], HistoryEntry::new("git", "git"));
}

#[test]
fn integration_trait_based_parsing() {
    let parser = DefaultHistoryParser::new();
    let entries = parser.parse("docker ps\n  \n  kubectl get pods  ");
    assert_eq!(entries.len(), 2);
    assert_eq!(entries[0].command, "docker");
    assert_eq!(entries[1].command, "kubectl");
}

#[test]
fn integration_ignores_empty_and_whitespace_lines() {
    let input = "\n  \nls\n\n  git   \n\n";
    let entries = parse_history(input);
    assert_eq!(entries.len(), 2);
    assert_eq!(entries[0].command, "ls");
    assert_eq!(entries[1].command, "git");
}

#[test]
fn integration_extracts_command_from_complex_line() {
    let input = "cargo build --release --target x86_64-unknown-linux-gnu";
    let entries = parse_history(input);
    assert_eq!(entries.len(), 1);
    assert_eq!(entries[0].command, "cargo");
    assert_eq!(entries[0].raw, input);
}
