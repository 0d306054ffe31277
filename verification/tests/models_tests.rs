use shellist::{HistoryEntry, strip_command_prefixes};

#[test]
fn history_entry_creation() {
    let entry = HistoryEntry::new("git status", "git");
    assert_eq!(entry.raw, "git status");
    assert_eq!(entry.command, "git");
}

#[test]
fn history_entry_clone_equality() {
    let entry = HistoryEntry::new("ls -la", "ls");
    let cloned = entry.clone();
    assert_eq!(entry, cloned);
}

#[test]
fn new_has_no_timestamp() {
    let entry = HistoryEntry::new("git status", "git");
    assert_eq!(entry.timestamp, None);
}

#[test]
fn with_timestamp_sets_it() {
    let entry = HistoryEntry::new("git status", "git").with_timestamp(123);
    assert_eq!(entry.timestamp, Some(123));
}

#[test]
fn with_timestamp_builds_full_entry() {
    let entry = HistoryEntry::new("ls", "ls").with_timestamp(7);
    assert_eq!(entry.command, "ls");
    assert_eq!(entry.timestamp, Some(7));
}

#[test]
fn strip_leading_sudo() {
    assert_eq!(strip_command_prefixes("sudo apt install"), "apt install");
    assert_eq!(strip_command_prefixes("SUDO ls"), "ls");
}

#[test]
fn strip_env_assignment() {
    assert_eq!(strip_command_prefixes("FOO=bar cmd"), "cmd");
    assert_eq!(strip_command_prefixes("_hidden=1 ls"), "ls");
    assert_eq!(strip_command_prefixes("A=1 B=2 cmd"), "cmd");
    assert_eq!(strip_command_prefixes("URL=http://x cmd"), "cmd");
}

#[test]
fn strip_mixed_prefixes() {
    assert_eq!(strip_command_prefixes("sudo sudo FOO=bar ls -la"), "ls -la");
}

#[test]
fn strip_keeps_bare_prefix_as_command() {
    assert_eq!(strip_command_prefixes("sudo"), "sudo");
    assert_eq!(strip_command_prefixes("FOO=bar"), "FOO=bar");
    assert_eq!(strip_command_prefixes("  sudo  "), "  sudo  ");
}

#[test]
fn strip_plain_line_unchanged() {
    assert_eq!(strip_command_prefixes("git push"), "git push");
    assert_eq!(strip_command_prefixes("ls"), "ls");
}

#[test]
fn strip_not_env_assign() {
    // '=' with empty or numeric-leading name is not an assignment.
    assert_eq!(strip_command_prefixes("=bar cmd"), "=bar cmd");
    assert_eq!(strip_command_prefixes("1=x cmd"), "1=x cmd");
}

#[test]
fn strip_doc_examples() {
    assert_eq!(strip_command_prefixes("sudo apt install"), "apt install");
    assert_eq!(strip_command_prefixes("FOO=bar ls"), "ls");
    assert_eq!(strip_command_prefixes("sudo FOO=bar sudo ls"), "ls");
    assert_eq!(strip_command_prefixes("sudo"), "sudo");
}

#[test]
fn strip_keeps_leading_space_before_real_command() {
    assert_eq!(strip_command_prefixes("  ls -l"), "ls -l");
    assert_eq!(strip_command_prefixes("sudo   \t vim x"), "vim x");
    assert_eq!(strip_command_prefixes("A-B=1 ls"), "A-B=1 ls");
    assert_eq!(strip_command_prefixes("sudoers ls"), "sudoers ls");
    assert_eq!(strip_command_prefixes(""), "");
}
