use shellist::cli::args::{Args, ParsedArgs, parse_args};
use shellist::cli::help::{help, version_line};
use shellist::cli::pipeline::{RunOutput, core_pipeline};
use shellist::cli::run::{
    InputSource, default_input_path, fixed_output, input_sources, nothing_to_show_message, prepare_filters, source_label,
};
use shellist::{Bucket, CommandPattern, Shell, default_history_path, default_history_path_for};

fn pipeline(content: &str, args: &Args, grep: Option<&str>) -> (String, bool) {
    let pattern = grep.map(|p| CommandPattern::new(&format!("(?i){p}")).ok().unwrap());
    let r: RunOutput = core_pipeline(&[content.to_string()], args, pattern.as_ref(), None, None);
    (r.output, r.was_empty)
}

fn json_output(out: &str) -> String {
    out.replace(['\n', ' '], "")
}

fn argv(items: &[&str]) -> Vec<String> {
    items.iter().map(|s| s.to_string()).collect()
}

#[test]
fn strips_sudo_and_env_prefixes_by_default() {
    let mut args = Args::empty();
    args.json = true;
    let (out, _) = pipeline("sudo apt install\nFOO=bar ls\napt update\n", &args, None);
    let json = json_output(&out);
    assert!(json.contains("\"command\":\"apt\",\"count\":2"));
    assert!(json.contains("\"command\":\"ls\",\"count\":1"));
    assert!(!json.contains("sudo"));
}

#[test]
fn no_strip_keeps_prefixes() {
    let mut args = Args::empty();
    args.json = true;
    args.no_strip = true;
    let (out, _) = pipeline("sudo apt install\napt update\n", &args, None);
    let json = json_output(&out);
    assert!(json.contains("\"command\":\"sudo\",\"count\":1"));
    assert!(json.contains("\"command\":\"apt\",\"count\":1"));
}

#[test]
fn strip_survives_bare_sudo() {
    let mut args = Args::empty();
    args.json = true;
    let (out, _) = pipeline("sudo\nsudo ls\n", &args, None);
    let json = json_output(&out);
    assert!(json.contains("\"command\":\"sudo\",\"count\":1"));
    assert!(json.contains("\"command\":\"ls\",\"count\":1"));
}

#[test]
fn collapse_merges_adjacent_duplicates() {
    let mut args = Args::empty();
    args.json = true;
    args.collapse = true;
    let (out, _) = pipeline("ls\nls\nls\ngit\n", &args, None);
    let json = json_output(&out);
    assert!(json.contains("\"command\":\"git\",\"count\":1"));
    assert!(json.contains("\"command\":\"ls\",\"count\":1"));
}

#[test]
fn collapse_keeps_non_adjacent_duplicates() {
    let mut args = Args::empty();
    args.json = true;
    args.collapse = true;
    let (out, _) = pipeline("ls\ngit\nls\n", &args, None);
    let json = json_output(&out);
    assert!(json.contains("\"command\":\"ls\",\"count\":2"));
}

#[test]
fn trend_applies_grep_before_bucketing() {
    let mut args = Args::empty();
    args.trend = true;
    let content = ": 1577836800:0;git push\n: 1577836800:0;git commit\n\
                  : 1577836800:0;ls\n: 1577923200:0;ls\n";
    let (out, _) = pipeline(content, &args, Some("^git$"));
    assert!(out.contains("2020-01-01"));
    assert!(out.contains(" 2 "));
    assert!(!out.contains("2020-01-02"));
}

#[test]
fn trend_grep_respects_depth() {
    let mut args = Args::empty();
    args.trend = true;
    args.depth = Some(2);
    let content = ": 1577836800:0;git push\n: 1577836800:0;git commit\n: 1577836800:0;ls\n";
    let (out, _) = pipeline(content, &args, Some("^git commit$"));
    assert!(out.contains("2020-01-01"));
    assert!(out.contains(" 1 "));
}

#[test]
fn main_hourly_buckets_by_utc_hour() {
    let mut args = Args::empty();
    args.hourly = true;
    // 2020-01-01T00:00:00Z (x2) and 2020-01-01T05:00:00Z.
    let content = ": 1577836800:0;git push\n: 1577836800:0;git commit\n\
                  : 1577854800:0;ls\n";
    let (out, _) = pipeline(content, &args, None);
    assert!(out.contains("Hour"));
    assert!(out.contains(" 2 "));
    assert!(out.contains("05"));
}

#[test]
fn last_used_column_shows_max_date() {
    let mut args = Args::empty();
    args.last_used = true;
    // ls on 2020-01-01 (1577836800) and 2020-01-02 (1577923200).
    let content = ": 1577836800:0;ls\n: 1577923200:0;ls\n: 1577836800:0;git\n";
    let (out, _) = pipeline(content, &args, None);
    assert!(out.contains("Last Used"));
    assert!(out.contains("2020-01-02"));
}

#[test]
fn multi_file_merges_formats() {
    let mut args = Args::empty();
    args.json = true;
    let zsh = ": 1577836800:0;git push\n".to_string();
    let fish = "- cmd: ls\n  when: 1577836800\n".to_string();
    let r = core_pipeline(&[zsh, fish], &args, None, None, None);
    let json = json_output(&r.output);
    assert!(json.contains("\"command\":\"git\",\"count\":1"));
    assert!(json.contains("\"command\":\"ls\",\"count\":1"));
}

#[test]
fn default_path_ends_with_bash_history() {
    // The home directory is handed in; the program reads it from `HOME`.
    let path = default_history_path(Some("/home/user")).unwrap();
    assert!(path.ends_with("/.bash_history"));
    assert_eq!(path, "/home/user/.bash_history");
}

#[test]
fn default_path_is_absolute() {
    let path = default_history_path(Some("/home/user")).unwrap();
    assert!(path.starts_with('/'));
}

#[test]
fn default_path_needs_home() {
    assert_eq!(default_history_path(None), None);
    assert_eq!(default_history_path_for(Shell::Zsh, None, Some("/x")), None);
}

#[test]
fn default_path_for_each_shell() {
    assert_eq!(
        default_history_path_for(Shell::Zsh, Some("/home/u/"), None).unwrap(),
        "/home/u/.zsh_history"
    );
    assert_eq!(
        default_history_path_for(Shell::Fish, Some("/home/u"), None).unwrap(),
        "/home/u/.local/share/fish/fish_history"
    );
    assert_eq!(
        default_history_path_for(Shell::Fish, Some("/home/u"), Some("/data")).unwrap(),
        "/data/fish/fish_history"
    );
}

#[test]
fn pipeline_ranks_and_filters_in_table() {
    let mut args = Args::empty();
    args.top = Some(2);
    let content = "ls\nls\nls\ngit\ngit\ncd\nset -x\nshopt -s x\n";
    let (out, was_empty) = pipeline(content, &args, None);
    assert!(!was_empty);
    let expected = "Rank  Command  Count\n\
                    ----  -------  -----\n   \
                    1  ls           3\n   \
                    2  git          2\n";
    assert_eq!(out, expected);
}

#[test]
fn pipeline_default_ignore_can_be_turned_off() {
    let mut args = Args::empty();
    args.csv = true;
    args.no_default_ignore = true;
    let (out, _) = pipeline("set -x\nls\n", &args, None);
    assert_eq!(out, "command,count\nls,1\nset,1\n");
    args.no_default_ignore = false;
    let (out, _) = pipeline("set -x\nls\n", &args, None);
    assert_eq!(out, "command,count\nls,1\n");
}

#[test]
fn pipeline_ascending_min_and_ignore() {
    let mut args = Args::empty();
    args.csv = true;
    args.asc = true;
    args.min_freq = Some(2);
    args.ignore = vec!["git".to_string()];
    let (out, _) = pipeline("ls\nls\nls\ngit\ngit\ncd\ncd\nvim\n", &args, None);
    assert_eq!(out, "command,count\ncd,2\nls,3\n");
}

#[test]
fn pipeline_grep_is_case_insensitive() {
    let mut args = Args::empty();
    args.csv = true;
    let (out, _) = pipeline("Git status\nls\ngit log\n", &args, Some("^GIT$"));
    assert_eq!(out, "command,count\ngit,2\n");
}

#[test]
fn pipeline_reports_empty_table() {
    let args = Args::empty();
    let (out, was_empty) = pipeline("set -x\n", &args, None);
    assert!(was_empty);
    assert_eq!(out, "");
}

#[test]
fn pipeline_stats_output() {
    let mut args = Args::empty();
    args.stats = true;
    let (out, _) = pipeline("ls\nls\ngit\n", &args, None);
    assert!(out.contains("Total commands:   3"));
    assert!(out.contains("Most used:        ls (2)"));
}

#[test]
fn pipeline_date_range_notes() {
    let args = Args::empty();
    let bash = vec!["ls\n".to_string()];
    let r = core_pipeline(&bash, &args, None, Some(0), None);
    assert_eq!(r.output, "");
    assert!(!r.was_empty);
    assert_eq!(
        r.notice.as_deref(),
        Some("shellist: no timestamped entries for date filter (need zsh extended, fish, or timestamped history)")
    );
    let zsh = vec![": 1577836800:0;ls\n: 1577923200:0;git\n".to_string()];
    let r = core_pipeline(&zsh, &args, None, Some(1_600_000_000), None);
    assert_eq!(r.notice.as_deref(), Some("shellist: date range excludes all entries"));
    let mut json_args = Args::empty();
    json_args.json = true;
    let r = core_pipeline(&zsh, &json_args, None, Some(1_577_900_000), Some(1_577_923_200));
    assert_eq!(r.notice, None);
    assert!(json_output(&r.output).contains("\"command\":\"git\",\"count\":1"));
    assert!(!r.output.contains("\"ls\""));
}

#[test]
fn pipeline_trend_without_timestamps_notes() {
    let mut args = Args::empty();
    args.trend = true;
    let (out, was_empty) = pipeline("ls\n", &args, None);
    assert_eq!(out, "");
    assert!(!was_empty);
    let r = core_pipeline(&["ls\n".to_string()], &args, None, None, None);
    assert_eq!(
        r.notice.as_deref(),
        Some("shellist: no timestamped entries for --trend/--hourly (need zsh extended, fish, or timestamped history)")
    );
}

#[test]
fn pipeline_forced_shell() {
    let mut args = Args::empty();
    args.csv = true;
    args.shell = Some(Shell::Bash);
    // Read as bash, the zsh metadata stays part of the line.
    let (out, _) = pipeline(": 1577836800:0;git push\n", &args, None);
    assert_eq!(out, "command,count\n:,1\n");
}

#[test]
fn parse_args_reads_flags_in_order() {
    match parse_args(&argv(&["--top", "5", "--json", "--ignore", " Git , LS", "--path", "a, ,b", "-"])) {
        ParsedArgs::Run(a) => {
            assert_eq!(a.top, Some(5));
            assert!(a.json);
            assert_eq!(a.ignore, vec!["git".to_string(), "ls".to_string()]);
            assert_eq!(a.paths, vec!["a".to_string(), "b".to_string(), "-".to_string()]);
        },
        _ => panic!("expected options"),
    }
}

#[test]
fn parse_args_values_and_switches() {
    let v = argv(&[
        "--shell", "ZSH", "--trend-bucket", "weekly", "--since", "7d", "--until", "2020-01-01",
        "--grep", "^g", "--output", "out.txt", "--depth", "2", "--min", "3", "--asc", "--csv",
        "--bars", "--percent", "--last-used", "--stats", "--trend", "--hourly", "--man",
        "--no-strip", "--collapse", "--no-default-ignore", "--completions", "fish",
    ]);
    match parse_args(&v) {
        ParsedArgs::Run(a) => {
            assert_eq!(a.shell, Some(Shell::Zsh));
            assert_eq!(a.trend_bucket, Some(Bucket::Week));
            assert_eq!(a.since.as_deref(), Some("7d"));
            assert_eq!(a.until.as_deref(), Some("2020-01-01"));
            assert_eq!(a.grep.as_deref(), Some("^g"));
            assert_eq!(a.output.as_deref(), Some("out.txt"));
            assert_eq!(a.depth, Some(2));
            assert_eq!(a.min_freq, Some(3));
            assert!(a.asc && a.csv && a.bars && a.percent && a.last_used && a.stats);
            assert!(a.trend && a.hourly && a.man && a.no_strip && a.collapse && a.no_default_ignore);
            assert_eq!(a.completions, Some(Shell::Fish));
        },
        _ => panic!("expected options"),
    }
}

#[test]
fn parse_args_errors() {
    let msg = |items: &[&str]| match parse_args(&argv(items)) {
        ParsedArgs::Invalid(m) => m,
        _ => panic!("expected an error"),
    };
    assert_eq!(msg(&["--top"]), "shellist: --top requires a value");
    assert_eq!(msg(&["--min", "x1"]), "shellist: --min expects a number, got 'x1'");
    assert_eq!(msg(&["--shell", "tcsh"]), "shellist: --shell expects bash, zsh, or fish, got 'tcsh'");
    assert_eq!(
        msg(&["--trend-bucket", "year"]),
        "shellist: --trend-bucket expects day, week, or month, got 'year'"
    );
    assert_eq!(msg(&["--json", "--frobnicate"]), "shellist: unknown flag '--frobnicate'");
    assert_eq!(msg(&["--completions"]), "shellist: --completions requires a value");
}

#[test]
fn parse_args_help_and_version_stop_reading() {
    assert!(matches!(parse_args(&argv(&["--help", "--bogus"])), ParsedArgs::Help));
    assert!(matches!(parse_args(&argv(&["--json", "--version"])), ParsedArgs::Version));
    assert!(matches!(parse_args(&argv(&["--bogus", "--help"])), ParsedArgs::Invalid(_)));
    assert!(matches!(parse_args(&argv(&[])), ParsedArgs::Run(_)));
}

#[test]
fn help_and_version_texts() {
    let h = help();
    assert!(h.starts_with("shellist 0.1.0 — shell history analysis\n"));
    assert!(h.contains("Don't filter bash internals (set, shopt)"));
    assert!(h.ends_with("Print version and exit\n"));
    assert_eq!(version_line(), "shellist 0.1.0\n");
}

#[test]
fn fixed_output_for_man_and_completions() {
    let mut a = Args::empty();
    assert!(fixed_output(&a).is_none());
    a.completions = Some(Shell::Bash);
    assert!(fixed_output(&a).unwrap().contains("complete -F _shellist shellist"));
    a.man = true;
    assert!(fixed_output(&a).unwrap().starts_with(".TH SHELLIST 1"));
}

#[test]
fn prepare_filters_reads_dates_and_pattern() {
    let mut a = Args::empty();
    a.grep = Some("^GIT$".to_string());
    a.since = Some("2d".to_string());
    a.until = Some("2020-01-02".to_string());
    let f = prepare_filters(&a, 1_000_000).ok().unwrap();
    assert_eq!(f.since, Some(1_000_000 - 2 * 86_400));
    // A date keeps its whole day: up to the second before 2020-01-03.
    assert_eq!(f.until, Some(1_577_923_200 + 86_399));
    let p = f.grep.unwrap();
    assert_eq!(p.as_str(), "(?i)^GIT$");
    assert!(p.is_match("git"));
}

#[test]
fn prepare_filters_errors() {
    let mut a = Args::empty();
    a.since = Some("yesterday".to_string());
    let e = prepare_filters(&a, 0).err().unwrap();
    assert_eq!(e, "invalid --since date 'yesterday' (use YYYY-MM-DD or Nd/Nw/Nm)");
    let mut b = Args::empty();
    b.until = Some("2020-13-01".to_string());
    let e = prepare_filters(&b, 0).err().unwrap();
    assert_eq!(e, "invalid --until date '2020-13-01' (use YYYY-MM-DD or Nd/Nw/Nm)");
    let mut c = Args::empty();
    c.grep = Some("(".to_string());
    c.since = Some("yesterday".to_string());
    let e = prepare_filters(&c, 0).err().unwrap();
    assert!(e.starts_with("invalid --grep pattern: "));
}

#[test]
fn input_sources_in_order_of_preference() {
    let mut a = Args::empty();
    let src = input_sources(&a, true, Some("/h/.bash_history".to_string())).ok().unwrap();
    assert!(matches!(src.as_slice(), [InputSource::Stdin]));
    let src = input_sources(&a, false, Some("/h/.bash_history".to_string())).ok().unwrap();
    assert!(matches!(src.as_slice(), [InputSource::File(p)] if p == "/h/.bash_history"));
    let e = input_sources(&a, false, None).err().unwrap();
    assert_eq!(e, "HOME environment variable not set — cannot resolve default history path");
    a.paths = vec!["x".to_string(), "-".to_string()];
    let src = input_sources(&a, true, None).ok().unwrap();
    assert!(matches!(src.as_slice(), [InputSource::File(p), InputSource::Stdin] if p == "x"));
}

#[test]
fn source_label_names_the_input() {
    let mut a = Args::empty();
    assert_eq!(source_label(&a, true, None), "stdin");
    assert_eq!(source_label(&a, false, None), "default history path");
    assert_eq!(source_label(&a, false, Some("/h/.zsh_history".to_string())), "/h/.zsh_history");
    a.paths = vec!["a".to_string(), "-".to_string(), "b".to_string()];
    assert_eq!(source_label(&a, false, None), "a, stdin, b");
    assert_eq!(nothing_to_show_message("stdin"), "shellist: no commands to show from stdin");
}

#[test]
fn default_input_path_follows_the_shell_option() {
    let mut a = Args::empty();
    assert_eq!(default_input_path(&a, Some("/h"), None).as_deref(), Some("/h/.bash_history"));
    a.shell = Some(Shell::Fish);
    assert_eq!(
        default_input_path(&a, Some("/h"), Some("/x")).as_deref(),
        Some("/x/fish/fish_history")
    );
    assert_eq!(default_input_path(&a, None, Some("/x")), None);
}

#[test]
fn until_date_keeps_the_whole_day() {
    let mut a = Args::empty();
    a.json = true;
    a.until = Some("2020-01-01".to_string());
    let f = prepare_filters(&a, 0).ok().unwrap();
    assert_eq!(f.until, Some(1_577_836_800 + 86_399));
    // ls at 2020-01-01T10:00Z, git the next day.
    let zsh = vec![": 1577872800:0;ls\n: 1577923200:0;git\n".to_string()];
    let r = core_pipeline(&zsh, &a, None, f.since, f.until);
    assert_eq!(r.notice, None);
    let json = json_output(&r.output);
    assert!(json.contains("\"command\":\"ls\",\"count\":1"));
    assert!(!json.contains("git"));
    // A relative bound keeps up to its moment.
    let mut b = Args::empty();
    b.until = Some("1d".to_string());
    assert_eq!(prepare_filters(&b, 1_000_000).ok().unwrap().until, Some(1_000_000 - 86_400));
}
