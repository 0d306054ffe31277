use shellist::{
    CommandMap, HistoryEntry, TableOptions, compute_hourly, compute_trend, format_csv,
    format_hourly, format_json, format_stats, format_table, format_trend, summarize, Bucket,
};

#[test]
fn csv_header_and_rows() {
    let ranked = vec![("ls".to_string(), 10), ("git".to_string(), 5)];
    let out = format_csv(&ranked);
    assert_eq!(out, "command,count\nls,10\ngit,5\n");
}

#[test]
fn csv_quotes_commas() {
    let ranked = vec![("a,b".to_string(), 1)];
    assert_eq!(format_csv(&ranked), "command,count\n\"a,b\",1\n");
}

#[test]
fn csv_doubles_quotes() {
    let ranked = vec![("say \"hi\"".to_string(), 2)];
    assert_eq!(format_csv(&ranked), "command,count\n\"say \"\"hi\"\"\",2\n");
}

#[test]
fn csv_empty_input_has_header_only() {
    assert_eq!(format_csv(&[]), "command,count\n");
}

#[test]
fn csv_quotes_line_breaks() {
    let ranked = vec![("a\rb".to_string(), 0), ("x\ny".to_string(), 12)];
    assert_eq!(format_csv(&ranked), "command,count\n\"a\rb\",0\n\"x\ny\",12\n");
}

#[test]
fn json_basic() {
    let ranked = vec![("ls".to_string(), 10), ("git".to_string(), 5)];
    let out = format_json(&ranked);
    assert!(out.contains("\"command\": \"ls\""));
    assert!(out.contains("\"count\": 10"));
}

#[test]
fn json_empty_array() {
    assert_eq!(format_json(&[]), "[]\n");
}

#[test]
fn json_escapes_special_chars() {
    let ranked = vec![("a\"b\\c\nd".to_string(), 1)];
    let out = format_json(&ranked);
    assert!(out.contains("a\\\"b\\\\c\\nd"));
}

#[test]
fn json_exact_layout() {
    let ranked = vec![("ls".to_string(), 10), ("t\tx\u{1}".to_string(), 5)];
    assert_eq!(
        format_json(&ranked),
        "[\n  {\"command\": \"ls\", \"count\": 10},\n  {\"command\": \"t\\tx\\u0001\", \"count\": 5}\n]\n"
    );
}

#[test]
fn format_stats_output() {
    let ranked = vec![("ls".to_string(), 10), ("git".to_string(), 5)];
    let out = format_stats(&ranked);
    assert!(out.contains("Total commands:   15"));
    assert!(out.contains("Most used:        ls (10)"));
}

#[test]
fn format_stats_full_text() {
    let ranked = vec![("ls".to_string(), 10), ("git".to_string(), 5), ("cd".to_string(), 2)];
    assert_eq!(
        format_stats(&ranked),
        "Total commands:   17\nUnique commands:  3\nMost used:        ls (10)\nLeast used:       cd (2)\nAverage per cmd:  5.7\n"
    );
    assert_eq!(
        format_stats(&[]),
        "Total commands:   0\nUnique commands:  0\nAverage per cmd:  0.0\n"
    );
}

#[test]
fn summary_ties_follow_the_ranking() {
    let ranked = vec![("b".to_string(), 2), ("a".to_string(), 2), ("d".to_string(), 1), ("c".to_string(), 1)];
    let s = summarize(&ranked);
    assert_eq!(s.total_commands, 6);
    assert_eq!(s.unique_commands, 4);
    assert_eq!(s.most_used, Some(("b".to_string(), 2)));
    assert_eq!(s.least_used, Some(("c".to_string(), 1)));
}

fn ranked() -> Vec<(String, usize)> {
    vec![("ls".to_string(), 10), ("git".to_string(), 5), ("cd".to_string(), 2)]
}

#[test]
fn table_has_headers_and_separator() {
    let out = format_table(&ranked(), &TableOptions::default());
    assert!(out.contains("Rank"));
    assert!(out.contains("Command"));
    assert!(out.contains("Count"));
    assert!(out.contains("----"));
}

#[test]
fn table_empty_returns_empty_string() {
    assert!(format_table(&[], &TableOptions::default()).is_empty());
}

#[test]
fn percent_column_present() {
    let out = format_table(&ranked(), &TableOptions { percent: true, bars: false, last_used: None });
    assert!(out.contains("Pct"));
    assert!(out.contains("58.8%")); // 10/17
}

#[test]
fn bars_column_present_and_top_is_full() {
    let out = format_table(&ranked(), &TableOptions { percent: false, bars: true, last_used: None });
    assert!(out.contains("Bars"));
    // Top entry (10) is the max → 30 '#'s.
    assert!(out.contains(&"#".repeat(30)));
}

#[test]
fn percent_and_bars_together() {
    let out = format_table(&ranked(), &TableOptions { percent: true, bars: true, last_used: None });
    assert!(out.contains("Pct"));
    assert!(out.contains("Bars"));
}

#[test]
fn last_used_column_shows_date_and_dash() {
    let mut last = CommandMap::new();
    last.insert("ls".to_string(), 1_577_836_800); // 2020-01-01
    let out = format_table(&ranked(), &TableOptions { percent: false, bars: false, last_used: Some(&last) });
    assert!(out.contains("Last Used"));
    assert!(out.contains("2020-01-01"));
    // git/cd have no timestamp → dash.
    assert!(out.lines().any(|l| l.contains("git") && l.contains('-')));
}

#[test]
fn table_exact_layout_with_percent_and_bars() {
    let ranked = vec![("ls".to_string(), 120), ("git".to_string(), 95), ("cd".to_string(), 80)];
    let out = format_table(&ranked, &TableOptions { percent: true, bars: true, last_used: None });
    let expected = "Rank  Command  Count    Pct  Bars                          \n\
                    ----  -------  -----  -----  ------------------------------\n   \
                    1  ls         120  40.7%  ##############################\n   \
                    2  git         95  32.2%  #######################       \n   \
                    3  cd          80  27.1%  ####################          \n";
    assert_eq!(out, expected);
}

fn entries() -> Vec<HistoryEntry> {
    vec![
        HistoryEntry::new("ls", "ls").with_timestamp(1_577_836_800), // 2020-01-01
        HistoryEntry::new("ls", "ls").with_timestamp(1_577_836_800),
        HistoryEntry::new("git", "git").with_timestamp(1_577_923_200), // 2020-01-02
        HistoryEntry::new("git", "git").with_timestamp(1_583_020_800), // 2020-03-01
    ]
}

#[test]
fn trend_by_day() {
    let t = compute_trend(&entries(), Bucket::Day);
    assert_eq!(t.len(), 3);
    assert!(t.iter().any(|(k, c)| k == "2020-01-01" && *c == 2));
}

#[test]
fn trend_by_month() {
    let t = compute_trend(&entries(), Bucket::Month);
    assert_eq!(t.len(), 2);
    assert!(t.iter().any(|(k, _)| k == "2020-01"));
    assert!(t.iter().any(|(k, _)| k == "2020-03"));
}

#[test]
fn trend_ignores_entries_without_timestamp() {
    let mut e = entries();
    e.push(HistoryEntry::new("cd", "cd")); // no timestamp
    let t = compute_trend(&e, Bucket::Day);
    // cd entry ignored
    assert!(t.iter().all(|(_, c)| *c <= 2));
}

#[test]
fn trend_is_sorted_by_key() {
    let t = compute_trend(&entries(), Bucket::Day);
    assert_eq!(
        t,
        vec![("2020-01-01".to_string(), 2), ("2020-01-02".to_string(), 1), ("2020-03-01".to_string(), 1)]
    );
}

#[test]
fn trend_format_has_headers() {
    let out = format_trend(&entries(), Bucket::Day);
    assert!(out.contains("Date"));
    assert!(out.contains("Count"));
    assert!(out.contains("Bars"));
}

#[test]
fn trend_empty_when_no_timestamps() {
    let e = vec![HistoryEntry::new("ls", "ls")];
    assert!(format_trend(&e, Bucket::Day).is_empty());
    assert!(compute_trend(&e, Bucket::Day).is_empty());
}

#[test]
fn trend_hourly_buckets_by_utc_hour() {
    // 2020-01-01T00:00:00Z and 2020-01-02T05:00:00Z.
    let e = vec![
        HistoryEntry::new("ls", "ls").with_timestamp(1_577_836_800),
        HistoryEntry::new("ls", "ls").with_timestamp(1_577_836_900),
        HistoryEntry::new("git", "git").with_timestamp(1_577_836_800 + 3600 * 5),
    ];
    let h = compute_hourly(&e);
    assert_eq!(h, vec![("00".to_string(), 2), ("05".to_string(), 1)]);
}

#[test]
fn hourly_format_has_headers() {
    let e = vec![HistoryEntry::new("ls", "ls").with_timestamp(1_577_840_000)];
    let out = format_hourly(&e);
    assert!(out.contains("Hour"));
    assert!(out.contains("Count"));
    assert!(out.contains("Bars"));
}

#[test]
fn hourly_empty_when_no_timestamps() {
    let e = vec![HistoryEntry::new("ls", "ls")];
    assert!(format_hourly(&e).is_empty());
    assert!(compute_hourly(&e).is_empty());
}
