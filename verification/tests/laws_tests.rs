use shellist::cli::pipeline::collapse_adjacent;
use shellist::{
    Bucket, CommandMap, bucket_key, HistoryEntry, count_commands_at_depth, filter_by_min_frequency, filter_commands,
    TableOptions, format_csv, format_json, format_stats, format_table, parse_history, rank_commands, strip_command_prefixes, summarize,
};

fn pairs(items: &[(&str, usize)]) -> Vec<(String, usize)> {
    items.iter().map(|(s, c)| (s.to_string(), *c)).collect()
}

#[test]
fn ranking_does_not_depend_on_insertion_order() {
    let mut a = CommandMap::new();
    let mut b = CommandMap::new();
    for (k, v) in [("ls", 3), ("git", 3), ("cd", 1), ("vim", 7)] {
        a.insert(k.to_string(), v);
    }
    for (k, v) in [("cd", 1), ("vim", 7), ("ls", 3), ("git", 3)] {
        b.insert(k.to_string(), v);
    }
    let ra = rank_commands(a);
    assert_eq!(ra, rank_commands(b));
    assert_eq!(ra, pairs(&[("vim", 7), ("git", 3), ("ls", 3), ("cd", 1)]));
}

#[test]
fn counts_add_up_to_entries_with_a_command() {
    let entries = parse_history("ls -la\ngit status\n\n   \ngit push\nLs\ncd /\n");
    let counts = count_commands_at_depth(&entries, 1);
    let ranked = rank_commands(counts);
    let total: usize = ranked.iter().map(|(_, c)| c).sum();
    assert_eq!(total, entries.len());
    assert_eq!(total, 5);
    let mut with_empty = entries.clone();
    with_empty.push(HistoryEntry::new("", ""));
    let ranked = rank_commands(count_commands_at_depth(&with_empty, 1));
    assert_eq!(ranked.iter().map(|(_, c)| c).sum::<usize>(), 5);
}

#[test]
fn summary_is_order_independent() {
    let a = pairs(&[("ls", 10), ("git", 5), ("cd", 2)]);
    let b = pairs(&[("cd", 2), ("ls", 10), ("git", 5)]);
    let sa = summarize(&a);
    let sb = summarize(&b);
    assert_eq!(sa.total_commands, sb.total_commands);
    assert_eq!(sa.unique_commands, sb.unique_commands);
    assert_eq!(sa.most_used, sb.most_used);
    assert_eq!(sa.least_used, sb.least_used);
    assert_eq!(sa.most_used, Some(("ls".to_string(), 10)));
    // Ties go as on the list ranked by count, highest first: the last name
    // among the top counts, the first among the bottom counts, whatever the
    // order.
    let c = pairs(&[("b", 4), ("a", 4), ("c", 1), ("d", 1)]);
    let d = pairs(&[("d", 1), ("a", 4), ("c", 1), ("b", 4)]);
    assert_eq!(summarize(&c).most_used, Some(("b".to_string(), 4)));
    assert_eq!(summarize(&d).most_used, Some(("b".to_string(), 4)));
    assert_eq!(summarize(&c).least_used, Some(("c".to_string(), 1)));
    assert_eq!(summarize(&d).least_used, Some(("c".to_string(), 1)));
    assert_eq!(format_stats(&c), format_stats(&d));
}

#[test]
fn stripping_keeps_the_end_of_the_line() {
    for line in ["sudo apt install", "  FOO=bar  ls -l", "sudo", "A=1 B=2", "\tgit push", "x"] {
        let s = strip_command_prefixes(line);
        assert!(line.ends_with(s), "{line:?} -> {s:?}");
    }
    assert_eq!(strip_command_prefixes("  FOO=bar  ls -l"), "ls -l");
    assert_eq!(strip_command_prefixes("A=1 B=2"), "A=1 B=2");
}

#[test]
fn ignore_list_leaves_out_exactly_the_named() {
    let ranked = pairs(&[("ls", 5), ("git", 4), ("cd", 3), ("vim", 1)]);
    let kept = filter_commands(ranked, &["git", "vim", "emacs"]);
    assert_eq!(kept, pairs(&[("ls", 5), ("cd", 3)]));
}

#[test]
fn minimum_leaves_out_exactly_the_rarer() {
    let ranked = pairs(&[("ls", 5), ("git", 1), ("cd", 3), ("vim", 3)]);
    let kept = filter_by_min_frequency(ranked, 3);
    assert_eq!(kept, pairs(&[("ls", 5), ("cd", 3), ("vim", 3)]));
}

#[test]
fn collapse_leaves_no_adjacent_repeats() {
    let entries = parse_history("ls\nls\ngit\ngit\ngit\nls\ncd\ncd\n");
    let collapsed = collapse_adjacent(&entries);
    let raws: Vec<&str> = collapsed.iter().map(|e| e.raw.as_str()).collect();
    assert_eq!(raws, vec!["ls", "git", "ls", "cd"]);
    for w in collapsed.windows(2) {
        assert_ne!(w[0].raw, w[1].raw);
    }
}

#[test]
fn bucket_keys_sort_as_time_does() {
    let mut ts: Vec<u64> = vec![0, 1, 86_399, 86_400, 951_782_400, 951_868_800, 978_307_199, 978_307_200];
    let mut t: u64 = 0;
    while t < 253_402_300_800 {
        ts.push(t);
        t += 7_777_777_777 / 3;
    }
    ts.push(253_402_300_799);
    ts.sort();
    for bucket in [Bucket::Day, Bucket::Week, Bucket::Month] {
        for w in ts.windows(2) {
            let (a, b) = (bucket_key(w[0], bucket), bucket_key(w[1], bucket));
            assert!(a <= b, "{a} > {b}");
        }
    }
    // From the year 10000 on, the keys no longer sort by time.
    assert_eq!(bucket_key(253_402_300_800, Bucket::Day), "10000-01-01");
    assert!(bucket_key(253_402_300_800, Bucket::Day) < bucket_key(253_402_300_799, Bucket::Day));
}

#[test]
fn stats_basic() {
    let ranked = pairs(&[("ls", 10), ("git", 5), ("cd", 2)]);
    let s = summarize(&ranked);
    assert_eq!(s.total_commands, 17);
    assert_eq!(s.unique_commands, 3);
    assert_eq!(s.most_used, Some(("ls".to_string(), 10)));
    assert_eq!(s.least_used, Some(("cd".to_string(), 2)));
    // The average, 17 / 3, as the statistics text writes it.
    assert!(format_stats(&ranked).contains("Average per cmd:  5.7\n"));
}

#[test]
fn stats_empty() {
    let s = summarize(&[]);
    assert_eq!(s.total_commands, 0);
    assert_eq!(s.unique_commands, 0);
    assert_eq!(s.most_used, None);
    assert!(format_stats(&[]).contains("Average per cmd:  0.0\n"));
}

#[test]
fn stats_order_independent() {
    let asc = pairs(&[("a", 1), ("b", 9)]);
    let desc = pairs(&[("b", 9), ("a", 1)]);
    let (x, y) = (summarize(&asc), summarize(&desc));
    assert_eq!(x.total_commands, y.total_commands);
    assert_eq!(x.unique_commands, y.unique_commands);
    assert_eq!(x.most_used, y.most_used);
    assert_eq!(x.least_used, y.least_used);
    assert_eq!(format_stats(&asc), format_stats(&desc));
}

#[test]
fn csv_rows_read_back_as_names_and_counts() {
    let ranked = pairs(&[("git commit -m \"a, b\"", 12), ("ls", 0), ("echo x", 123456789)]);
    let out = format_csv(&ranked);
    assert_eq!(
        out,
        "command,count\n\"git commit -m \"\"a, b\"\"\",12\nls,0\necho x,123456789\n"
    );
    for (line, (_, count)) in out.lines().skip(1).zip(ranked.iter()) {
        let field = line.rsplit(',').next().unwrap();
        assert_eq!(field.parse::<usize>().unwrap(), *count);
    }
}

#[test]
fn json_name_that_looks_like_a_member_stays_a_string() {
    let ranked = pairs(&[("x\", \"count\": 9}", 2)]);
    assert_eq!(
        format_json(&ranked),
        "[\n  {\"command\": \"x\\\", \\\"count\\\": 9}\", \"count\": 2}\n]\n"
    );
}

#[test]
fn table_lines_are_equally_wide_and_counted() {
    let ranked = pairs(&[("git status", 120), ("ls", 7), ("cargo build --release", 3)]);
    let opts = TableOptions { percent: true, bars: true, last_used: None };
    let out = format_table(&ranked, &opts);
    assert!(out.ends_with('\n'));
    let lines: Vec<&str> = out.lines().collect();
    assert_eq!(lines.len(), ranked.len() + 2);
    let width = lines[0].chars().count();
    for line in &lines {
        assert_eq!(line.chars().count(), width);
    }
}
