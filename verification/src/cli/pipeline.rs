//! One run of the `shellist` command: from the history texts that were read
//! to the text it prints.
use vstd::prelude::*;
use crate::aggregators::command_counter::{
    command_key, count_commands_at_depth, entry_key, last_used_at_depth, latest_map,
    lemma_counts_total, opt_text, tally_map,
};
use crate::aggregators::command_filter::{
    at_least, filter_by_min_frequency, filter_commands, lemma_at_least_sum,
    lemma_without_names_sum, names_view, top_n, without_names,
};
use crate::aggregators::command_map::pairs_view;
use crate::aggregators::command_ranker::{RankOrder, rank_commands, rank_commands_ascending, ranking};
use crate::cli::args::{Args, ArgsModel, copy_texts, texts_view};
use crate::cli::help::{default_ignore, default_ignore_names};
use crate::date::Bucket;
use crate::models::{EntryModel, HistoryEntry, entries_view, strip_command_prefixes, stripped_command};
use crate::output::csv::{csv_text, format_csv};
use crate::output::json::{format_json, json_text};
use crate::output::stats::{format_stats, lemma_sum_prefix, stats_text, sum_counts};
use crate::output::table::{TableOptions, format_table, table_text_with};
use crate::output::trend::{chart_text, format_hourly, format_trend, hourly_rows, trend_map};
use crate::parse_as;
use crate::parsers::{DefaultHistoryParser, FishHistoryParser, HistoryParser, ZshHistoryParser};
use crate::search::{CommandPattern, grep_filter, lemma_marked_sum, marked, matching, regex_is_match};
use crate::shell::{Shell, detect_shell, detected_shell};
use crate::text::{chars_of, first_word, first_word_of};

verus! {

// ---------------------------------------------------------------------------
// Reading the inputs
// ---------------------------------------------------------------------------
/// The parser for an input: the one the options name, or the one its text
/// suggests.
pub open spec fn input_shell(forced: Option<Shell>, text: Seq<char>) -> Shell {
    match forced {
        Some(s) => s,
        None => detected_shell(text),
    }
}

/// The entries of all inputs, in order, each parsed in its own format.
pub open spec fn parsed_inputs(contents: Seq<Seq<char>>, forced: Option<Shell>) -> Seq<EntryModel>
    decreases contents.len(),
{
    if contents.len() == 0 {
        Seq::empty()
    } else {
        parsed_inputs(contents.drop_last(), forced) + parse_as(
            input_shell(forced, contents.last()),
            contents.last(),
        )
    }
}

/// An entry with its leading `sudo` and `VAR=value` tokens taken off: the
/// rest of the line, with its first word as the command, when anything was
/// taken off.
pub open spec fn strip_entry(e: EntryModel) -> EntryModel {
    let s = stripped_command(e.raw);
    if s.len() != e.raw.len() {
        EntryModel { raw: s, command: first_word(s), timestamp: e.timestamp }
    } else {
        e
    }
}

/// The entries with each run of adjacent entries of the same line cut to its
/// first.
pub open spec fn collapse_runs(es: Seq<EntryModel>) -> Seq<EntryModel>
    decreases es.len(),
{
    if es.len() == 0 {
        es
    } else {
        let rest = collapse_runs(es.drop_last());
        if es.len() >= 2 && es[es.len() - 2].raw == es.last().raw {
            rest
        } else {
            rest.push(es.last())
        }
    }
}

proof fn lemma_collapse_last(es: Seq<EntryModel>)
    requires
        es.len() > 0,
    ensures
        collapse_runs(es).len() > 0,
        collapse_runs(es).last().raw == es.last().raw,
    decreases es.len(),
{
    if es.len() >= 2 && es[es.len() - 2].raw == es.last().raw {
        lemma_collapse_last(es.drop_last());
    }
}

/// After merging, no entry has the same line as the one before it.
pub proof fn lemma_collapse_no_repeats(es: Seq<EntryModel>)
    ensures
        forall|i: int|
            0 < i < collapse_runs(es).len() ==> (#[trigger] collapse_runs(es)[i]).raw != collapse_runs(
                es,
            )[i - 1].raw,
    decreases es.len(),
{
    if es.len() > 0 {
        let init = es.drop_last();
        lemma_collapse_no_repeats(init);
        let rest = collapse_runs(init);
        let r = collapse_runs(es);
        if !(es.len() >= 2 && es[es.len() - 2].raw == es.last().raw) {
            if init.len() > 0 {
                lemma_collapse_last(init);
            }
            assert forall|i: int| 0 < i < r.len() implies (#[trigger] r[i]).raw != r[i - 1].raw by {
                if i < rest.len() {
                    assert(r[i] == rest[i] && r[i - 1] == rest[i - 1]);
                } else {
                    assert(r[i - 1] == rest.last());
                }
            }
        }
    }
}

/// The entries that the counting starts from: parsed, stripped of their
/// prefixes unless `--no-strip`, with adjacent repeats merged under
/// `--collapse`.
pub open spec fn prepared_entries(contents: Seq<Seq<char>>, a: ArgsModel) -> Seq<EntryModel> {
    let parsed = parsed_inputs(contents, a.shell);
    let stripped = if a.no_strip {
        parsed
    } else {
        parsed.map_values(|e: EntryModel| strip_entry(e))
    };
    if a.collapse {
        collapse_runs(stripped)
    } else {
        stripped
    }
}

/// Parses one input in the given format.
pub fn parse_input(shell: Shell, input: &str) -> (r: Vec<HistoryEntry>)
    ensures
        entries_view(r@) == parse_as(shell, input@),
{
    match shell {
        Shell::Bash => DefaultHistoryParser::new().parse(input),
        Shell::Zsh => ZshHistoryParser::new().parse(input),
        Shell::Fish => FishHistoryParser::new().parse(input),
    }
}

/// Parses every input, each in the format that the options force or that its
/// text suggests.
pub fn parse_inputs(contents: &[String], forced: Option<Shell>) -> (r: Vec<HistoryEntry>)
    ensures
        entries_view(r@) == parsed_inputs(texts_view(contents@), forced),
{
    let ghost cv = texts_view(contents@);
    let mut entries: Vec<HistoryEntry> = Vec::new();
    for i in 0..contents.len()
        invariant
            cv == texts_view(contents@),
            entries_view(entries@) == parsed_inputs(cv.take(i as int), forced),
    {
        assert(cv.take(i + 1).drop_last() == cv.take(i as int));
        assert(cv.take(i + 1).last() == contents@[i as int]@);
        let shell = match forced {
            Some(s) => s,
            None => detect_shell(contents[i].as_str()),
        };
        let mut parsed = parse_input(shell, contents[i].as_str());
        let ghost before = entries@;
        let ghost added = parsed@;
        entries.append(&mut parsed);
        assert(entries_view(entries@) =~= entries_view(before) + entries_view(added));
    }
    assert(cv.take(contents.len() as int) == cv);
    entries
}

/// Takes the `sudo` and `VAR=value` prefixes off every entry.
pub fn strip_prefixes(entries: &[HistoryEntry]) -> (r: Vec<HistoryEntry>)
    ensures
        entries_view(r@) == entries_view(entries@).map_values(|e: EntryModel| strip_entry(e)),
{
    let ghost es = entries_view(entries@);
    let mut out: Vec<HistoryEntry> = Vec::new();
    for i in 0..entries.len()
        invariant
            es == entries_view(entries@),
            entries_view(out@) == es.take(i as int).map_values(|e: EntryModel| strip_entry(e)),
    {
        let e = &entries[i];
        assert(es[i as int] == e@);
        let s = strip_command_prefixes(e.raw.as_str());
        let ghost before = entries_view(out@);
        let ne = if s.unicode_len() != e.raw.as_str().unicode_len() {
            let cs = chars_of(s);
            let w = first_word_of(cs.as_slice());
            HistoryEntry::from_chars(cs.as_slice(), w.as_slice(), e.timestamp)
        } else {
            e.duplicate()
        };
        assert(ne@ == strip_entry(es[i as int]));
        out.push(ne);
        assert(entries_view(out@) =~= before.push(ne@));
        assert(es.take(i + 1).map_values(|e: EntryModel| strip_entry(e)) =~= es.take(
            i as int,
        ).map_values(|e: EntryModel| strip_entry(e)).push(strip_entry(es[i as int])));
    }
    assert(es.take(entries.len() as int) == es);
    out
}

/// Keeps, of each run of adjacent entries with the same line, the first.
pub fn collapse_adjacent(entries: &[HistoryEntry]) -> (r: Vec<HistoryEntry>)
    ensures
        entries_view(r@) == collapse_runs(entries_view(entries@)),
{
    let ghost es = entries_view(entries@);
    let mut out: Vec<HistoryEntry> = Vec::new();
    for i in 0..entries.len()
        invariant
            es == entries_view(entries@),
            entries_view(out@) == collapse_runs(es.take(i as int)),
    {
        let ghost pre = es.take(i as int);
        let ghost post = es.take(i + 1);
        assert(post.drop_last() == pre);
        assert(post.last() == entries@[i as int]@);
        assert(i >= 1 ==> post[i - 1] == entries@[i - 1]@);
        if i == 0 || entries[i - 1].raw != entries[i].raw {
            let ghost before = entries_view(out@);
            let e = entries[i].duplicate();
            out.push(e);
            assert(entries_view(out@) =~= before.push(e@));
        }
    }
    assert(es.take(entries.len() as int) == es);
    out
}

/// Reads, strips and collapses the inputs as the options say.
pub fn prepare_entries(contents: &[String], args: &Args) -> (r: Vec<HistoryEntry>)
    ensures
        entries_view(r@) == prepared_entries(texts_view(contents@), args@),
{
    let parsed = parse_inputs(contents, args.shell);
    let stripped = if args.no_strip {
        parsed
    } else {
        strip_prefixes(parsed.as_slice())
    };
    if args.collapse {
        collapse_adjacent(stripped.as_slice())
    } else {
        stripped
    }
}

// ---------------------------------------------------------------------------
// The date range
// ---------------------------------------------------------------------------
/// A timestamp lies in the range: on or after `since` and on or before
/// `until`, where given, the timestamp read as an `i64`. `until` is the last
/// second kept: for `--until DATE` the last second of that day (see
/// `resolve_until`), so every command run on the day itself is kept.
pub open spec fn in_range(t: u64, since: Option<i64>, until: Option<i64>) -> bool {
    &&& match since {
        Some(s) => (t as i64) >= s,
        None => true,
    }
    &&& match until {
        Some(u) => (t as i64) <= u,
        None => true,
    }
}

/// The timestamped entries in the range, in order.
pub open spec fn dated(es: Seq<EntryModel>, since: Option<i64>, until: Option<i64>) -> Seq<EntryModel>
    decreases es.len(),
{
    if es.len() == 0 {
        es
    } else {
        let rest = dated(es.drop_last(), since, until);
        match es.last().timestamp {
            Some(t) => if in_range(t, since, until) {
                rest.push(es.last())
            } else {
                rest
            },
            None => rest,
        }
    }
}

/// Some entry has a timestamp.
pub open spec fn has_timestamps(es: Seq<EntryModel>) -> bool {
    exists|i: int| 0 <= i < es.len() && (#[trigger] es[i]).timestamp is Some
}

/// The timestamped entries in the range.
pub fn entries_in_range(entries: &[HistoryEntry], since: Option<i64>, until: Option<i64>) -> (r: Vec<
    HistoryEntry,
>)
    ensures
        entries_view(r@) == dated(entries_view(entries@), since, until),
{
    let ghost es = entries_view(entries@);
    let mut out: Vec<HistoryEntry> = Vec::new();
    for i in 0..entries.len()
        invariant
            es == entries_view(entries@),
            entries_view(out@) == dated(es.take(i as int), since, until),
    {
        assert(es.take(i + 1).drop_last() == es.take(i as int));
        assert(es.take(i + 1).last() == entries@[i as int]@);
        if let Some(t) = entries[i].timestamp {
            let ts = t as i64;
            let after = match since {
                Some(s) => ts >= s,
                None => true,
            };
            let before_end = match until {
                Some(u) => ts <= u,
                None => true,
            };
            if after && before_end {
                let ghost before = entries_view(out@);
                let e = entries[i].duplicate();
                out.push(e);
                assert(entries_view(out@) =~= before.push(e@));
            }
        }
    }
    assert(es.take(entries.len() as int) == es);
    out
}

/// Whether some entry has a timestamp.
pub fn any_timestamp(entries: &[HistoryEntry]) -> (b: bool)
    ensures
        b == has_timestamps(entries_view(entries@)),
{
    let ghost es = entries_view(entries@);
    for i in 0..entries.len()
        invariant
            es == entries_view(entries@),
            forall|j: int| 0 <= j < i ==> (#[trigger] es[j]).timestamp is None,
    {
        assert(es[i as int] == entries@[i as int]@);
        if entries[i].timestamp.is_some() {
            return true;
        }
    }
    false
}

// ---------------------------------------------------------------------------
// The report
// ---------------------------------------------------------------------------
/// The note when a date range is asked for and no entry has a timestamp.
pub const NO_DATED_ENTRIES: &'static str =
    "shellist: no timestamped entries for date filter (need zsh extended, fish, or timestamped history)";

/// The note when the date range leaves no entry.
pub const RANGE_EXCLUDES_ALL: &'static str = "shellist: date range excludes all entries";

/// The note when a trend or hourly chart has no timestamped entry to show.
pub const NO_TIMED_ENTRIES: &'static str =
    "shellist: no timestamped entries for --trend/--hourly (need zsh extended, fish, or timestamped history)";

/// The number of leading words that make up a command's key (1 by default).
pub open spec fn depth_of(a: ArgsModel) -> nat {
    match a.depth {
        Some(d) => d as nat,
        None => 1,
    }
}

/// The names left out of the ranking: the default ignore list, unless
/// `--no-default-ignore`, then those of `--ignore`.
pub open spec fn ignore_names(a: ArgsModel) -> Seq<Seq<char>> {
    if a.no_default_ignore {
        a.ignore
    } else {
        default_ignore() + a.ignore
    }
}

/// The entries whose key the pattern matches.
pub open spec fn keyed_matching(es: Seq<EntryModel>, depth: nat, pattern: Seq<char>) -> Seq<EntryModel>
    decreases es.len(),
{
    if es.len() == 0 {
        es
    } else {
        let rest = keyed_matching(es.drop_last(), depth, pattern);
        match entry_key(es.last(), depth) {
            Some(k) => if regex_is_match(pattern, k) {
                rest.push(es.last())
            } else {
                rest
            },
            None => rest,
        }
    }
}

/// The ranked commands that the options leave: ranked by count (ascending
/// under `--asc`), then filtered by the pattern, the ignore list and the
/// minimum count, then cut to the top N.
pub open spec fn ranked_rows(es: Seq<EntryModel>, a: ArgsModel, grep: Option<Seq<char>>) -> Seq<
    (Seq<char>, usize),
> {
    let order = if a.asc {
        RankOrder::CountAscending
    } else {
        RankOrder::CountDescending
    };
    let ranked = ranking(tally_map(es, depth_of(a)), order);
    let matched = match grep {
        Some(p) => matching(ranked, p),
        None => ranked,
    };
    let names = ignore_names(a);
    let kept = if names.len() == 0 {
        matched
    } else {
        without_names(matched, names)
    };
    let frequent = match a.min_freq {
        Some(n) => at_least(kept, n),
        None => kept,
    };
    match a.top {
        Some(n) => frequent.take(
            if n < frequent.len() {
                n as int
            } else {
                frequent.len() as int
            },
        ),
        None => frequent,
    }
}

/// The order the ranking uses: by count, ascending under `--asc`.
pub open spec fn order_of(a: ArgsModel) -> RankOrder {
    if a.asc {
        RankOrder::CountAscending
    } else {
        RankOrder::CountDescending
    }
}

/// A ranked pair that the options keep: the pattern, where there is one,
/// matches its name; its name is not on the ignore list; its count is at
/// least the minimum, where there is one.
pub open spec fn passes(a: ArgsModel, grep: Option<Seq<char>>, p: (Seq<char>, usize)) -> bool {
    &&& match grep {
        Some(g) => regex_is_match(g, p.0),
        None => true,
    }
    &&& !ignore_names(a).contains(p.0)
    &&& match a.min_freq {
        Some(n) => p.1 >= n,
        None => true,
    }
}

proof fn lemma_filter_all(ps: Seq<(Seq<char>, usize)>, f: spec_fn((Seq<char>, usize)) -> bool)
    requires
        forall|i: int| 0 <= i < ps.len() ==> f(#[trigger] ps[i]),
    ensures
        ps.filter(f) == ps,
    decreases ps.len(),
{
    reveal(Seq::filter);
    if ps.len() > 0 {
        assert forall|i: int| 0 <= i < ps.drop_last().len() implies f(#[trigger] ps.drop_last()[i]) by {
            assert(ps.drop_last()[i] == ps[i]);
        }
        lemma_filter_all(ps.drop_last(), f);
        assert(f(ps[ps.len() - 1]));
        assert(ps.drop_last().push(ps.last()) =~= ps);
    }
}

proof fn lemma_filter_twice(
    ps: Seq<(Seq<char>, usize)>,
    f: spec_fn((Seq<char>, usize)) -> bool,
    g: spec_fn((Seq<char>, usize)) -> bool,
)
    ensures
        ps.filter(f).filter(g) == ps.filter(|p: (Seq<char>, usize)| f(p) && g(p)),
    decreases ps.len(),
{
    reveal(Seq::filter);
    if ps.len() > 0 {
        lemma_filter_twice(ps.drop_last(), f, g);
        let pre = ps.drop_last().filter(f);
        if f(ps.last()) {
            assert(pre.push(ps.last()).drop_last() =~= pre);
            assert(pre.push(ps.last()).last() == ps.last());
        }
    }
}

proof fn lemma_marked_filter(
    ps: Seq<(Seq<char>, usize)>,
    keep: Seq<bool>,
    f: spec_fn((Seq<char>, usize)) -> bool,
)
    requires
        keep.len() >= ps.len(),
        forall|i: int| 0 <= i < ps.len() ==> keep[i] == f(#[trigger] ps[i]),
    ensures
        marked(ps, keep) == ps.filter(f),
    decreases ps.len(),
{
    reveal(Seq::filter);
    if ps.len() > 0 {
        assert forall|i: int| 0 <= i < ps.drop_last().len() implies keep[i] == f(
            #[trigger] ps.drop_last()[i],
        ) by {
            assert(ps.drop_last()[i] == ps[i]);
        }
        lemma_marked_filter(ps.drop_last(), keep, f);
        assert(keep[ps.len() - 1] == f(ps[ps.len() - 1]));
    }
}

proof fn lemma_without_names_filter(ps: Seq<(Seq<char>, usize)>, names: Seq<Seq<char>>)
    ensures
        without_names(ps, names) == ps.filter(|p: (Seq<char>, usize)| !names.contains(p.0)),
    decreases ps.len(),
{
    reveal(Seq::filter);
    if ps.len() > 0 {
        lemma_without_names_filter(ps.drop_last(), names);
    }
}

proof fn lemma_at_least_filter(ps: Seq<(Seq<char>, usize)>, n: usize)
    ensures
        at_least(ps, n) == ps.filter(|p: (Seq<char>, usize)| p.1 >= n),
    decreases ps.len(),
{
    reveal(Seq::filter);
    if ps.len() > 0 {
        lemma_at_least_filter(ps.drop_last(), n);
    }
}

/// Without `--top`, the rows of a run are the ranked commands that the
/// options keep (the pattern, the ignore list and the minimum count, each
/// judged on the command alone), in the order of the ranking.
pub proof fn lemma_rows_are_kept_ranked(es: Seq<EntryModel>, a: ArgsModel, grep: Option<Seq<char>>)
    requires
        a.top is None,
    ensures
        ranked_rows(es, a, grep) == ranking(tally_map(es, depth_of(a)), order_of(a)).filter(
            |p: (Seq<char>, usize)| passes(a, grep, p),
        ),
{
    let r = ranking(tally_map(es, depth_of(a)), order_of(a));
    let gf = |p: (Seq<char>, usize)|
        match grep {
            Some(g) => regex_is_match(g, p.0),
            None => true,
        };
    let names = ignore_names(a);
    let nf = |p: (Seq<char>, usize)| !names.contains(p.0);
    let mf = |p: (Seq<char>, usize)|
        match a.min_freq {
            Some(n) => p.1 >= n,
            None => true,
        };
    let matched = match grep {
        Some(g) => matching(r, g),
        None => r,
    };
    match grep {
        Some(g) => {
            lemma_marked_filter(r, r.map_values(|p: (Seq<char>, usize)| regex_is_match(g, p.0)), gf);
        },
        None => {
            lemma_filter_all(r, gf);
        },
    }
    assert(matched == r.filter(gf));
    let kept = if names.len() == 0 {
        matched
    } else {
        without_names(matched, names)
    };
    lemma_without_names_filter(matched, names);
    if names.len() == 0 {
        assert forall|i: int| 0 <= i < matched.len() implies nf(#[trigger] matched[i]) by {}
        lemma_filter_all(matched, nf);
    }
    assert(kept == matched.filter(nf));
    let frequent = match a.min_freq {
        Some(n) => at_least(kept, n),
        None => kept,
    };
    match a.min_freq {
        Some(n) => {
            lemma_at_least_filter(kept, n);
            assert((|p: (Seq<char>, usize)| p.1 >= n) =~= mf);
        },
        None => {
            lemma_filter_all(kept, mf);
        },
    }
    assert(frequent == kept.filter(mf));
    lemma_filter_twice(r, gf, nf);
    let gn = |p: (Seq<char>, usize)| gf(p) && nf(p);
    lemma_filter_twice(r, gn, mf);
    assert((|p: (Seq<char>, usize)| gn(p) && mf(p)) =~= (|p: (Seq<char>, usize)| passes(a, grep, p)));
    assert(ranked_rows(es, a, grep) == frequent);
}

/// `--top N` is applied last: the rows of a run with `--top N` are the first
/// N rows (all of them, if fewer) of the rows that the same run gives without
/// `--top`, after the pattern, the ignore list and the minimum count.
pub proof fn lemma_top_cuts_filtered_rows(
    es: Seq<EntryModel>,
    a: ArgsModel,
    grep: Option<Seq<char>>,
    n: usize,
)
    requires
        a.top == Some(n),
    ensures
        ranked_rows(es, a, grep) == ranked_rows(es, (ArgsModel { top: None, ..a }), grep).take(
            if n < ranked_rows(es, (ArgsModel { top: None, ..a }), grep).len() {
                n as int
            } else {
                ranked_rows(es, (ArgsModel { top: None, ..a }), grep).len() as int
            },
        ),
{
}

/// What a run prints: the output, whether the ranked table came out empty,
/// and a note for standard error.
pub struct RunOutput {
    pub output: String,
    pub was_empty: bool,
    pub notice: Option<String>,
}

/// What a run prints, as text.
pub open spec fn run_view(r: RunOutput) -> (Seq<char>, bool, Option<Seq<char>>) {
    (r.output@, r.was_empty, opt_text(r.notice))
}

/// The report on the entries: a trend or hourly chart, or the ranked
/// commands as JSON, CSV, statistics or a table.
pub open spec fn report(es: Seq<EntryModel>, a: ArgsModel, grep: Option<Seq<char>>) -> (
    Seq<char>,
    bool,
    Option<Seq<char>>,
) {
    let depth = depth_of(a);
    if a.trend || a.hourly {
        let kept = match grep {
            Some(p) => keyed_matching(es, depth, p),
            None => es,
        };
        let bucket = match a.trend_bucket {
            Some(b) => b,
            None => Bucket::Day,
        };
        let out = if a.hourly {
            chart_text("Hour"@, hourly_rows(kept, 24))
        } else {
            chart_text("Date"@, ranking(trend_map(kept, bucket), RankOrder::Name))
        };
        if out.len() == 0 {
            (Seq::empty(), false, Some(NO_TIMED_ENTRIES@))
        } else {
            (out, false, None)
        }
    } else {
        let rows = ranked_rows(es, a, grep);
        if a.json {
            (json_text(rows), false, None)
        } else if a.csv {
            (csv_text(rows), false, None)
        } else if a.stats {
            (stats_text(rows), false, None)
        } else if rows.len() == 0 {
            (Seq::empty(), true, None)
        } else {
            (
                table_text_with(
                    rows,
                    a.percent,
                    a.bars,
                    if a.last_used {
                        Some(latest_map(es, depth))
                    } else {
                        None
                    },
                ),
                false,
                None,
            )
        }
    }
}

/// What a run on the history texts prints: the report on the prepared
/// entries, those in the date range when one is given.
pub open spec fn run_result(
    contents: Seq<Seq<char>>,
    a: ArgsModel,
    grep: Option<Seq<char>>,
    since: Option<i64>,
    until: Option<i64>,
) -> (Seq<char>, bool, Option<Seq<char>>) {
    let es = prepared_entries(contents, a);
    if since is Some || until is Some {
        let d = dated(es, since, until);
        if d.len() == 0 && !has_timestamps(es) {
            (Seq::empty(), false, Some(NO_DATED_ENTRIES@))
        } else if d.len() == 0 {
            (Seq::empty(), false, Some(RANGE_EXCLUDES_ALL@))
        } else {
            report(d, a, grep)
        }
    } else {
        report(es, a, grep)
    }
}

/// The text of an optional pattern.
pub open spec fn pattern_view(p: Option<&CommandPattern>) -> Option<Seq<char>> {
    match p {
        Some(q) => Some(q@),
        None => None,
    }
}

/// The entries whose key at the depth the pattern matches.
pub fn entries_matching(entries: &[HistoryEntry], depth: usize, pattern: &CommandPattern) -> (r: Vec<
    HistoryEntry,
>)
    ensures
        entries_view(r@) == keyed_matching(entries_view(entries@), depth as nat, pattern@),
{
    let ghost es = entries_view(entries@);
    let mut out: Vec<HistoryEntry> = Vec::new();
    for i in 0..entries.len()
        invariant
            es == entries_view(entries@),
            entries_view(out@) == keyed_matching(es.take(i as int), depth as nat, pattern@),
    {
        assert(es.take(i + 1).drop_last() == es.take(i as int));
        assert(es.take(i + 1).last() == entries@[i as int]@);
        if let Some(k) = command_key(&entries[i], depth) {
            if pattern.is_match(k.as_str()) {
                let ghost before = entries_view(out@);
                let e = entries[i].duplicate();
                out.push(e);
                assert(entries_view(out@) =~= before.push(e@));
            }
        }
    }
    assert(es.take(entries.len() as int) == es);
    out
}

/// The ranked commands that the options leave.
pub fn rank_and_filter(entries: &[HistoryEntry], args: &Args, grep: Option<&CommandPattern>) -> (r: Vec<
    (String, usize),
>)
    ensures
        pairs_view(r@) == ranked_rows(entries_view(entries@), args@, pattern_view(grep)),
        sum_counts(pairs_view(r@)) <= usize::MAX,
{
    let ghost es = entries_view(entries@);
    let ghost a = args@;
    let depth: usize = match args.depth {
        Some(d) => d,
        None => 1,
    };
    let counts = count_commands_at_depth(entries, depth);
    let ghost order = if args.asc {
        RankOrder::CountAscending
    } else {
        RankOrder::CountDescending
    };
    let ranked = if args.asc {
        rank_commands_ascending(counts)
    } else {
        rank_commands(counts)
    };
    let total_entries: usize = entries.len();
    proof {
        assert(es.len() == total_entries);
        lemma_counts_total(es, depth as nat, pairs_view(ranked@), order);
    }
    let matched = match grep {
        Some(p) => {
            let ghost ps = pairs_view(ranked@);
            proof {
                lemma_marked_sum(ps, ps.map_values(|q: (Seq<char>, usize)| regex_is_match(p@, q.0)));
            }
            grep_filter(ranked.as_slice(), p)
        },
        None => ranked,
    };
    let mut ignore: Vec<String> = if args.no_default_ignore {
        Vec::new()
    } else {
        default_ignore_names()
    };
    let ghost start = texts_view(ignore@);
    assert(start =~= if args.no_default_ignore {
        Seq::<Seq<char>>::empty()
    } else {
        default_ignore()
    });
    let mut extra = copy_texts(&args.ignore);
    let ghost added = extra@;
    ignore.append(&mut extra);
    assert(texts_view(ignore@) =~= start + texts_view(added));
    assert(texts_view(ignore@) =~= ignore_names(a));
    assert(names_view(ignore@) =~= texts_view(ignore@));
    let kept = if ignore.len() == 0 {
        matched
    } else {
        proof {
            lemma_without_names_sum(pairs_view(matched@), names_view(ignore@));
        }
        filter_commands(matched, ignore.as_slice())
    };
    let frequent = match args.min_freq {
        Some(n) => {
            proof {
                lemma_at_least_sum(pairs_view(kept@), n);
            }
            filter_by_min_frequency(kept, n)
        },
        None => kept,
    };
    match args.top {
        Some(n) => {
            let ghost fv = pairs_view(frequent@);
            let ghost k: int = if n < frequent@.len() {
                n as int
            } else {
                frequent@.len() as int
            };
            proof {
                lemma_sum_prefix(fv, k);
            }
            let r = top_n(frequent, n);
            assert(pairs_view(r@) =~= fv.take(k));
            r
        },
        None => frequent,
    }
}

/// The hourly chart under `--hourly`, else the trend chart.
fn chart(entries: &[HistoryEntry], args: &Args) -> (r: String)
    ensures
        r@ == if args.hourly {
            chart_text("Hour"@, hourly_rows(entries_view(entries@), 24))
        } else {
            chart_text(
                "Date"@,
                ranking(
                    trend_map(
                        entries_view(entries@),
                        match args.trend_bucket {
                            Some(b) => b,
                            None => Bucket::Day,
                        },
                    ),
                    RankOrder::Name,
                ),
            )
        },
{
    if args.hourly {
        format_hourly(entries)
    } else {
        let bucket = match args.trend_bucket {
            Some(b) => b,
            None => Bucket::Day,
        };
        format_trend(entries, bucket)
    }
}

/// The report on the entries.
pub fn report_on(entries: &[HistoryEntry], args: &Args, grep: Option<&CommandPattern>) -> (r: RunOutput)
    ensures
        run_view(r) == report(entries_view(entries@), args@, pattern_view(grep)),
{
    let depth: usize = match args.depth {
        Some(d) => d,
        None => 1,
    };
    if args.trend || args.hourly {
        let out = match grep {
            Some(p) => {
                let kept = entries_matching(entries, depth, p);
                chart(kept.as_slice(), args)
            },
            None => chart(entries, args),
        };
        if out.as_str().unicode_len() == 0 {
            return RunOutput {
                output: String::new(),
                was_empty: false,
                notice: Some(NO_TIMED_ENTRIES.to_owned()),
            };
        }
        return RunOutput { output: out, was_empty: false, notice: None };
    }
    let rows = rank_and_filter(entries, args, grep);
    if args.json {
        RunOutput { output: format_json(rows.as_slice()), was_empty: false, notice: None }
    } else if args.csv {
        RunOutput { output: format_csv(rows.as_slice()), was_empty: false, notice: None }
    } else if args.stats {
        RunOutput { output: format_stats(rows.as_slice()), was_empty: false, notice: None }
    } else if rows.len() == 0 {
        RunOutput { output: String::new(), was_empty: true, notice: None }
    } else {
        let last = last_used_at_depth(entries, depth);
        let opts = TableOptions {
            percent: args.percent,
            bars: args.bars,
            last_used: if args.last_used {
                Some(&last)
            } else {
                None
            },
        };
        RunOutput { output: format_table(rows.as_slice(), &opts), was_empty: false, notice: None }
    }
}

/// Runs the pipeline on the history texts that were read: parse each in its
/// format, strip prefixes, merge repeats, keep the date range, then report.
/// `since` is the first second kept and `until` the last, as
/// `prepare_filters` gives them: `--until DATE` keeps the whole of that day.
pub fn core_pipeline(
    contents: &[String],
    args: &Args,
    grep: Option<&CommandPattern>,
    since: Option<i64>,
    until: Option<i64>,
) -> (r: RunOutput)
    ensures
        run_view(r) == run_result(texts_view(contents@), args@, pattern_view(grep), since, until),
{
    let entries = prepare_entries(contents, args);
    if since.is_some() || until.is_some() {
        let had_timestamps = any_timestamp(entries.as_slice());
        let kept = entries_in_range(entries.as_slice(), since, until);
        if kept.len() == 0 && !had_timestamps {
            return RunOutput {
                output: String::new(),
                was_empty: false,
                notice: Some(NO_DATED_ENTRIES.to_owned()),
            };
        }
        if kept.len() == 0 {
            return RunOutput {
                output: String::new(),
                was_empty: false,
                notice: Some(RANGE_EXCLUDES_ALL.to_owned()),
            };
        }
        report_on(kept.as_slice(), args, grep)
    } else {
        report_on(entries.as_slice(), args, grep)
    }
}

} // verus!
