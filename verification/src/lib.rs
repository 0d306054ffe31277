//! Shell history analysis. Parses shell history files (bash, zsh, fish),
//! counts commands, and ranks them by frequency.
use vstd::prelude::*;

pub mod aggregators;
pub mod binary64;
pub mod bucket_order;
pub mod cli;
pub mod completions;
pub mod date;
pub mod io;
pub mod man;
pub mod models;
pub mod numbers;
pub mod output;
pub mod parsers;
pub mod search;
pub mod shell;
pub mod text;

pub use aggregators::{
    CommandMap, CommandName, command_key, count_commands, count_commands_at_depth,
    filter_by_min_frequency, filter_commands, last_used_at_depth, rank_commands,
    rank_commands_ascending, top_n,
};
pub use completions::completions;
pub use date::{
    Bucket, bucket_key, civil_from_days, days_from_civil, parse_date_to_unix, resolve_date_spec,
};
pub use io::{default_history_path, default_history_path_for};
pub use man::man_page;
pub use models::{HistoryEntry, strip_command_prefixes};
pub use output::{
    CountSummary, TableOptions, compute_hourly, compute_trend, format_csv, format_hourly,
    format_json, format_stats, format_table, format_trend, summarize,
};
pub use search::{CommandPattern, PatternError, grep_filter};
pub use parsers::{DefaultHistoryParser, FishHistoryParser, HistoryParser, ZshHistoryParser, parse_history};
pub use shell::{Shell, detect_shell};

use aggregators::command_counter::tally_map;
use aggregators::command_map::pairs_view;
use aggregators::command_ranker::{RankOrder, ranking};
use models::{EntryModel, entries_view};
use parsers::default_history_parser::parse_bash;
use parsers::fish_history_parser::parse_fish;
use parsers::zsh_history_parser::parse_zsh;
use shell::detected_shell;

verus! {

/// Alias for `DefaultHistoryParser` for naming consistency with `ZshHistoryParser` / `FishHistoryParser`.
pub type BashHistoryParser = DefaultHistoryParser;

/// The entries that the parser for a shell reads from a text.
pub open spec fn parse_as(shell: Shell, input: Seq<char>) -> Seq<EntryModel> {
    match shell {
        Shell::Bash => parse_bash(input),
        Shell::Zsh => parse_zsh(input),
        Shell::Fish => parse_fish(input),
    }
}

/// Full pipeline: raw history text in, ranked commands out.
///
/// Parses input into entries, counts each command (lowercased), then ranks by
/// frequency with alphabetical tie-breaking.
pub fn analyze(input: &str) -> (r: Vec<(String, usize)>)
    ensures
        pairs_view(r@) == ranking(tally_map(parse_bash(input@), 1), RankOrder::CountDescending),
{
    let entries = parse_history(input);
    let counts = count_commands(entries.as_slice());
    rank_commands(counts)
}

/// Detect shell format and parse with the appropriate parser.
///
/// Dispatches to `DefaultHistoryParser`, `ZshHistoryParser`, or
/// `FishHistoryParser` based on the content, then returns parsed entries
/// including any timestamps the format provides.
pub fn parse_with_detected(input: &str) -> (r: Vec<HistoryEntry>)
    ensures
        entries_view(r@) == parse_as(detected_shell(input@), input@),
{
    match detect_shell(input) {
        Shell::Bash => DefaultHistoryParser::new().parse(input),
        Shell::Zsh => ZshHistoryParser::new().parse(input),
        Shell::Fish => FishHistoryParser::new().parse(input),
    }
}

} // verus!
