//! Fish history (`fish_history`), a YAML-like list of `cmd:` / `when:` pairs.
use vstd::prelude::*;
use crate::models::{EntryModel, HistoryEntry, entries_view, entry_model};
use crate::numbers::{parse_u64, u64_of_text};
use crate::parsers::HistoryParser;
use crate::text::{
    chars_of, copy_range, first_word, first_word_of, lines, range_strip_prefix, split_lines,
    strip_prefix, trim, trim_range,
};

verus! {

/// Reading state: entries so far, the command being read and its timestamp.
pub type FishState = (Seq<EntryModel>, Option<Seq<char>>, Option<u64>);

/// The entries once the command being read, if any, is finished.
pub open spec fn fish_flush(entries: Seq<EntryModel>, cmd: Option<Seq<char>>, ts: Option<u64>) -> Seq<
    EntryModel,
> {
    match cmd {
        Some(c) => entries.push(entry_model(c, first_word(c), ts)),
        None => entries,
    }
}

/// A `cmd:` line: finish the command under way and begin the one whose text
/// follows (none when that text is blank).
pub open spec fn fish_begin(st: FishState, rest: Seq<char>) -> FishState {
    let cmd = trim(rest);
    (fish_flush(st.0, st.1, st.2), if cmd.len() > 0 {
        Some(cmd)
    } else {
        None
    }, None)
}

pub open spec fn fish_step(st: FishState, line: Seq<char>) -> FishState {
    let t = trim(line);
    match strip_prefix(t, "- cmd:"@) {
        Some(rest) => fish_begin(st, rest),
        None => match strip_prefix(t, "cmd:"@) {
            Some(rest) => fish_begin(st, rest),
            None => match strip_prefix(t, "when:"@) {
                Some(rest) => match u64_of_text(trim(rest)) {
                    Some(v) => (st.0, st.1, Some(v)),
                    None => st,
                },
                None => st,
            },
        },
    }
}

pub open spec fn fish_fold(ls: Seq<Seq<char>>) -> FishState
    decreases ls.len(),
{
    if ls.len() == 0 {
        (Seq::empty(), None, None)
    } else {
        fish_step(fish_fold(ls.drop_last()), ls.last())
    }
}

/// The entries of a fish history text: each `- cmd:` (or bare `cmd:`) line
/// with a non-blank command gives one entry, timestamped by the last `when:`
/// line with a number that follows it; other lines are ignored.
pub open spec fn parse_fish(input: Seq<char>) -> Seq<EntryModel> {
    let st = fish_fold(lines(input));
    fish_flush(st.0, st.1, st.2)
}

/// Parser for fish history files (`fish_history`).
///
/// Fish stores history as YAML-like pairs:
/// ```text
/// - cmd: git push
///   when: 1577836800
/// ```
/// This parser reads `cmd:` lines for the command and `when:` lines for the
/// Unix timestamp, ignoring everything else (e.g. `paths:` blocks).
#[derive(Debug, Default, Clone, Copy)]
pub struct FishHistoryParser;

impl FishHistoryParser {
    /// Create a new parser instance.
    pub fn new() -> (p: Self)
        ensures
            p == FishHistoryParser,
    {
        FishHistoryParser
    }
}

/// Finishes the command under way, if any.
fn flush(entries: &mut Vec<HistoryEntry>, cmd: Option<Vec<char>>, ts: Option<u64>)
    ensures
        entries_view(final(entries)@) == fish_flush(
            entries_view(old(entries)@),
            match cmd {
                Some(c) => Some(c@),
                None => None,
            },
            ts,
        ),
{
    if let Some(cmd) = cmd {
        let command = first_word_of(cmd.as_slice());
        let e = HistoryEntry::from_chars(cmd.as_slice(), command.as_slice(), ts);
        let ghost before = entries@;
        entries.push(e);
        assert(entries_view(entries@) == entries_view(before).push(e@));
    }
}

pub open spec fn opt_chars(v: Option<Vec<char>>) -> Option<Seq<char>> {
    match v {
        Some(c) => Some(c@),
        None => None,
    }
}

impl HistoryParser for FishHistoryParser {
    fn parse(&self, input: &str) -> (r: Vec<HistoryEntry>)
        ensures
            entries_view(r@) == parse_fish(input@),
    {
        let cs = chars_of(input);
        let ls = split_lines(cs.as_slice());
        let ghost gl = lines(input@);
        let mut entries: Vec<HistoryEntry> = Vec::new();
        let mut cur_cmd: Option<Vec<char>> = None;
        let mut cur_ts: Option<u64> = None;
        for i in 0..ls.len()
            invariant
                ls@.len() == gl.len(),
                gl == lines(input@),
                forall|j: int| 0 <= j < ls@.len() ==> #[trigger] ls@[j]@ == gl[j],
                entries_view(entries@) == fish_fold(gl.take(i as int)).0,
                opt_chars(cur_cmd) == fish_fold(gl.take(i as int)).1,
                cur_ts == fish_fold(gl.take(i as int)).2,
        {
            let line = &ls[i];
            assert(gl.take(i + 1).drop_last() == gl.take(i as int));
            assert(gl.take(i + 1).last() == line@);
            let (a, b) = trim_range(line.as_slice(), 0, line.len());
            assert(line@.subrange(0, line@.len() as int) == line@);
            let start = match range_strip_prefix(line.as_slice(), a, b, "- cmd:") {
                Some(k) => Some(k),
                None => range_strip_prefix(line.as_slice(), a, b, "cmd:"),
            };
            match start {
                Some(k) => {
                    let taken_cmd = cur_cmd;
                    cur_cmd = None;
                    let taken_ts = cur_ts;
                    cur_ts = None;
                    flush(&mut entries, taken_cmd, taken_ts);
                    let (c0, c1) = trim_range(line.as_slice(), k, b);
                    if c0 < c1 {
                        cur_cmd = Some(copy_range(line.as_slice(), c0, c1));
                    }
                },
                None => {
                    if let Some(k) = range_strip_prefix(line.as_slice(), a, b, "when:") {
                        let (c0, c1) = trim_range(line.as_slice(), k, b);
                        let digits = copy_range(line.as_slice(), c0, c1);
                        if let Some(v) = parse_u64(digits.as_slice()) {
                            cur_ts = Some(v);
                        }
                    }
                },
            }
        }
        assert(gl.take(ls@.len() as int) == gl);
        flush(&mut entries, cur_cmd, cur_ts);
        entries
    }
}

} // verus!
