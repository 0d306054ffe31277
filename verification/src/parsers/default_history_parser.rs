//! Bash history, with optional `#<epoch>` timestamp lines.
use vstd::prelude::*;
use crate::models::{EntryModel, HistoryEntry, entries_view, entry_model};
use crate::numbers::{all_digits, all_digits_in, parse_u64, u64_of_text};
use crate::parsers::HistoryParser;
use crate::text::{chars_of, copy_range, first_word, first_word_of, lines, split_lines, trim, trim_range};

verus! {

/// A trimmed bash line `#<digits>`, which records the time of the next command.
pub open spec fn is_timestamp_line(t: Seq<char>) -> bool {
    t.len() > 1 && t[0] == '#' && all_digits(t.drop_first())
}

/// Entries read so far and the pending timestamp, after one more line.
pub open spec fn bash_step(st: (Seq<EntryModel>, Option<u64>), line: Seq<char>) -> (
    Seq<EntryModel>,
    Option<u64>,
) {
    let t = trim(line);
    if t.len() == 0 {
        st
    } else if is_timestamp_line(t) {
        (st.0, u64_of_text(t.drop_first()))
    } else {
        (st.0.push(entry_model(t, first_word(t), st.1)), None)
    }
}

/// Reading a sequence of lines, from the first to the last.
pub open spec fn bash_fold(ls: Seq<Seq<char>>) -> (Seq<EntryModel>, Option<u64>)
    decreases ls.len(),
{
    if ls.len() == 0 {
        (Seq::empty(), None)
    } else {
        bash_step(bash_fold(ls.drop_last()), ls.last())
    }
}

/// The entries of a bash history text: one per non-blank line, trimmed, with
/// its first word as the command; a `#<digits>` line gives its number (when
/// it fits in `u64`) as the timestamp of the next command line, the last such
/// line winning.
pub open spec fn parse_bash(input: Seq<char>) -> Seq<EntryModel> {
    bash_fold(lines(input)).0
}

/// The last line of `ls` that holds more than whitespace, trimmed.
pub open spec fn last_nonblank(ls: Seq<Seq<char>>) -> Option<Seq<char>>
    decreases ls.len(),
{
    if ls.len() == 0 {
        None
    } else if trim(ls.last()).len() == 0 {
        last_nonblank(ls.drop_last())
    } else {
        Some(trim(ls.last()))
    }
}

/// The timestamp that a command line takes after the lines `ls`: the number
/// of the nonblank line just before it, where that line is `#<digits>` (and
/// the number fits in `u64`); none otherwise.
pub open spec fn timestamp_before(ls: Seq<Seq<char>>) -> Option<u64> {
    match last_nonblank(ls) {
        Some(t) => if is_timestamp_line(t) {
            u64_of_text(t.drop_first())
        } else {
            None
        },
        None => None,
    }
}

proof fn lemma_pending_is_timestamp_before(ls: Seq<Seq<char>>)
    ensures
        bash_fold(ls).1 == timestamp_before(ls),
    decreases ls.len(),
{
    if ls.len() > 0 {
        lemma_pending_is_timestamp_before(ls.drop_last());
    }
}

/// A timestamp line serves only the command line right after it: appending
/// a command line to any lines appends exactly one entry, the trimmed line
/// with its first word as the command, and its timestamp is that of the
/// nonblank line just before it when that is a `#<digits>` line, and none
/// otherwise (so a second command after one timestamp line gets none). The
/// entries read before stay as they were.
pub proof fn lemma_bash_command_line(ls: Seq<Seq<char>>, c: Seq<char>)
    requires
        trim(c).len() > 0,
        !is_timestamp_line(trim(c)),
    ensures
        bash_fold(ls.push(c)).0 == bash_fold(ls).0.push(
            entry_model(trim(c), first_word(trim(c)), timestamp_before(ls)),
        ),
        bash_fold(ls.push(c)).1 is None,
{
    lemma_pending_is_timestamp_before(ls);
    assert(ls.push(c).drop_last() == ls);
}

/// Blank lines and timestamp lines add no entry.
pub proof fn lemma_bash_other_line(ls: Seq<Seq<char>>, c: Seq<char>)
    requires
        trim(c).len() == 0 || is_timestamp_line(trim(c)),
    ensures
        bash_fold(ls.push(c)).0 == bash_fold(ls).0,
{
    assert(ls.push(c).drop_last() == ls);
}

/// In the entries of a bash history text, a command line gets a timestamp
/// exactly when the nonblank line just before it is a `#<digits>` line: the
/// entries of the text's lines followed by one more command line end with
/// that line's entry, which carries the timestamp of the line before it and
/// nothing else.
pub proof fn lemma_parse_bash_timestamps(input: Seq<char>, c: Seq<char>)
    requires
        trim(c).len() > 0,
        !is_timestamp_line(trim(c)),
    ensures
        bash_fold(lines(input).push(c)).0 == parse_bash(input).push(
            entry_model(trim(c), first_word(trim(c)), timestamp_before(lines(input))),
        ),
{
    lemma_bash_command_line(lines(input), c);
}

/// Default parser for bash history files.
///
/// Strips whitespace, skips empty lines, grabs the first token as the command.
/// Lines starting with `#<digits>` are treated as timestamps
/// (bash `HISTTIMEFORMAT`) and attached to the following command line.
#[derive(Debug, Default, Clone, Copy)]
pub struct DefaultHistoryParser;

impl DefaultHistoryParser {
    /// Create a new parser instance.
    pub fn new() -> (p: Self)
        ensures
            p == DefaultHistoryParser,
    {
        DefaultHistoryParser
    }
}

impl HistoryParser for DefaultHistoryParser {
    fn parse(&self, input: &str) -> (r: Vec<HistoryEntry>)
        ensures
            entries_view(r@) == parse_bash(input@),
    {
        let cs = chars_of(input);
        let ls = split_lines(cs.as_slice());
        let ghost gl = lines(input@);
        let mut entries: Vec<HistoryEntry> = Vec::new();
        let mut pending: Option<u64> = None;
        for i in 0..ls.len()
            invariant
                ls@.len() == gl.len(),
                gl == lines(input@),
                forall|j: int| 0 <= j < ls@.len() ==> #[trigger] ls@[j]@ == gl[j],
                entries_view(entries@) == bash_fold(gl.take(i as int)).0,
                pending == bash_fold(gl.take(i as int)).1,
        {
            let line = &ls[i];
            assert(gl.take(i + 1).drop_last() == gl.take(i as int));
            assert(gl.take(i + 1).last() == line@);
            let (a, b) = trim_range(line.as_slice(), 0, line.len());
            assert(line@.subrange(0, line@.len() as int) == line@);
            let ghost t = line@.subrange(a as int, b as int);
            if a < b {
                if line[a] == '#' && b - a > 1 && all_digits_in(line.as_slice(), a + 1, b) {
                    assert(t.drop_first() == line@.subrange(a + 1, b as int));
                    let digits = copy_range(line.as_slice(), a + 1, b);
                    pending = parse_u64(digits.as_slice());
                } else {
                    proof {
                        if t.len() > 1 && t[0] == '#' {
                            assert(t.drop_first() == line@.subrange(a + 1, b as int));
                        }
                    }
                    let trimmed = copy_range(line.as_slice(), a, b);
                    let command = first_word_of(trimmed.as_slice());
                    let e = HistoryEntry::from_chars(trimmed.as_slice(), command.as_slice(), pending);
                    let ghost before = entries@;
                    entries.push(e);
                    assert(entries_view(entries@) == entries_view(before).push(e@));
                    pending = None;
                }
            }
        }
        assert(gl.take(ls@.len() as int) == gl);
        entries
    }
}

/// Convenience function: parse history using [`DefaultHistoryParser`].
pub fn parse_history(input: &str) -> (r: Vec<HistoryEntry>)
    ensures
        entries_view(r@) == parse_bash(input@),
{
    DefaultHistoryParser::new().parse(input)
}

} // verus!
