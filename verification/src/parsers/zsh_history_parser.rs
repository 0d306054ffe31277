//! Zsh history, including extended-history timestamps.
use vstd::prelude::*;
use crate::models::{EntryModel, HistoryEntry, entries_view, entry_model};
use crate::numbers::{digit_run, parse_u64, scan_digits, u64_of_text};
use crate::parsers::HistoryParser;
use crate::text::{
    after_first, chars_of, copy_range, find_char, first_word, first_word_of, lines, skip_ws,
    split_lines, string_of, trim, trim_range, trim_start,
};

verus! {

/// A `: <epoch>:<elapsed>;<command>` line read as (command, epoch): after the
/// `:` and optional whitespace come the epoch digits (which must fit in
/// `u64`), a `:`, anything up to the first `;`, then the command, whose
/// leading whitespace is dropped.
pub open spec fn zsh_extended(line: Seq<char>) -> Option<(Seq<char>, u64)> {
    if line.len() == 0 || line[0] != ':' {
        None
    } else {
        let rest = trim_start(line.drop_first());
        let k = digit_run(rest);
        if k == 0 {
            None
        } else {
            match u64_of_text(rest.take(k as int)) {
                None => None,
                Some(ts) => {
                    let after = rest.skip(k as int);
                    if after.len() == 0 || after[0] != ':' {
                        None
                    } else {
                        match after_first(after.drop_first(), ';') {
                            None => None,
                            Some(tail) => Some((trim_start(tail), ts)),
                        }
                    }
                },
            }
        }
    }
}

/// Entries so far, after one more line.
pub open spec fn zsh_step(entries: Seq<EntryModel>, line: Seq<char>) -> Seq<EntryModel> {
    let t = trim(line);
    if t.len() == 0 {
        entries
    } else {
        match zsh_extended(t) {
            Some((cmd, ts)) => if cmd.len() == 0 {
                entries
            } else {
                entries.push(entry_model(cmd, first_word(cmd), Some(ts)))
            },
            None => entries.push(entry_model(t, first_word(t), None)),
        }
    }
}

pub open spec fn zsh_fold(ls: Seq<Seq<char>>) -> Seq<EntryModel>
    decreases ls.len(),
{
    if ls.len() == 0 {
        Seq::empty()
    } else {
        zsh_step(zsh_fold(ls.drop_last()), ls.last())
    }
}

/// The entries of a zsh history text: each non-blank trimmed line is either an
/// extended line, giving its command (skipped when empty) with its epoch as
/// timestamp, or a plain command without timestamp.
pub open spec fn parse_zsh(input: Seq<char>) -> Seq<EntryModel> {
    zsh_fold(lines(input))
}

/// Parser for zsh history files, including extended-history timestamps.
///
/// Extended format lines look like `: 1577836800:0;git push`, where the first
/// number is the start timestamp, the second is elapsed seconds, and the text
/// after `;` is the command. Lines without that prefix are treated as plain
/// commands.
#[derive(Debug, Default, Clone, Copy)]
pub struct ZshHistoryParser;

impl ZshHistoryParser {
    /// Create a new parser instance.
    pub fn new() -> (p: Self)
        ensures
            p == ZshHistoryParser,
    {
        ZshHistoryParser
    }
}

/// `zsh_extended` of `s[lo..hi]`, giving where the command starts.
pub fn extended_range(s: &[char], lo: usize, hi: usize) -> (r: Option<(usize, u64)>)
    requires
        lo <= hi <= s.len(),
    ensures
        match r {
            Some((k, ts)) => lo <= k <= hi && zsh_extended(s@.subrange(lo as int, hi as int))
                == Some((s@.subrange(k as int, hi as int), ts)),
            None => zsh_extended(s@.subrange(lo as int, hi as int)) is None,
        },
{
    let ghost t = s@.subrange(lo as int, hi as int);
    if lo == hi || s[lo] != ':' {
        proof {
            if lo < hi {
                assert(t[0] == s@[lo as int]);
            }
        }
        return None;
    }
    assert(t[0] == s@[lo as int]);
    assert(t.drop_first() == s@.subrange(lo + 1, hi as int));
    let r0 = skip_ws(s, lo + 1, hi);
    let ghost rest = s@.subrange(r0 as int, hi as int);
    let k = scan_digits(s, r0, hi);
    if k == r0 {
        return None;
    }
    let digits = copy_range(s, r0, k);
    assert(rest.take(k - r0) == s@.subrange(r0 as int, k as int));
    let ts = match parse_u64(digits.as_slice()) {
        Some(v) => v,
        None => {
            return None;
        },
    };
    let ghost after = rest.skip(k - r0);
    assert(after == s@.subrange(k as int, hi as int));
    if k == hi || s[k] != ':' {
        proof {
            if k < hi {
                assert(after[0] == s@[k as int]);
            }
        }
        return None;
    }
    assert(after[0] == s@[k as int]);
    assert(after.drop_first() == s@.subrange(k + 1, hi as int));
    let semi = find_char(s, k + 1, hi, ';');
    if semi == hi {
        return None;
    }
    let c0 = skip_ws(s, semi + 1, hi);
    Some((c0, ts))
}

/// Parse a `: <epoch>:<elapsed>;<command>` line into (command_line, timestamp).
pub fn parse_zsh_extended(line: &str) -> (r: Option<(String, u64)>)
    ensures
        match r {
            Some((c, ts)) => zsh_extended(line@) == Some((c@, ts)),
            None => zsh_extended(line@) is None,
        },
{
    let cs = chars_of(line);
    assert(cs@.subrange(0, cs@.len() as int) == cs@);
    match extended_range(cs.as_slice(), 0, cs.len()) {
        Some((k, ts)) => {
            let cmd = copy_range(cs.as_slice(), k, cs.len());
            Some((string_of(cmd.as_slice()), ts))
        },
        None => None,
    }
}

impl HistoryParser for ZshHistoryParser {
    fn parse(&self, input: &str) -> (r: Vec<HistoryEntry>)
        ensures
            entries_view(r@) == parse_zsh(input@),
    {
        let cs = chars_of(input);
        let ls = split_lines(cs.as_slice());
        let ghost gl = lines(input@);
        let mut entries: Vec<HistoryEntry> = Vec::new();
        for i in 0..ls.len()
            invariant
                ls@.len() == gl.len(),
                gl == lines(input@),
                forall|j: int| 0 <= j < ls@.len() ==> #[trigger] ls@[j]@ == gl[j],
                entries_view(entries@) == zsh_fold(gl.take(i as int)),
        {
            let line = &ls[i];
            assert(gl.take(i + 1).drop_last() == gl.take(i as int));
            assert(gl.take(i + 1).last() == line@);
            let (a, b) = trim_range(line.as_slice(), 0, line.len());
            assert(line@.subrange(0, line@.len() as int) == line@);
            if a < b {
                let ghost before = entries@;
                match extended_range(line.as_slice(), a, b) {
                    Some((k, ts)) => {
                        if k < b {
                            let cmd = copy_range(line.as_slice(), k, b);
                            let command = first_word_of(cmd.as_slice());
                            let e = HistoryEntry::from_chars(
                                cmd.as_slice(),
                                command.as_slice(),
                                Some(ts),
                            );
                            entries.push(e);
                            assert(entries_view(entries@) == entries_view(before).push(e@));
                        }
                    },
                    None => {
                        let trimmed = copy_range(line.as_slice(), a, b);
                        let command = first_word_of(trimmed.as_slice());
                        let e = HistoryEntry::from_chars(
                            trimmed.as_slice(),
                            command.as_slice(),
                            None,
                        );
                        entries.push(e);
                        assert(entries_view(entries@) == entries_view(before).push(e@));
                    },
                }
            }
        }
        assert(gl.take(ls@.len() as int) == gl);
        entries
    }
}

} // verus!
