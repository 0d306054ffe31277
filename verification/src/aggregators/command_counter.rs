//! Counting commands, and the last time each was used.
use vstd::prelude::*;
use crate::aggregators::command_map::CommandMap;
use crate::aggregators::command_ranker::{RankOrder, is_ranking, lemma_precedes_order, precedes};
use crate::output::stats::sum_counts;
use crate::models::{EntryModel, HistoryEntry, entries_view};
use crate::text::{
    ascii_lower, chars_of, is_ascii_text, lemma_words_nonempty, lowercase, push_chars, split_words,
    string_of, to_lowercase, trim, trim_chars, words,
};

verus! {

/// The words joined with single spaces.
pub open spec fn join_words(ws: Seq<Seq<char>>) -> Seq<char>
    decreases ws.len(),
{
    if ws.len() == 0 {
        Seq::empty()
    } else if ws.len() == 1 {
        ws[0]
    } else {
        join_words(ws.drop_last()) + seq![' '] + ws.last()
    }
}

pub proof fn lemma_join_words_len(ws: Seq<Seq<char>>)
    requires
        ws.len() >= 1,
    ensures
        join_words(ws).len() >= ws[0].len(),
    decreases ws.len(),
{
    if ws.len() > 1 {
        lemma_join_words_len(ws.drop_last());
    }
}

/// The count key of a history line at a depth: none at depth 0; at depth 1
/// the lowercased, trimmed base command, unless that is empty; deeper, the
/// first `depth` words of the raw line joined by spaces and lowercased, unless
/// the line has no word.
pub open spec fn key_of(raw: Seq<char>, command: Seq<char>, depth: nat) -> Option<Seq<char>> {
    if depth == 0 {
        None
    } else if depth == 1 {
        let k = lowercase(trim(command));
        if k.len() > 0 {
            Some(k)
        } else {
            None
        }
    } else {
        let ws = words(raw);
        if ws.len() == 0 {
            None
        } else {
            let n = if depth < ws.len() {
                depth
            } else {
                ws.len()
            };
            Some(lowercase(join_words(ws.take(n as int))))
        }
    }
}

/// The text that a key is the lowercase form of: the trimmed base command at
/// depth 1 (and 0), deeper the first `depth` words of the raw line joined by
/// spaces.
pub open spec fn key_source(raw: Seq<char>, command: Seq<char>, depth: nat) -> Seq<char> {
    if depth <= 1 {
        trim(command)
    } else {
        let ws = words(raw);
        let n = if depth < ws.len() {
            depth
        } else {
            ws.len()
        };
        join_words(ws.take(n as int))
    }
}

/// The count key where its text is ASCII: `key_of` with ASCII lowercasing,
/// so that `Git` and `git` give the key `git`.
pub open spec fn ascii_key_of(raw: Seq<char>, command: Seq<char>, depth: nat) -> Option<Seq<char>> {
    if depth == 0 {
        None
    } else if depth == 1 {
        let k = ascii_lower(trim(command));
        if k.len() > 0 {
            Some(k)
        } else {
            None
        }
    } else if words(raw).len() == 0 {
        None
    } else {
        Some(ascii_lower(key_source(raw, command, depth)))
    }
}

/// An entry whose key text is ASCII.
pub open spec fn ascii_entry(e: EntryModel, depth: nat) -> bool {
    is_ascii_text(key_source(e.raw, e.command, depth))
}

/// The count key of an entry at a depth.
pub open spec fn entry_key(e: EntryModel, depth: nat) -> Option<Seq<char>> {
    key_of(e.raw, e.command, depth)
}

/// The text of an optional string.
pub open spec fn opt_text(o: Option<String>) -> Option<Seq<char>> {
    match o {
        Some(s) => Some(s@),
        None => None,
    }
}

/// The lowercased count key for an entry at the given `depth`, if any.
///
/// `depth = 1` uses the base command; deeper keys take the first `depth`
/// whitespace tokens of the raw line.
pub fn command_key(entry: &HistoryEntry, depth: usize) -> (r: Option<String>)
    ensures
        opt_text(r) == entry_key(entry@, depth as nat),
        ascii_entry(entry@, depth as nat) ==> opt_text(r) == ascii_key_of(
            entry@.raw,
            entry@.command,
            depth as nat,
        ),
{
    if depth == 0 {
        return None;
    }
    if depth == 1 {
        let cs = chars_of(entry.command.as_str());
        let t = trim_chars(cs.as_slice());
        let ts = string_of(t.as_slice());
        let key = to_lowercase(ts.as_str());
        if key.as_str().is_empty() {
            return None;
        } else {
            return Some(key);
        }
    }
    let raw = chars_of(entry.raw.as_str());
    let ws = split_words(raw.as_slice());
    let ghost gw = words(entry.raw@);
    if ws.len() == 0 {
        return None;
    }
    let n = if depth < ws.len() {
        depth
    } else {
        ws.len()
    };
    let mut s: Vec<char> = Vec::new();
    for i in 0..n
        invariant
            n <= ws@.len() == gw.len(),
            gw == words(entry.raw@),
            forall|j: int| 0 <= j < ws@.len() ==> #[trigger] ws@[j]@ == gw[j],
            i == 0 ==> s@.len() == 0,
            i > 0 ==> s@ == join_words(gw.take(i as int)),
    {
        assert(gw.take(i + 1).drop_last() == gw.take(i as int));
        if i > 0 {
            s.push(' ');
        } else {
            assert(gw.take(1)[0] == gw[0]);
        }
        push_chars(&mut s, ws[i].as_slice());
        proof {
            if i == 0 {
                assert(s@ == gw[0]);
            }
        }
    }
    proof {
        lemma_words_nonempty(entry.raw@);
        assert(gw.take(n as int)[0] == gw[0]);
        lemma_join_words_len(gw.take(n as int));
    }
    let joined = string_of(s.as_slice());
    Some(to_lowercase(joined.as_str()))
}

/// How many entries have the key `k` at a depth.
pub open spec fn tally(es: Seq<EntryModel>, depth: nat, k: Seq<char>) -> nat
    decreases es.len(),
{
    if es.len() == 0 {
        0
    } else {
        tally(es.drop_last(), depth, k) + if entry_key(es.last(), depth) == Some(k) {
            1nat
        } else {
            0nat
        }
    }
}

pub proof fn lemma_tally_bound(es: Seq<EntryModel>, depth: nat, k: Seq<char>)
    ensures
        tally(es, depth, k) <= es.len(),
    decreases es.len(),
{
    if es.len() > 0 {
        lemma_tally_bound(es.drop_last(), depth, k);
    }
}

/// How many entries have a key at a depth (entries whose command is empty
/// have none).
pub open spec fn keyed_count(es: Seq<EntryModel>, depth: nat) -> nat
    decreases es.len(),
{
    if es.len() == 0 {
        0
    } else {
        keyed_count(es.drop_last(), depth) + if entry_key(es.last(), depth) is Some {
            1nat
        } else {
            0nat
        }
    }
}

pub proof fn lemma_keyed_count_bound(es: Seq<EntryModel>, depth: nat)
    ensures
        keyed_count(es, depth) <= es.len(),
    decreases es.len(),
{
    if es.len() > 0 {
        lemma_keyed_count_bound(es.drop_last(), depth);
    }
}

/// The names of a list of pairs.
pub open spec fn keys_of(r: Seq<(Seq<char>, usize)>) -> Seq<Seq<char>> {
    r.map_values(|p: (Seq<char>, usize)| p.0)
}

/// The counts of the keys `ks`, added up.
pub open spec fn tally_sum(es: Seq<EntryModel>, depth: nat, ks: Seq<Seq<char>>) -> nat
    decreases ks.len(),
{
    if ks.len() == 0 {
        0
    } else {
        tally_sum(es, depth, ks.drop_last()) + tally(es, depth, ks.last())
    }
}

/// How many of the keys `ks` the optional key `x` is.
pub open spec fn hits(ks: Seq<Seq<char>>, x: Option<Seq<char>>) -> nat
    decreases ks.len(),
{
    if ks.len() == 0 {
        0
    } else {
        hits(ks.drop_last(), x) + if x == Some(ks.last()) {
            1nat
        } else {
            0nat
        }
    }
}

proof fn lemma_tally_sum_step(es: Seq<EntryModel>, depth: nat, ks: Seq<Seq<char>>)
    ensures
        es.len() == 0 ==> tally_sum(es, depth, ks) == 0,
        es.len() > 0 ==> tally_sum(es, depth, ks) == tally_sum(es.drop_last(), depth, ks) + hits(
            ks,
            entry_key(es.last(), depth),
        ),
    decreases ks.len(),
{
    if ks.len() > 0 {
        lemma_tally_sum_step(es, depth, ks.drop_last());
    }
}

proof fn lemma_hits_distinct(ks: Seq<Seq<char>>, x: Option<Seq<char>>)
    requires
        ks.no_duplicates(),
    ensures
        hits(ks, x) == if x is Some && ks.contains(x->0) {
            1nat
        } else {
            0nat
        },
    decreases ks.len(),
{
    if ks.len() > 0 {
        let init = ks.drop_last();
        assert(init.no_duplicates());
        lemma_hits_distinct(init, x);
        if x is Some && ks.contains(x->0) {
            let j = choose|j: int| 0 <= j < ks.len() && ks[j] == x->0;
            if j < ks.len() - 1 {
                assert(init[j] == ks[j]);
                assert(ks[j] != ks[ks.len() - 1]);
            }
        }
        if x is Some && init.contains(x->0) {
            let j = choose|j: int| 0 <= j < init.len() && init[j] == x->0;
            assert(ks[j] == init[j]);
            assert(ks[j] != ks[ks.len() - 1]);
        }
        if x == Some(ks.last()) {
            assert(ks.contains(ks[ks.len() - 1]));
        }
        if x is Some && ks.contains(x->0) && x != Some(ks.last()) {
            let j = choose|j: int| 0 <= j < ks.len() && ks[j] == x->0;
            assert(init[j] == ks[j]);
        }
    }
}

/// Distinct keys that cover every key of the entries count, together, every
/// entry that has a key.
proof fn lemma_tally_sum_all(es: Seq<EntryModel>, depth: nat, ks: Seq<Seq<char>>)
    requires
        ks.no_duplicates(),
        forall|i: int| 0 <= i < es.len() && (#[trigger] entry_key(es[i], depth)) is Some
            ==> ks.contains(entry_key(es[i], depth)->0),
    ensures
        tally_sum(es, depth, ks) == keyed_count(es, depth),
    decreases es.len(),
{
    lemma_tally_sum_step(es, depth, ks);
    if es.len() > 0 {
        let init = es.drop_last();
        assert forall|i: int| 0 <= i < init.len() && (#[trigger] entry_key(init[i], depth)) is Some
            implies ks.contains(entry_key(init[i], depth)->0) by {
            assert(init[i] == es[i]);
        }
        lemma_tally_sum_all(init, depth, ks);
        lemma_hits_distinct(ks, entry_key(es.last(), depth));
        assert(entry_key(es[es.len() - 1], depth) == entry_key(es.last(), depth));
    }
}

/// An entry with a key counts toward it.
proof fn lemma_tally_positive(es: Seq<EntryModel>, depth: nat, i: int)
    requires
        0 <= i < es.len(),
        entry_key(es[i], depth) is Some,
    ensures
        tally(es, depth, entry_key(es[i], depth)->0) > 0,
    decreases es.len(),
{
    if i < es.len() - 1 {
        assert(es.drop_last()[i] == es[i]);
        lemma_tally_positive(es.drop_last(), depth, i);
    }
}

proof fn lemma_sum_as_tallies(es: Seq<EntryModel>, depth: nat, r: Seq<(Seq<char>, usize)>)
    requires
        forall|i: int| 0 <= i < r.len() ==> (#[trigger] r[i]).1 == tally(es, depth, r[i].0),
    ensures
        sum_counts(r) == tally_sum(es, depth, keys_of(r)),
    decreases r.len(),
{
    if r.len() > 0 {
        let init = r.drop_last();
        assert forall|i: int| 0 <= i < init.len() implies (#[trigger] init[i]).1 == tally(
            es,
            depth,
            init[i].0,
        ) by {
            assert(init[i] == r[i]);
        }
        lemma_sum_as_tallies(es, depth, init);
        assert(keys_of(r).drop_last() =~= keys_of(init));
        assert(r[r.len() - 1] == r.last());
    }
}

/// The counts of a ranking of the command counts add up to the number of
/// entries that have a command: each such entry is counted once, under its
/// key.
pub proof fn lemma_counts_total(es: Seq<EntryModel>, depth: nat, r: Seq<(Seq<char>, usize)>, order: RankOrder)
    requires
        es.len() <= usize::MAX,
        is_ranking(r, tally_map(es, depth), order),
    ensures
        sum_counts(r) == keyed_count(es, depth),
        sum_counts(r) <= es.len(),
{
    let m = tally_map(es, depth);
    let ks = keys_of(r);
    assert forall|i: int| 0 <= i < r.len() implies (#[trigger] r[i]).1 == tally(es, depth, r[i].0) by {
        assert(m.contains_key(r[i].0));
        lemma_tally_bound(es, depth, r[i].0);
    }
    lemma_sum_as_tallies(es, depth, r);
    assert forall|i: int, j: int| 0 <= i < ks.len() && 0 <= j < ks.len() && i != j implies ks[i]
        != ks[j] by {
        assert(m.contains_key(r[i].0) && m.contains_key(r[j].0));
        lemma_precedes_order(r[i], r[i], r[i], order);
        lemma_precedes_order(r[j], r[j], r[j], order);
        if i < j {
            assert(precedes(r[i], r[j], order));
        } else {
            assert(precedes(r[j], r[i], order));
        }
    }
    assert forall|i: int| 0 <= i < es.len() && (#[trigger] entry_key(es[i], depth)) is Some
        implies ks.contains(entry_key(es[i], depth)->0) by {
        let k = entry_key(es[i], depth)->0;
        lemma_tally_positive(es, depth, i);
        assert(m.contains_key(k));
        let j = choose|j: int| 0 <= j < r.len() && r[j].0 == k;
        assert(ks[j] == k);
    }
    lemma_tally_sum_all(es, depth, ks);
    lemma_keyed_count_bound(es, depth);
}

/// `m` counts, for each key, the entries that have it; keys no entry has are
/// absent.
pub open spec fn is_tally(m: Map<Seq<char>, usize>, es: Seq<EntryModel>, depth: nat) -> bool {
    &&& forall|k: Seq<char>| #[trigger] m.contains_key(k) <==> tally(es, depth, k) > 0
    &&& forall|k: Seq<char>| #[trigger] m.contains_key(k) ==> m[k] == tally(es, depth, k)
}

/// The count of every key that some entry has.
pub open spec fn tally_map(es: Seq<EntryModel>, depth: nat) -> Map<Seq<char>, usize> {
    Map::new(|k: Seq<char>| tally(es, depth, k) > 0, |k: Seq<char>| tally(es, depth, k) as usize)
}

pub proof fn lemma_tally_map(m: Map<Seq<char>, usize>, es: Seq<EntryModel>, depth: nat)
    requires
        is_tally(m, es, depth),
    ensures
        m == tally_map(es, depth),
{
    assert(m =~= tally_map(es, depth)) by {
        assert forall|k: Seq<char>| #[trigger] m.contains_key(k) implies m[k] == tally_map(
            es,
            depth,
        )[k] by {
            assert(m[k] == tally(es, depth, k));
        }
    }
}

/// Count how many times each command appears.
///
/// Normalizes to lowercase so `Git` and `git` merge into one count.
/// Skips empty commands.
pub fn count_commands(entries: &[HistoryEntry]) -> (r: CommandMap<usize>)
    ensures
        is_tally(r@, entries_view(entries@), 1),
        r@ == tally_map(entries_view(entries@), 1),
        forall|i: int|
            0 <= i < entries@.len() && ascii_entry(#[trigger] entries_view(entries@)[i], 1)
                ==> entry_key(entries_view(entries@)[i], 1) == ascii_key_of(
                entries_view(entries@)[i].raw,
                entries_view(entries@)[i].command,
                1,
            ),
        forall|i: int, j: int|
            0 <= i < entries@.len() && 0 <= j < entries@.len() && ascii_entry(
                #[trigger] entries_view(entries@)[i],
                1,
            ) && ascii_entry(#[trigger] entries_view(entries@)[j], 1) && ascii_lower(
                trim(entries_view(entries@)[i].command),
            ) == ascii_lower(trim(entries_view(entries@)[j].command)) ==> entry_key(
                entries_view(entries@)[i],
                1,
            ) == entry_key(entries_view(entries@)[j], 1),
{
    count_commands_at_depth(entries, 1)
}

/// Count commands treating the first `depth` whitespace tokens as the key.
///
/// `depth = 1` is the default (first token only). `depth = 2` ranks
/// multi-word commands like `git commit` and `git push` separately.
pub fn count_commands_at_depth(entries: &[HistoryEntry], depth: usize) -> (r: CommandMap<usize>)
    ensures
        is_tally(r@, entries_view(entries@), depth as nat),
        r@ == tally_map(entries_view(entries@), depth as nat),
        forall|i: int|
            0 <= i < entries@.len() && ascii_entry(#[trigger] entries_view(entries@)[i], depth as nat)
                ==> entry_key(entries_view(entries@)[i], depth as nat) == ascii_key_of(
                entries_view(entries@)[i].raw,
                entries_view(entries@)[i].command,
                depth as nat,
            ),
{
    let ghost es = entries_view(entries@);
    let mut counts: CommandMap<usize> = CommandMap::new();
    for i in 0..entries.len()
        invariant
            es == entries_view(entries@),
            is_tally(counts@, es.take(i as int), depth as nat),
            forall|j: int|
                0 <= j < i && ascii_entry(#[trigger] es[j], depth as nat) ==> entry_key(
                    es[j],
                    depth as nat,
                ) == ascii_key_of(es[j].raw, es[j].command, depth as nat),
    {
        let ghost pre = es.take(i as int);
        let ghost post = es.take(i + 1);
        assert(post.drop_last() == pre);
        assert(post.last() == entries@[i as int]@);
        match command_key(&entries[i], depth) {
            Some(key) => {
                let old_count: usize = match counts.get(key.as_str()) {
                    Some(c) => *c,
                    None => 0,
                };
                proof {
                    lemma_tally_bound(pre, depth as nat, key@);
                }
                let ghost before = counts@;
                counts.insert(key, old_count + 1);
                assert forall|k: Seq<char>| #[trigger] counts@.contains_key(k) <==> tally(
                    post,
                    depth as nat,
                    k,
                ) > 0 by {
                    if k != key@ {
                        assert(before.contains_key(k) == counts@.contains_key(k));
                    }
                }
            },
            None => {
                assert forall|k: Seq<char>| #[trigger]
                    counts@.contains_key(k) implies counts@[k] == tally(post, depth as nat, k) by {}
            },
        }
    }
    assert(es.take(entries.len() as int) == es);
    proof {
        lemma_tally_map(counts@, es, depth as nat);
    }
    counts
}

/// The latest timestamp among the entries with the key `k` at a depth.
pub open spec fn latest(es: Seq<EntryModel>, depth: nat, k: Seq<char>) -> Option<u64>
    decreases es.len(),
{
    if es.len() == 0 {
        None
    } else {
        let prev = latest(es.drop_last(), depth, k);
        let e = es.last();
        if entry_key(e, depth) == Some(k) && e.timestamp is Some {
            let t = e.timestamp->0;
            Some(
                match prev {
                    Some(p) => if p > t {
                        p
                    } else {
                        t
                    },
                    None => t,
                },
            )
        } else {
            prev
        }
    }
}

/// `m` gives, for each key, the latest timestamp of the entries that have it;
/// keys without a timestamped entry are absent.
pub open spec fn is_latest(m: Map<Seq<char>, u64>, es: Seq<EntryModel>, depth: nat) -> bool {
    &&& forall|k: Seq<char>| #[trigger] m.contains_key(k) <==> latest(es, depth, k) is Some
    &&& forall|k: Seq<char>| #[trigger] m.contains_key(k) ==> Some(m[k]) == latest(es, depth, k)
}

/// The latest timestamp of every key that some timestamped entry has.
pub open spec fn latest_map(es: Seq<EntryModel>, depth: nat) -> Map<Seq<char>, u64> {
    Map::new(|k: Seq<char>| latest(es, depth, k) is Some, |k: Seq<char>| latest(es, depth, k)->0)
}

pub proof fn lemma_latest_map(m: Map<Seq<char>, u64>, es: Seq<EntryModel>, depth: nat)
    requires
        is_latest(m, es, depth),
    ensures
        m == latest_map(es, depth),
{
    assert(m =~= latest_map(es, depth)) by {
        assert forall|k: Seq<char>| #[trigger] m.contains_key(k) implies m[k] == latest_map(
            es,
            depth,
        )[k] by {
            assert(Some(m[k]) == latest(es, depth, k));
        }
    }
}

/// The last time each command key was used: the largest timestamp among the
/// entries with that key at the given depth.
pub fn last_used_at_depth(entries: &[HistoryEntry], depth: usize) -> (r: CommandMap<u64>)
    ensures
        is_latest(r@, entries_view(entries@), depth as nat),
        r@ == latest_map(entries_view(entries@), depth as nat),
{
    let ghost es = entries_view(entries@);
    let mut last: CommandMap<u64> = CommandMap::new();
    for i in 0..entries.len()
        invariant
            es == entries_view(entries@),
            is_latest(last@, es.take(i as int), depth as nat),
    {
        let ghost pre = es.take(i as int);
        let ghost post = es.take(i + 1);
        assert(post.drop_last() == pre);
        assert(post.last() == entries@[i as int]@);
        let e = &entries[i];
        match e.timestamp {
            Some(t) => match command_key(e, depth) {
                Some(key) => {
                    let newest = match last.get(key.as_str()) {
                        Some(p) => if *p > t {
                            *p
                        } else {
                            t
                        },
                        None => t,
                    };
                    let ghost before = last@;
                    last.insert(key, newest);
                    assert forall|k: Seq<char>| #[trigger] last@.contains_key(k) <==> latest(
                        post,
                        depth as nat,
                        k,
                    ) is Some by {
                        if k != key@ {
                            assert(before.contains_key(k) == last@.contains_key(k));
                        }
                    }
                },
                None => {},
            },
            None => {},
        }
    }
    assert(es.take(entries.len() as int) == es);
    proof {
        lemma_latest_map(last@, es, depth as nat);
    }
    last
}

} // verus!
