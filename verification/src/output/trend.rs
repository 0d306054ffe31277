//! Usage over time: per-bucket and per-hour counts and their charts.
use vstd::prelude::*;
use crate::aggregators::command_map::{CommandMap, pairs_view};
use crate::aggregators::command_ranker::{RankOrder, is_ranking, lemma_ranking, ranking, sorted_pairs};
use crate::date::{Bucket, bucket_key, bucket_text};
use crate::models::{EntryModel, HistoryEntry, entries_view};
use crate::numbers::{decimal, decimal_chars, push_decimal_padded, zero_pad};
use crate::output::table::{lemma_max_count, max_count};
use crate::output::{Align, bar, bar_len, bar_width, cells_view, render_table, repeated, rows_view, table_text, well_shaped};
use crate::text::string_of;

verus! {

/// How many timestamped entries fall in the bucket with key `k`.
pub open spec fn bucket_tally(es: Seq<EntryModel>, bucket: Bucket, k: Seq<char>) -> nat
    decreases es.len(),
{
    if es.len() == 0 {
        0
    } else {
        bucket_tally(es.drop_last(), bucket, k) + match es.last().timestamp {
            Some(t) => if bucket_text(t as nat, bucket) == k {
                1nat
            } else {
                0nat
            },
            None => 0nat,
        }
    }
}

pub proof fn lemma_bucket_tally_bound(es: Seq<EntryModel>, bucket: Bucket, k: Seq<char>)
    ensures
        bucket_tally(es, bucket, k) <= es.len(),
    decreases es.len(),
{
    if es.len() > 0 {
        lemma_bucket_tally_bound(es.drop_last(), bucket, k);
    }
}

/// The count of every bucket that holds a timestamped entry.
pub open spec fn trend_map(es: Seq<EntryModel>, bucket: Bucket) -> Map<Seq<char>, usize> {
    Map::new(
        |k: Seq<char>| bucket_tally(es, bucket, k) > 0,
        |k: Seq<char>| bucket_tally(es, bucket, k) as usize,
    )
}

/// Bucket timestamped entries by date and return (bucket_key, count) sorted by key.
pub fn compute_trend(entries: &[HistoryEntry], bucket: Bucket) -> (r: Vec<(String, usize)>)
    ensures
        is_ranking(pairs_view(r@), trend_map(entries_view(entries@), bucket), RankOrder::Name),
        pairs_view(r@) == ranking(trend_map(entries_view(entries@), bucket), RankOrder::Name),
{
    let ghost es = entries_view(entries@);
    let mut counts: CommandMap<usize> = CommandMap::new();
    for i in 0..entries.len()
        invariant
            es == entries_view(entries@),
            counts@ == trend_map(es.take(i as int), bucket),
    {
        let ghost pre = es.take(i as int);
        let ghost post = es.take(i + 1);
        assert(post.drop_last() == pre);
        assert(post.last() == entries@[i as int]@);
        match entries[i].timestamp {
            Some(ts) => {
                let key = bucket_key(ts, bucket);
                let old_count: usize = match counts.get(key.as_str()) {
                    Some(c) => *c,
                    None => 0,
                };
                proof {
                    lemma_bucket_tally_bound(pre, bucket, key@);
                }
                let ghost before = counts@;
                counts.insert(key, old_count + 1);
                assert(counts@ =~= trend_map(post, bucket)) by {
                    assert forall|k: Seq<char>| #[trigger] counts@.contains_key(k) implies counts@[k]
                        == trend_map(post, bucket)[k] by {
                        if k != key@ {
                            lemma_bucket_tally_bound(pre, bucket, k);
                        }
                    }
                }
            },
            None => {
                assert(counts@ =~= trend_map(post, bucket));
            },
        }
    }
    assert(es.take(entries.len() as int) == es);
    let r = sorted_pairs(counts, RankOrder::Name);
    proof {
        lemma_ranking(pairs_view(r@), trend_map(es, bucket), RankOrder::Name);
    }
    r
}

/// A chart row: label, count, and a bar scaled to the largest count.
pub open spec fn chart_row(p: (Seq<char>, usize), max: nat) -> Seq<Seq<char>> {
    seq![p.0, decimal(p.1 as nat), repeated('#', bar_width(p.1 as nat, max))]
}

/// A three-column chart (`label | Count | Bars`) of labelled counts, or
/// nothing when there are none.
pub open spec fn chart_text(label: Seq<char>, ps: Seq<(Seq<char>, usize)>) -> Seq<char> {
    if ps.len() == 0 {
        Seq::empty()
    } else {
        table_text(
            seq![label, "Count"@, "Bars"@],
            Seq::new(ps.len(), |i: int| chart_row(ps[i], max_count(ps))),
            seq![Align::Right, Align::Right, Align::Left],
        )
    }
}

/// Renders labelled counts as a chart.
fn render_chart(label: &str, ps: &[(String, usize)]) -> (r: String)
    ensures
        r@ == chart_text(label@, pairs_view(ps@)),
{
    let ghost pv = pairs_view(ps@);
    if ps.len() == 0 {
        return String::new();
    }
    let mut max_c: usize = 0;
    for i in 0..ps.len()
        invariant
            pv == pairs_view(ps@),
            max_c == max_count(pv.take(i as int)),
    {
        assert(pv.take(i + 1).drop_last() == pv.take(i as int));
        assert(pv.take(i + 1).last() == (ps@[i as int].0@, ps@[i as int].1));
        if ps[i].1 > max_c {
            max_c = ps[i].1;
        }
    }
    assert(pv.take(ps.len() as int) == pv);
    proof {
        lemma_max_count(pv);
    }
    let ghost rows_spec = Seq::new(pv.len(), |i: int| chart_row(pv[i], max_count(pv)));
    let mut rows: Vec<Vec<String>> = Vec::new();
    for i in 0..ps.len()
        invariant
            pv == pairs_view(ps@),
            max_c == max_count(pv),
            forall|j: int| 0 <= j < pv.len() ==> #[trigger] pv[j].1 <= max_count(pv),
            rows_spec == Seq::new(pv.len(), |i: int| chart_row(pv[i], max_count(pv))),
            rows@.len() == i,
            forall|j: int| 0 <= j < i ==> #[trigger] cells_view(rows@[j]@) == rows_spec[j],
    {
        assert(pv[i as int] == (ps@[i as int].0@, ps@[i as int].1));
        assert(pv[i as int].1 <= max_count(pv));
        let mut row: Vec<String> = Vec::new();
        row.push(ps[i].0.clone());
        let digits = decimal_chars(ps[i].1 as u64);
        row.push(string_of(digits.as_slice()));
        row.push(bar(bar_len(ps[i].1, max_c)));
        assert(cells_view(row@) =~= rows_spec[i as int]);
        rows.push(row);
    }
    assert(rows_view(rows@) =~= rows_spec);
    let mut headers: Vec<String> = Vec::new();
    headers.push(label.to_owned());
    headers.push("Count".to_owned());
    headers.push("Bars".to_owned());
    let mut aligns: Vec<Align> = Vec::new();
    aligns.push(Align::Right);
    aligns.push(Align::Right);
    aligns.push(Align::Left);
    assert(cells_view(headers@) =~= seq![label@, "Count"@, "Bars"@]);
    assert(aligns@ =~= seq![Align::Right, Align::Right, Align::Left]);
    assert(well_shaped(cells_view(headers@), aligns@));
    render_table(headers.as_slice(), rows.as_slice(), aligns.as_slice())
}

/// Format a trend table (Date | Count | Bars).
pub fn format_trend(entries: &[HistoryEntry], bucket: Bucket) -> (r: String)
    ensures
        r@ == chart_text("Date"@, ranking(trend_map(entries_view(entries@), bucket), RankOrder::Name)),
{
    let trend = compute_trend(entries, bucket);
    render_chart("Date", trend.as_slice())
}

/// The UTC hour of day of a timestamp.
pub open spec fn hour_of(ts: nat) -> nat {
    (ts / 3600) % 24
}

/// How many timestamped entries fall in hour `h` of the day.
pub open spec fn hour_count(es: Seq<EntryModel>, h: nat) -> nat
    decreases es.len(),
{
    if es.len() == 0 {
        0
    } else {
        hour_count(es.drop_last(), h) + match es.last().timestamp {
            Some(t) => if hour_of(t as nat) == h {
                1nat
            } else {
                0nat
            },
            None => 0nat,
        }
    }
}

pub proof fn lemma_hour_count_bound(es: Seq<EntryModel>, h: nat)
    ensures
        hour_count(es, h) <= es.len(),
    decreases es.len(),
{
    if es.len() > 0 {
        lemma_hour_count_bound(es.drop_last(), h);
    }
}

/// The hours below `n` that hold entries, in order, as two-digit labels with
/// their counts.
pub open spec fn hourly_rows(es: Seq<EntryModel>, n: nat) -> Seq<(Seq<char>, usize)>
    decreases n,
{
    if n == 0 {
        Seq::empty()
    } else {
        let h = (n - 1) as nat;
        hourly_rows(es, h) + if hour_count(es, h) > 0 {
            seq![(zero_pad(decimal(h), 2), hour_count(es, h) as usize)]
        } else {
            Seq::empty()
        }
    }
}

/// Hour-of-day distribution (0–23, UTC) of timestamped entries,
/// sorted by hour. Only hours with data appear.
pub fn compute_hourly(entries: &[HistoryEntry]) -> (r: Vec<(String, usize)>)
    ensures
        pairs_view(r@) == hourly_rows(entries_view(entries@), 24),
{
    let ghost es = entries_view(entries@);
    let mut counts: Vec<usize> = vec![0usize; 24];
    for i in 0..entries.len()
        invariant
            es == entries_view(entries@),
            counts@.len() == 24,
            forall|h: int| 0 <= h < 24 ==> #[trigger] counts@[h] == hour_count(es.take(i as int), h as nat),
    {
        let ghost pre = es.take(i as int);
        let ghost post = es.take(i + 1);
        assert(post.drop_last() == pre);
        assert(post.last() == entries@[i as int]@);
        if let Some(ts) = entries[i].timestamp {
            let h = ((ts / 3600) % 24) as usize;
            proof {
                lemma_hour_count_bound(pre, h as nat);
            }
            counts.set(h, counts[h] + 1);
        }
    }
    assert(es.take(entries.len() as int) == es);
    let mut out: Vec<(String, usize)> = Vec::new();
    for h in 0..24usize
        invariant
            es == entries_view(entries@),
            counts@.len() == 24,
            forall|g: int| 0 <= g < 24 ==> #[trigger] counts@[g] == hour_count(es, g as nat),
            pairs_view(out@) == hourly_rows(es, h as nat),
    {
        if counts[h] > 0 {
            let mut label: Vec<char> = Vec::new();
            push_decimal_padded(&mut label, h as u64, 2);
            assert(label@ == zero_pad(decimal(h as nat), 2));
            let ghost before = out@;
            out.push((string_of(label.as_slice()), counts[h]));
            assert(pairs_view(out@) =~= pairs_view(before) + seq![(zero_pad(decimal(h as nat), 2), counts[h as int])]);
        } else {
            assert(pairs_view(out@) =~= hourly_rows(es, h as nat) + Seq::empty());
        }
    }
    out
}

/// Format an hour-of-day distribution table (Hour | Count | Bars).
pub fn format_hourly(entries: &[HistoryEntry]) -> (r: String)
    ensures
        r@ == chart_text("Hour"@, hourly_rows(entries_view(entries@), 24)),
{
    let hourly = compute_hourly(entries);
    render_chart("Hour", hourly.as_slice())
}

} // verus!
