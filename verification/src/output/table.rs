//! The ranked-command table.
use vstd::prelude::*;
use crate::aggregators::command_map::{CommandMap, pairs_view};
use crate::date::{Bucket, bucket_key, bucket_text};
use crate::numbers::{decimal, decimal_chars};
use crate::binary64::{percent_text, push_percent};
use crate::output::stats::sum_counts;
use crate::output::{Align, bar, bar_len, bar_width, cells_view, render_table, repeated, rows_view, table_text, well_shaped};
use crate::text::{chars_of, string_of};

verus! {

/// Toggles for optional table columns.
#[derive(Clone, Copy)]
pub struct TableOptions<'a> {
    /// Show a percentage column (share of total count).
    pub percent: bool,
    /// Show an ASCII bar chart column scaled to the top entry.
    pub bars: bool,
    /// Show a "Last Used" date column from max-timestamp-per-command
    /// (see [`crate::last_used_at_depth`]). Untimestamped commands show `-`.
    pub last_used: Option<&'a CommandMap<u64>>,
}

impl<'a> Default for TableOptions<'a> {
    fn default() -> (r: Self)
        ensures
            !r.percent && !r.bars && r.last_used is None,
    {
        TableOptions { percent: false, bars: false, last_used: None }
    }
}

/// The largest count.
pub open spec fn max_count(ps: Seq<(Seq<char>, usize)>) -> nat
    decreases ps.len(),
{
    if ps.len() == 0 {
        0
    } else {
        let m = max_count(ps.drop_last());
        if ps.last().1 > m {
            ps.last().1 as nat
        } else {
            m
        }
    }
}

pub proof fn lemma_max_count(ps: Seq<(Seq<char>, usize)>)
    ensures
        forall|j: int| 0 <= j < ps.len() ==> #[trigger] ps[j].1 <= max_count(ps),
        max_count(ps) <= usize::MAX,
    decreases ps.len(),
{
    if ps.len() > 0 {
        lemma_max_count(ps.drop_last());
        assert forall|j: int| 0 <= j < ps.len() implies #[trigger] ps[j].1 <= max_count(ps) by {
            if j < ps.len() - 1 {
                assert(ps.drop_last()[j] == ps[j]);
            }
        }
    }
}

pub open spec fn opt_cell(b: bool, cell: Seq<char>) -> Seq<Seq<char>> {
    if b {
        seq![cell]
    } else {
        Seq::empty()
    }
}

pub open spec fn opt_align(b: bool, a: Align) -> Seq<Align> {
    if b {
        seq![a]
    } else {
        Seq::empty()
    }
}

/// The latest timestamps that a table's "Last Used" column shows, if it has one.
pub open spec fn last_view(last_used: Option<&CommandMap<u64>>) -> Option<Map<Seq<char>, u64>> {
    match last_used {
        Some(m) => Some(m@),
        None => None,
    }
}

/// The column headers: with a "Last Used", a "Pct" and a "Bars" column or not.
pub open spec fn table_headers(percent: bool, bars: bool, has_last: bool) -> Seq<Seq<char>> {
    seq!["Rank"@, "Command"@, "Count"@] + opt_cell(has_last, "Last Used"@) + opt_cell(
        percent,
        "Pct"@,
    ) + opt_cell(bars, "Bars"@)
}

/// The column alignments.
pub open spec fn table_aligns(percent: bool, bars: bool, has_last: bool) -> Seq<Align> {
    seq![Align::Right, Align::Left, Align::Right] + opt_align(has_last, Align::Right)
        + opt_align(percent, Align::Right) + opt_align(bars, Align::Left)
}

/// The last-used cell of a command: the day of its latest timestamp, or `-`.
pub open spec fn last_used_cell(m: Map<Seq<char>, u64>, cmd: Seq<char>) -> Seq<char> {
    if m.contains_key(cmd) {
        bucket_text(m[cmd] as nat, Bucket::Day)
    } else {
        seq!['-']
    }
}

/// The cells of the row for the `i`-th pair.
pub open spec fn table_row(
    i: int,
    p: (Seq<char>, usize),
    percent: bool,
    bars: bool,
    last: Option<Map<Seq<char>, u64>>,
    total: nat,
    max: nat,
) -> Seq<Seq<char>> {
    seq![decimal((i + 1) as nat), p.0, decimal(p.1 as nat)] + opt_cell(
        last is Some,
        last_used_cell(last->0, p.0),
    ) + opt_cell(percent, percent_text(p.1 as nat, total) + seq!['%']) + opt_cell(
        bars,
        repeated('#', bar_width(p.1 as nat, max)),
    )
}

/// The rows of the table.
pub open spec fn table_rows(
    ps: Seq<(Seq<char>, usize)>,
    percent: bool,
    bars: bool,
    last: Option<Map<Seq<char>, u64>>,
) -> Seq<Seq<Seq<char>>> {
    Seq::new(
        ps.len(),
        |i: int| table_row(i, ps[i], percent, bars, last, sum_counts(ps), max_count(ps)),
    )
}

/// The ranked table with the chosen columns, or nothing for an empty list.
pub open spec fn table_text_with(
    ps: Seq<(Seq<char>, usize)>,
    percent: bool,
    bars: bool,
    last: Option<Map<Seq<char>, u64>>,
) -> Seq<char> {
    if ps.len() == 0 {
        Seq::empty()
    } else {
        table_text(
            table_headers(percent, bars, last is Some),
            table_rows(ps, percent, bars, last),
            table_aligns(percent, bars, last is Some),
        )
    }
}

/// The ranked table for the options, or nothing for an empty list.
pub open spec fn ranked_table_text(ps: Seq<(Seq<char>, usize)>, opts: TableOptions) -> Seq<char> {
    table_text_with(ps, opts.percent, opts.bars, last_view(opts.last_used))
}

fn decimal_string(n: u64) -> (s: String)
    ensures
        s@ == decimal(n as nat),
{
    let v = decimal_chars(n);
    string_of(v.as_slice())
}

/// The cells of the row for the `i`-th command.
fn table_row_cells(i: usize, cmd: &String, count: usize, opts: &TableOptions, total: usize, max_c: usize) -> (row: Vec<String>)
    requires
        i < usize::MAX,
        count <= max_c,
    ensures
        cells_view(row@) == table_row(
            i as int,
            (cmd@, count),
            opts.percent,
            opts.bars,
            last_view(opts.last_used),
            total as nat,
            max_c as nat,
        ),
{
    let mut row: Vec<String> = Vec::new();
    row.push(decimal_string((i + 1) as u64));
    row.push(cmd.clone());
    row.push(decimal_string(count as u64));
    let ghost base = cells_view(row@);
    assert(base =~= seq![decimal((i + 1) as nat), cmd@, decimal(count as nat)]);
    if let Some(last) = opts.last_used {
        let cell = match last.get(cmd.as_str()) {
            Some(ts) => bucket_key(*ts, Bucket::Day),
            None => "-".to_owned(),
        };
        proof {
            reveal_strlit("-");
        }
        assert(cell@ == last_used_cell(last@, cmd@));
        row.push(cell);
    }
    let ghost with_last = cells_view(row@);
    assert(with_last =~= base + opt_cell(
        opts.last_used is Some,
        last_used_cell(last_view(opts.last_used)->0, cmd@),
    ));
    if opts.percent {
        let mut pct: Vec<char> = Vec::new();
        push_percent(&mut pct, count as u64, total as u64);
        pct.push('%');
        assert(pct@ == percent_text(count as nat, total as nat) + seq!['%']);
        row.push(string_of(pct.as_slice()));
    }
    let ghost with_pct = cells_view(row@);
    assert(with_pct =~= with_last + opt_cell(opts.percent, percent_text(count as nat, total as nat) + seq!['%']));
    if opts.bars {
        row.push(bar(bar_len(count, max_c)));
    }
    assert(cells_view(row@) =~= with_pct + opt_cell(opts.bars, repeated('#', bar_width(count as nat, max_c as nat))));
    row
}

/// Format ranked commands as an aligned text table. The percentage is the
/// `f64` value `count * 100 / total`, written with one decimal.
pub fn format_table(ranked: &[(String, usize)], opts: &TableOptions) -> (r: String)
    requires
        sum_counts(pairs_view(ranked@)) <= usize::MAX,
    ensures
        r@ == ranked_table_text(pairs_view(ranked@), *opts),
{
    let ghost ps = pairs_view(ranked@);
    if ranked.len() == 0 {
        return String::new();
    }
    let mut total: usize = 0;
    let mut max_c: usize = 0;
    for i in 0..ranked.len()
        invariant
            ps == pairs_view(ranked@),
            sum_counts(ps) <= usize::MAX,
            total == sum_counts(ps.take(i as int)),
            max_c == max_count(ps.take(i as int)),
    {
        assert(ps.take(i + 1).drop_last() == ps.take(i as int));
        assert(ps.take(i + 1).last() == (ranked@[i as int].0@, ranked@[i as int].1));
        proof {
            crate::output::stats::lemma_sum_prefix(ps, i + 1);
        }
        total = total + ranked[i].1;
        if ranked[i].1 > max_c {
            max_c = ranked[i].1;
        }
    }
    assert(ps.take(ranked.len() as int) == ps);
    proof {
        lemma_max_count(ps);
    }
    let mut headers: Vec<String> = Vec::new();
    let mut aligns: Vec<Align> = Vec::new();
    headers.push("Rank".to_owned());
    headers.push("Command".to_owned());
    headers.push("Count".to_owned());
    aligns.push(Align::Right);
    aligns.push(Align::Left);
    aligns.push(Align::Right);
    if opts.last_used.is_some() {
        headers.push("Last Used".to_owned());
        aligns.push(Align::Right);
    }
    if opts.percent {
        headers.push("Pct".to_owned());
        aligns.push(Align::Right);
    }
    if opts.bars {
        headers.push("Bars".to_owned());
        aligns.push(Align::Left);
    }
    assert(cells_view(headers@) =~= table_headers(opts.percent, opts.bars, opts.last_used is Some));
    assert(aligns@ =~= table_aligns(opts.percent, opts.bars, opts.last_used is Some));
    let ghost rows_spec = table_rows(ps, opts.percent, opts.bars, last_view(opts.last_used));
    let mut rows: Vec<Vec<String>> = Vec::new();
    for i in 0..ranked.len()
        invariant
            ps == pairs_view(ranked@),
            total == sum_counts(ps),
            max_c == max_count(ps),
            forall|j: int| 0 <= j < ps.len() ==> #[trigger] ps[j].1 <= max_count(ps),
            rows_spec == table_rows(ps, opts.percent, opts.bars, last_view(opts.last_used)),
            rows@.len() == i,
            forall|j: int| 0 <= j < i ==> #[trigger] cells_view(rows@[j]@) == rows_spec[j],
    {
        let cmd = &ranked[i].0;
        let count = ranked[i].1;
        assert(ps[i as int] == (cmd@, count));
        assert(ps[i as int].1 <= max_count(ps));
        let row = table_row_cells(i, cmd, count, opts, total, max_c);
        assert(cells_view(row@) =~= rows_spec[i as int]);
        rows.push(row);
    }
    assert(rows_view(rows@) =~= rows_spec);
    assert(well_shaped(cells_view(headers@), aligns@));
    render_table(headers.as_slice(), rows.as_slice(), aligns.as_slice())
}

} // verus!
