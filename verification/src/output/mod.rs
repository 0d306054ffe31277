//! Output formatting: tables, JSON, CSV, stats, and trend charts.
use vstd::prelude::*;
use crate::text::{push_str_chars, string_of};

pub mod csv;
pub mod json;
pub mod stats;
pub mod table;
pub mod trend;

pub use csv::format_csv;
pub use json::format_json;
pub use stats::{CountSummary, format_stats, summarize};
pub use table::{TableOptions, format_table};
pub use trend::{compute_hourly, compute_trend, format_hourly, format_trend};





verus! {

/// Column alignment for the shared table renderer.
#[derive(Clone, Copy)]
pub enum Align {
    Left,
    Right,
}

/// The text of each cell of a row.
pub open spec fn cells_view(row: Seq<String>) -> Seq<Seq<char>> {
    row.map_values(|s: String| s@)
}

/// The text of each cell of each row.
pub open spec fn rows_view(rows: Seq<Vec<String>>) -> Seq<Seq<Seq<char>>> {
    rows.map_values(|r: Vec<String>| cells_view(r@))
}

pub open spec fn max_nat(a: nat, b: nat) -> nat {
    if a >= b {
        a
    } else {
        b
    }
}

/// Cell `i` of a row, or the empty text where the row is shorter.
pub open spec fn cell_at(row: Seq<Seq<char>>, i: int) -> Seq<char> {
    if 0 <= i < row.len() {
        row[i]
    } else {
        Seq::empty()
    }
}

/// The width of column `i`: its longest cell, header included, in characters
/// (a row without cell `i` counts as empty there).
pub open spec fn column_width(headers: Seq<Seq<char>>, rows: Seq<Seq<Seq<char>>>, i: int) -> nat
    decreases rows.len(),
{
    if rows.len() == 0 {
        headers[i].len()
    } else {
        max_nat(column_width(headers, rows.drop_last(), i), cell_at(rows.last(), i).len())
    }
}

pub open spec fn repeated(c: char, n: nat) -> Seq<char> {
    Seq::new(n, |i: int| c)
}

/// A cell padded with spaces to a width, on the side its alignment leaves free.
pub open spec fn pad_cell(cell: Seq<char>, width: nat, align: Align) -> Seq<char> {
    let fill = if width > cell.len() {
        (width - cell.len()) as nat
    } else {
        0nat
    };
    match align {
        Align::Left => cell + repeated(' ', fill),
        Align::Right => repeated(' ', fill) + cell,
    }
}

/// The first `k` cells of a row, padded and separated by two spaces; cells
/// that the row lacks are empty.
pub open spec fn render_line(cells: Seq<Seq<char>>, widths: Seq<nat>, aligns: Seq<Align>, k: nat) -> Seq<
    char,
>
    decreases k,
{
    if k == 0 {
        Seq::empty()
    } else {
        render_line(cells, widths, aligns, (k - 1) as nat) + (if k > 1 {
            seq![' ', ' ']
        } else {
            Seq::empty()
        }) + pad_cell(cell_at(cells, k - 1), widths[k - 1], aligns[k - 1])
    }
}

/// The separator line: a run of `-` as wide as each of the first `k` columns.
pub open spec fn separator_line(widths: Seq<nat>, k: nat) -> Seq<char>
    decreases k,
{
    if k == 0 {
        Seq::empty()
    } else {
        separator_line(widths, (k - 1) as nat) + (if k > 1 {
            seq![' ', ' ']
        } else {
            Seq::empty()
        }) + repeated('-', widths[k - 1])
    }
}

/// Each row rendered as a line, one after another; cells beyond the
/// headers are left out.
pub open spec fn render_rows(rows: Seq<Seq<Seq<char>>>, widths: Seq<nat>, aligns: Seq<Align>, cols: nat) -> Seq<
    char,
>
    decreases rows.len(),
{
    if rows.len() == 0 {
        Seq::empty()
    } else {
        render_rows(rows.drop_last(), widths, aligns, cols) + render_line(
            rows.last(),
            widths,
            aligns,
            cols,
        ) + seq!['\n']
    }
}

/// The widths of all columns.
pub open spec fn column_widths(headers: Seq<Seq<char>>, rows: Seq<Seq<Seq<char>>>) -> Seq<nat> {
    Seq::new(headers.len(), |i: int| column_width(headers, rows, i))
}

/// An aligned text table: the header line, a separator line, then one line
/// per row, each ended by a newline.
pub open spec fn table_text(headers: Seq<Seq<char>>, rows: Seq<Seq<Seq<char>>>, aligns: Seq<Align>) -> Seq<
    char,
> {
    let widths = column_widths(headers, rows);
    let cols = headers.len();
    render_line(headers, widths, aligns, cols) + seq!['\n'] + separator_line(widths, cols) + seq!['\n']
        + render_rows(rows, widths, aligns, cols)
}

/// There is an alignment for each header (more are left unused).
pub open spec fn well_shaped(headers: Seq<Seq<char>>, aligns: Seq<Align>) -> bool {
    aligns.len() >= headers.len()
}

/// The width of a line of the first `k` columns: their widths and two
/// spaces between neighbours.
pub open spec fn line_width(widths: Seq<nat>, k: nat) -> nat
    decreases k,
{
    if k == 0 {
        0
    } else {
        line_width(widths, (k - 1) as nat) + (if k > 1 {
            2nat
        } else {
            0nat
        }) + widths[k - 1]
    }
}

proof fn lemma_render_line_len(cells: Seq<Seq<char>>, widths: Seq<nat>, aligns: Seq<Align>, k: nat)
    requires
        k <= widths.len(),
        k <= aligns.len(),
        forall|i: int| 0 <= i < k ==> cell_at(cells, i).len() <= #[trigger] widths[i],
    ensures
        render_line(cells, widths, aligns, k).len() == line_width(widths, k),
    decreases k,
{
    if k > 0 {
        lemma_render_line_len(cells, widths, aligns, (k - 1) as nat);
        let c = cell_at(cells, k - 1);
        assert(c.len() <= widths[k - 1]);
        assert(pad_cell(c, widths[k - 1], aligns[k - 1]).len() == widths[k - 1]);
    }
}

proof fn lemma_separator_len(widths: Seq<nat>, k: nat)
    requires
        k <= widths.len(),
    ensures
        separator_line(widths, k).len() == line_width(widths, k),
    decreases k,
{
    if k > 0 {
        lemma_separator_len(widths, (k - 1) as nat);
    }
}

proof fn lemma_column_width_bounds(headers: Seq<Seq<char>>, rows: Seq<Seq<Seq<char>>>, i: int)
    ensures
        headers[i].len() <= column_width(headers, rows, i),
        forall|r: int| 0 <= r < rows.len() ==> cell_at(#[trigger] rows[r], i).len() <= column_width(
            headers,
            rows,
            i,
        ),
    decreases rows.len(),
{
    if rows.len() > 0 {
        lemma_column_width_bounds(headers, rows.drop_last(), i);
        assert forall|r: int| 0 <= r < rows.len() implies cell_at(#[trigger] rows[r], i).len()
            <= column_width(headers, rows, i) by {
            if r < rows.len() - 1 {
                assert(rows[r] == rows.drop_last()[r]);
            }
        }
    }
}

/// Every line of a rendered table is equally wide: the header line, the
/// separator and each row line are as wide as the columns together, with two
/// spaces between neighbours.
pub proof fn lemma_table_lines_aligned(
    headers: Seq<Seq<char>>,
    rows: Seq<Seq<Seq<char>>>,
    aligns: Seq<Align>,
)
    requires
        well_shaped(headers, aligns),
    ensures
        render_line(headers, column_widths(headers, rows), aligns, headers.len()).len()
            == line_width(column_widths(headers, rows), headers.len()),
        separator_line(column_widths(headers, rows), headers.len()).len() == line_width(
            column_widths(headers, rows),
            headers.len(),
        ),
        forall|r: int|
            0 <= r < rows.len() ==> render_line(
                #[trigger] rows[r],
                column_widths(headers, rows),
                aligns,
                headers.len(),
            ).len() == line_width(column_widths(headers, rows), headers.len()),
{
    let w = column_widths(headers, rows);
    let n = headers.len();
    assert forall|i: int| 0 <= i < n implies cell_at(headers, i).len() <= #[trigger] w[i] by {
        lemma_column_width_bounds(headers, rows, i);
    }
    lemma_render_line_len(headers, w, aligns, n);
    lemma_separator_len(w, n);
    assert forall|r: int| 0 <= r < rows.len() implies render_line(
        #[trigger] rows[r],
        w,
        aligns,
        n,
    ).len() == line_width(w, n) by {
        assert forall|i: int| 0 <= i < n implies cell_at(rows[r], i).len() <= #[trigger] w[i] by {
            lemma_column_width_bounds(headers, rows, i);
        }
        lemma_render_line_len(rows[r], w, aligns, n);
    }
}

/// How many line breaks a text holds.
pub open spec fn line_breaks(s: Seq<char>) -> nat
    decreases s.len(),
{
    if s.len() == 0 {
        0
    } else {
        line_breaks(s.drop_last()) + (if s.last() == '\n' {
            1nat
        } else {
            0nat
        })
    }
}

proof fn lemma_line_breaks_add(a: Seq<char>, b: Seq<char>)
    ensures
        line_breaks(a + b) == line_breaks(a) + line_breaks(b),
    decreases b.len(),
{
    if b.len() == 0 {
        assert(a + b =~= a);
    } else {
        lemma_line_breaks_add(a, b.drop_last());
        assert((a + b).drop_last() =~= a + b.drop_last());
        assert((a + b).last() == b.last());
    }
}

proof fn lemma_one_break()
    ensures
        line_breaks(seq!['\n']) == 1,
{
    let s = seq!['\n'];
    assert(s.drop_last() =~= Seq::<char>::empty());
    assert(line_breaks(s.drop_last()) == 0);
    assert(s.last() == '\n');
}

proof fn lemma_no_line_breaks(s: Seq<char>)
    requires
        !s.contains('\n'),
    ensures
        line_breaks(s) == 0,
    decreases s.len(),
{
    if s.len() > 0 {
        assert(s.last() == s[s.len() - 1]);
        assert(!s.drop_last().contains('\n')) by {
            if s.drop_last().contains('\n') {
                let j = choose|j: int| 0 <= j < s.drop_last().len() && s.drop_last()[j] == '\n';
                assert(s[j] == '\n');
            }
        }
        lemma_no_line_breaks(s.drop_last());
    }
}

proof fn lemma_line_has_no_breaks(cells: Seq<Seq<char>>, widths: Seq<nat>, aligns: Seq<Align>, k: nat)
    requires
        k <= widths.len(),
        k <= aligns.len(),
        forall|i: int| 0 <= i < k ==> !(#[trigger] cell_at(cells, i)).contains('\n'),
    ensures
        line_breaks(render_line(cells, widths, aligns, k)) == 0,
    decreases k,
{
    if k > 0 {
        lemma_line_has_no_breaks(cells, widths, aligns, (k - 1) as nat);
        let c = cell_at(cells, k - 1);
        let sep = if k > 1 {
            seq![' ', ' ']
        } else {
            Seq::<char>::empty()
        };
        let padded = pad_cell(c, widths[k - 1], aligns[k - 1]);
        assert(!c.contains('\n'));
        assert(!padded.contains('\n')) by {
            if padded.contains('\n') {
                let j = choose|j: int| 0 <= j < padded.len() && padded[j] == '\n';
                let fill = if widths[k - 1] > c.len() {
                    (widths[k - 1] - c.len()) as nat
                } else {
                    0nat
                };
                match aligns[k - 1] {
                    Align::Left => {
                        if j < c.len() {
                            assert(c[j] == '\n');
                        }
                    },
                    Align::Right => {
                        if j >= fill {
                            assert(c[j - fill] == '\n');
                        }
                    },
                }
            }
        }
        assert(!sep.contains('\n'));
        lemma_no_line_breaks(padded);
        lemma_no_line_breaks(sep);
        let prev = render_line(cells, widths, aligns, (k - 1) as nat);
        lemma_line_breaks_add(prev, sep);
        lemma_line_breaks_add(prev + sep, padded);
    }
}

proof fn lemma_separator_has_no_breaks(widths: Seq<nat>, k: nat)
    requires
        k <= widths.len(),
    ensures
        line_breaks(separator_line(widths, k)) == 0,
    decreases k,
{
    if k > 0 {
        lemma_separator_has_no_breaks(widths, (k - 1) as nat);
        let sep = if k > 1 {
            seq![' ', ' ']
        } else {
            Seq::<char>::empty()
        };
        let dashes = repeated('-', widths[k - 1]);
        assert(!sep.contains('\n'));
        assert(!dashes.contains('\n'));
        lemma_no_line_breaks(sep);
        lemma_no_line_breaks(dashes);
        let prev = separator_line(widths, (k - 1) as nat);
        lemma_line_breaks_add(prev, sep);
        lemma_line_breaks_add(prev + sep, dashes);
    }
}

proof fn lemma_rows_breaks(rows: Seq<Seq<Seq<char>>>, widths: Seq<nat>, aligns: Seq<Align>, cols: nat)
    requires
        cols <= widths.len(),
        cols <= aligns.len(),
        forall|r: int, i: int|
            0 <= r < rows.len() && 0 <= i < cols ==> !(#[trigger] cell_at(rows[r], i)).contains('\n'),
    ensures
        line_breaks(render_rows(rows, widths, aligns, cols)) == rows.len(),
    decreases rows.len(),
{
    if rows.len() > 0 {
        let dl = rows.drop_last();
        assert forall|r: int, i: int| 0 <= r < dl.len() && 0 <= i < cols implies !(
        #[trigger] cell_at(dl[r], i)).contains('\n') by {
            assert(dl[r] == rows[r]);
        }
        lemma_rows_breaks(dl, widths, aligns, cols);
        assert forall|i: int| 0 <= i < cols implies !(#[trigger] cell_at(rows.last(), i)).contains(
            '\n',
        ) by {
            assert(cell_at(rows[rows.len() - 1], i) == cell_at(rows.last(), i));
        }
        lemma_line_has_no_breaks(rows.last(), widths, aligns, cols);
        let prev = render_rows(dl, widths, aligns, cols);
        let line = render_line(rows.last(), widths, aligns, cols);
        lemma_line_breaks_add(prev, line);
        lemma_line_breaks_add(prev + line, seq!['\n']);
        lemma_one_break();
    }
}

/// A rendered table has one line per row and two more, the header and the
/// separator, where no cell holds a line break.
pub proof fn lemma_table_line_count(
    headers: Seq<Seq<char>>,
    rows: Seq<Seq<Seq<char>>>,
    aligns: Seq<Align>,
)
    requires
        well_shaped(headers, aligns),
        forall|i: int| 0 <= i < headers.len() ==> !(#[trigger] headers[i]).contains('\n'),
        forall|r: int, i: int|
            0 <= r < rows.len() && 0 <= i < headers.len() ==> !(#[trigger] cell_at(
                rows[r],
                i,
            )).contains('\n'),
    ensures
        line_breaks(table_text(headers, rows, aligns)) == rows.len() + 2,
        table_text(headers, rows, aligns).last() == '\n',
{
    let w = column_widths(headers, rows);
    let n = headers.len();
    assert forall|i: int| 0 <= i < n implies !(#[trigger] cell_at(headers, i)).contains('\n') by {
        assert(cell_at(headers, i) == headers[i]);
    }
    lemma_line_has_no_breaks(headers, w, aligns, n);
    lemma_separator_has_no_breaks(w, n);
    lemma_rows_breaks(rows, w, aligns, n);
    let nl = seq!['\n'];
    lemma_one_break();
    let a = render_line(headers, w, aligns, n);
    let b = separator_line(w, n);
    let c = render_rows(rows, w, aligns, n);
    lemma_line_breaks_add(a, nl);
    lemma_line_breaks_add(a + nl, b);
    lemma_line_breaks_add(a + nl + b, nl);
    lemma_line_breaks_add(a + nl + b + nl, c);
    if rows.len() > 0 {
        assert(c == render_rows(rows.drop_last(), w, aligns, n) + render_line(rows.last(), w, aligns, n)
            + seq!['\n']);
        assert(c.last() == '\n');
    } else {
        assert(c.len() == 0);
        assert(a + nl + b + nl + c =~= a + nl + b + nl);
    }
}

fn push_repeated(out: &mut Vec<char>, c: char, n: usize)
    ensures
        final(out)@ == old(out)@ + repeated(c, n as nat),
{
    for i in 0..n
        invariant
            out@ == old(out)@ + repeated(c, i as nat),
    {
        out.push(c);
        assert(repeated(c, (i + 1) as nat) == repeated(c, i as nat).push(c));
    }
}

fn push_padded(out: &mut Vec<char>, cell: &str, width: usize, align: Align)
    ensures
        final(out)@ == old(out)@ + pad_cell(cell@, width as nat, align),
{
    let len = cell.unicode_len();
    let fill = if width > len {
        width - len
    } else {
        0
    };
    match align {
        Align::Left => {
            push_str_chars(out, cell);
            push_repeated(out, ' ', fill);
        },
        Align::Right => {
            push_repeated(out, ' ', fill);
            push_str_chars(out, cell);
        },
    }
}

fn push_line(out: &mut Vec<char>, cells: &[String], widths: &[usize], aligns: &[Align])
    requires
        aligns.len() >= widths.len(),
    ensures
        final(out)@ == old(out)@ + render_line(
            cells_view(cells@),
            widths@.map_values(|w: usize| w as nat),
            aligns@,
            widths.len() as nat,
        ),
{
    let ghost cv = cells_view(cells@);
    let ghost wv = widths@.map_values(|w: usize| w as nat);
    proof {
        reveal_strlit("");
    }
    for i in 0..widths.len()
        invariant
            aligns.len() >= widths.len(),
            cv == cells_view(cells@),
            wv == widths@.map_values(|w: usize| w as nat),
            out@ == old(out)@ + render_line(cv, wv, aligns@, i as nat),
    {
        if i > 0 {
            out.push(' ');
            out.push(' ');
        }
        let cell: &str = if i < cells.len() {
            cells[i].as_str()
        } else {
            ""
        };
        proof {
            reveal_strlit("");
        }
        assert(cell@ == cell_at(cv, i as int));
        push_padded(out, cell, widths[i], aligns[i]);
        assert(wv[i as int] == widths@[i as int] as nat);
    }
}

fn push_separator(out: &mut Vec<char>, widths: &[usize])
    ensures
        final(out)@ == old(out)@ + separator_line(
            widths@.map_values(|w: usize| w as nat),
            widths.len() as nat,
        ),
{
    let ghost wv = widths@.map_values(|w: usize| w as nat);
    for i in 0..widths.len()
        invariant
            wv == widths@.map_values(|w: usize| w as nat),
            out@ == old(out)@ + separator_line(wv, i as nat),
    {
        if i > 0 {
            out.push(' ');
            out.push(' ');
        }
        push_repeated(out, '-', widths[i]);
    }
}

/// Render headers + rows into an aligned, column-padded text table. A row
/// with fewer cells than headers shows the missing ones empty; cells beyond
/// the headers, and alignments beyond them, are not used.
pub(crate) fn render_table(headers: &[String], rows: &[Vec<String>], aligns: &[Align]) -> (r: String)
    requires
        well_shaped(cells_view(headers@), aligns@),
    ensures
        r@ == table_text(cells_view(headers@), rows_view(rows@), aligns@),
{
    let ghost hv = cells_view(headers@);
    let ghost rv = rows_view(rows@);
    let cols = headers.len();
    let mut widths: Vec<usize> = Vec::new();
    for i in 0..cols
        invariant
            cols == headers.len(),
            hv == cells_view(headers@),
            rv == rows_view(rows@),
            widths@.len() == i,
            forall|t: int| 0 <= t < i ==> #[trigger] widths@[t] as nat == column_width(hv, rv, t),
    {
        let mut w: usize = headers[i].as_str().unicode_len();
        for j in 0..rows.len()
            invariant
                i < cols == headers.len(),
                hv == cells_view(headers@),
                rv == rows_view(rows@),
                w as nat == column_width(hv, rv.take(j as int), i as int),
        {
            assert(rv.take(j + 1).drop_last() == rv.take(j as int));
            assert(rv[j as int] == cells_view(rows@[j as int]@));
            assert(rv.take(j + 1).last() == rv[j as int]);
            if i < rows[j].len() {
                let len = rows[j][i].as_str().unicode_len();
                assert(cell_at(rv[j as int], i as int) == rows@[j as int]@[i as int]@);
                if len > w {
                    w = len;
                }
            }
        }
        assert(rv.take(rows.len() as int) == rv);
        widths.push(w);
    }
    let ghost wv = widths@.map_values(|w: usize| w as nat);
    assert(wv =~= column_widths(hv, rv));
    let mut out: Vec<char> = Vec::new();
    push_line(&mut out, headers, widths.as_slice(), aligns);
    out.push('\n');
    push_separator(&mut out, widths.as_slice());
    out.push('\n');
    let ghost head = out@;
    for j in 0..rows.len()
        invariant
            cols == headers.len() == widths@.len(),
            aligns.len() >= cols,
            hv == cells_view(headers@),
            rv == rows_view(rows@),
            wv == widths@.map_values(|w: usize| w as nat),
            out@ == head + render_rows(rv.take(j as int), wv, aligns@, cols as nat),
    {
        assert(rv.take(j + 1).drop_last() == rv.take(j as int));
        assert(rv.take(j + 1).last() == cells_view(rows@[j as int]@));
        push_line(&mut out, rows[j].as_slice(), widths.as_slice(), aligns);
        out.push('\n');
    }
    assert(rv.take(rows.len() as int) == rv);
    string_of(out.as_slice())
}

/// The bar length for a count: 30 marks for the largest count, the others
/// in proportion, rounded down.
pub open spec fn bar_width(count: nat, max: nat) -> nat {
    if max == 0 {
        0
    } else {
        count * 30 / max
    }
}

/// Length of the ASCII bar for `count` when `max` gets the full 30 marks.
pub fn bar_len(count: usize, max: usize) -> (n: usize)
    requires
        count <= max,
    ensures
        n == bar_width(count as nat, max as nat),
        n <= 30,
{
    if max == 0 {
        0
    } else {
        let n = (count as u128 * 30) / (max as u128);
        assert(n <= 30) by (nonlinear_arith)
            requires
                n == (count * 30) / (max as int),
                count <= max,
                max > 0,
        ;
        n as usize
    }
}

/// A bar of `n` `#` marks.
pub fn bar(n: usize) -> (s: String)
    ensures
        s@ == repeated('#', n as nat),
{
    let mut out: Vec<char> = Vec::new();
    push_repeated(&mut out, '#', n);
    assert(out@ == Seq::<char>::empty() + repeated('#', n as nat));
    string_of(out.as_slice())
}

} // verus!
