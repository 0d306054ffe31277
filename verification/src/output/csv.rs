//! CSV output (RFC 4180 quoting).
use vstd::prelude::*;
use crate::aggregators::command_map::pairs_view;
use crate::numbers::{
    decimal, is_digit, lemma_decimal_digits, lemma_decimal_reads_back, push_decimal, usize_of_text,
};
use crate::text::{chars_of, push_str_chars, string_of};

verus! {

/// A field that must be quoted: it holds a comma, a quote or a line break.
pub open spec fn csv_needs_quotes(s: Seq<char>) -> bool {
    s.contains(',') || s.contains('"') || s.contains('\n') || s.contains('\r')
}

/// The text with each `"` doubled.
pub open spec fn double_quotes(s: Seq<char>) -> Seq<char>
    decreases s.len(),
{
    if s.len() == 0 {
        s
    } else {
        double_quotes(s.drop_last()) + if s.last() == '"' {
            seq!['"', '"']
        } else {
            seq![s.last()]
        }
    }
}

/// A CSV field: quoted, with quotes doubled, when it needs quoting.
pub open spec fn csv_field_text(s: Seq<char>) -> Seq<char> {
    if csv_needs_quotes(s) {
        seq!['"'] + double_quotes(s) + seq!['"']
    } else {
        s
    }
}

/// One `command,count` line per pair.
pub open spec fn csv_rows(ps: Seq<(Seq<char>, usize)>) -> Seq<char>
    decreases ps.len(),
{
    if ps.len() == 0 {
        Seq::empty()
    } else {
        csv_rows(ps.drop_last()) + csv_field_text(ps.last().0) + seq![','] + decimal(
            ps.last().1 as nat,
        ) + seq!['\n']
    }
}

/// The CSV document: a `command,count` header, then the rows.
pub open spec fn csv_text(ps: Seq<(Seq<char>, usize)>) -> Seq<char> {
    "command,count\n"@ + csv_rows(ps)
}

/// Appends a CSV field.
fn push_csv_field(out: &mut Vec<char>, s: &str)
    ensures
        final(out)@ == old(out)@ + csv_field_text(s@),
{
    let cs = chars_of(s);
    let mut needs = false;
    for i in 0..cs.len()
        invariant
            cs@ == s@,
            needs == exists|j: int|
                0 <= j < i && (cs@[j] == ',' || cs@[j] == '"' || cs@[j] == '\n' || cs@[j] == '\r'),
    {
        let c = cs[i];
        if c == ',' || c == '"' || c == '\n' || c == '\r' {
            needs = true;
        }
    }
    proof {
        if s@.contains(',') {
            let j = choose|j: int| 0 <= j < s@.len() && s@[j] == ',';
            assert(cs@[j] == ',');
        }
        if s@.contains('"') {
            let j = choose|j: int| 0 <= j < s@.len() && s@[j] == '"';
            assert(cs@[j] == '"');
        }
        if s@.contains('\n') {
            let j = choose|j: int| 0 <= j < s@.len() && s@[j] == '\n';
            assert(cs@[j] == '\n');
        }
        if s@.contains('\r') {
            let j = choose|j: int| 0 <= j < s@.len() && s@[j] == '\r';
            assert(cs@[j] == '\r');
        }
        if needs {
            let j = choose|j: int|
                0 <= j < cs@.len() && (cs@[j] == ',' || cs@[j] == '"' || cs@[j] == '\n' || cs@[j]
                    == '\r');
            assert(s@.contains(cs@[j]));
        }
    }
    if !needs {
        crate::text::push_chars(out, cs.as_slice());
        return;
    }
    out.push('"');
    let ghost start = out@;
    for i in 0..cs.len()
        invariant
            cs@ == s@,
            out@ == start + double_quotes(cs@.take(i as int)),
    {
        assert(cs@.take(i + 1).drop_last() == cs@.take(i as int));
        if cs[i] == '"' {
            out.push('"');
            out.push('"');
        } else {
            out.push(cs[i]);
        }
    }
    assert(cs@.take(cs.len() as int) == cs@);
    out.push('"');
}

/// Format ranked commands as CSV (RFC 4180 quoting).
pub fn format_csv(ranked: &[(String, usize)]) -> (r: String)
    ensures
        r@ == csv_text(pairs_view(ranked@)),
{
    let ghost ps = pairs_view(ranked@);
    let mut out: Vec<char> = Vec::new();
    push_str_chars(&mut out, "command,count\n");
    let ghost head = out@;
    for i in 0..ranked.len()
        invariant
            ps == pairs_view(ranked@),
            out@ == head + csv_rows(ps.take(i as int)),
    {
        assert(ps.take(i + 1).drop_last() == ps.take(i as int));
        assert(ps.take(i + 1).last() == (ranked@[i as int].0@, ranked@[i as int].1));
        push_csv_field(&mut out, ranked[i].0.as_str());
        out.push(',');
        push_decimal(&mut out, ranked[i].1 as u64);
        out.push('\n');
    }
    assert(ps.take(ranked.len() as int) == ps);
    assert(out@ == Seq::<char>::empty() + "command,count\n"@ + csv_rows(ps));
    string_of(out.as_slice())
}

// ---------------------------------------------------------------------------
// Reading CSV back
// ---------------------------------------------------------------------------
/// Reads the rest of a quoted field, from just after its opening quote: the
/// text it holds (each `""` read as `"`) and what follows its closing quote.
pub open spec fn read_quoted(t: Seq<char>) -> Option<(Seq<char>, Seq<char>)>
    decreases t.len(),
{
    if t.len() == 0 {
        None
    } else if t[0] == '"' {
        if t.len() >= 2 && t[1] == '"' {
            match read_quoted(t.skip(2)) {
                Some((s, r)) => Some((seq!['"'] + s, r)),
                None => None,
            }
        } else {
            Some((Seq::empty(), t.drop_first()))
        }
    } else {
        match read_quoted(t.drop_first()) {
            Some((s, r)) => Some((seq![t[0]] + s, r)),
            None => None,
        }
    }
}

/// Reads an unquoted field: everything up to the first comma or line break.
pub open spec fn read_plain(t: Seq<char>) -> (Seq<char>, Seq<char>)
    decreases t.len(),
{
    if t.len() == 0 || t[0] == ',' || t[0] == '\n' || t[0] == '\r' {
        (Seq::empty(), t)
    } else {
        let (s, r) = read_plain(t.drop_first());
        (seq![t[0]] + s, r)
    }
}

/// Reads one CSV field (RFC 4180): the text it holds and what follows it.
pub open spec fn read_csv_field(t: Seq<char>) -> Option<(Seq<char>, Seq<char>)> {
    if t.len() > 0 && t[0] == '"' {
        read_quoted(t.drop_first())
    } else {
        Some(read_plain(t))
    }
}

/// A field ends here: at the end of the text, a comma or a line break.
pub open spec fn field_end(rest: Seq<char>) -> bool {
    rest.len() == 0 || rest[0] == ',' || rest[0] == '\n'
}

proof fn lemma_double_front(c: char, s: Seq<char>)
    ensures
        double_quotes(seq![c] + s) == (if c == '"' {
            seq!['"', '"']
        } else {
            seq![c]
        }) + double_quotes(s),
    decreases s.len(),
{
    let cs = seq![c] + s;
    let d = if c == '"' {
        seq!['"', '"']
    } else {
        seq![c]
    };
    if s.len() == 0 {
        assert(cs.drop_last() =~= Seq::<char>::empty());
        assert(cs.last() == c);
        assert(double_quotes(cs) == double_quotes(cs.drop_last()) + d);
        assert(Seq::<char>::empty() + d =~= d);
        assert(d + double_quotes(s) =~= d);
    } else {
        lemma_double_front(c, s.drop_last());
        assert(cs.drop_last() =~= seq![c] + s.drop_last());
        assert(cs.last() == s.last());
        let e = if s.last() == '"' {
            seq!['"', '"']
        } else {
            seq![s.last()]
        };
        assert(double_quotes(cs) == double_quotes(cs.drop_last()) + e);
        assert(double_quotes(s) == double_quotes(s.drop_last()) + e);
        assert(d + double_quotes(s.drop_last()) + e =~= d + double_quotes(s));
    }
}

proof fn lemma_quoted_round_trip(s: Seq<char>, rest: Seq<char>)
    requires
        field_end(rest),
    ensures
        read_quoted(double_quotes(s) + seq!['"'] + rest) == Some((s, rest)),
    decreases s.len(),
{
    if s.len() == 0 {
        let t = double_quotes(s) + seq!['"'] + rest;
        assert(t =~= seq!['"'] + rest);
        assert(t.drop_first() =~= rest);
    } else {
        let c = s[0];
        let tail = s.drop_first();
        assert(s =~= seq![c] + tail);
        lemma_double_front(c, tail);
        lemma_quoted_round_trip(tail, rest);
        let after = double_quotes(tail) + seq!['"'] + rest;
        let t = double_quotes(s) + seq!['"'] + rest;
        if c == '"' {
            assert(t =~= seq!['"', '"'] + after);
            assert(t.skip(2) =~= after);
        } else {
            assert(t =~= seq![c] + after);
            assert(t.drop_first() =~= after);
        }
    }
}

proof fn lemma_plain_round_trip(s: Seq<char>, rest: Seq<char>)
    requires
        field_end(rest),
        !csv_needs_quotes(s),
    ensures
        read_plain(s + rest) == (s, rest),
    decreases s.len(),
{
    let t = s + rest;
    if s.len() == 0 {
        assert(t =~= rest);
    } else {
        assert(t[0] == s[0]);
        assert(s.contains(s[0]));
        assert(s.drop_first().len() < s.len());
        assert(!csv_needs_quotes(s.drop_first())) by {
            if s.drop_first().contains(',') {
                let j = choose|j: int| 0 <= j < s.drop_first().len() && s.drop_first()[j] == ',';
                assert(s[j + 1] == ',');
            }
            if s.drop_first().contains('"') {
                let j = choose|j: int| 0 <= j < s.drop_first().len() && s.drop_first()[j] == '"';
                assert(s[j + 1] == '"');
            }
            if s.drop_first().contains('\n') {
                let j = choose|j: int| 0 <= j < s.drop_first().len() && s.drop_first()[j] == '\n';
                assert(s[j + 1] == '\n');
            }
            if s.drop_first().contains('\r') {
                let j = choose|j: int| 0 <= j < s.drop_first().len() && s.drop_first()[j] == '\r';
                assert(s[j + 1] == '\r');
            }
        }
        lemma_plain_round_trip(s.drop_first(), rest);
        assert(t.drop_first() =~= s.drop_first() + rest);
        assert(seq![s[0]] + s.drop_first() =~= s);
    }
}

/// What `format_csv` writes for a name reads back as that name, under the
/// quoting rules of RFC 4180, wherever the field is followed by a comma, a
/// line break or the end of the text.
pub proof fn lemma_csv_field_round_trip(s: Seq<char>, rest: Seq<char>)
    requires
        field_end(rest),
    ensures
        read_csv_field(csv_field_text(s) + rest) == Some((s, rest)),
{
    if csv_needs_quotes(s) {
        lemma_quoted_round_trip(s, rest);
        let t = csv_field_text(s) + rest;
        assert(t =~= seq!['"'] + (double_quotes(s) + seq!['"'] + rest));
        assert(t.drop_first() =~= double_quotes(s) + seq!['"'] + rest);
    } else {
        lemma_plain_round_trip(s, rest);
        if s.len() > 0 {
            assert(s.contains(s[0]));
            assert((s + rest)[0] == s[0]);
        } else {
            assert(s + rest =~= rest);
        }
    }
}

/// Reading a quoted field consumes at least its closing quote.
pub proof fn lemma_quoted_rest_shorter(t: Seq<char>)
    ensures
        read_quoted(t) matches Some((_, r)) ==> r.len() < t.len(),
    decreases t.len(),
{
    if t.len() > 0 {
        if t[0] == '"' {
            if t.len() >= 2 && t[1] == '"' {
                lemma_quoted_rest_shorter(t.skip(2));
            }
        } else {
            lemma_quoted_rest_shorter(t.drop_first());
        }
    }
}

/// Reading an unquoted field never lengthens the text.
pub proof fn lemma_plain_rest_shorter(t: Seq<char>)
    ensures
        read_plain(t).1.len() <= t.len(),
    decreases t.len(),
{
    if !(t.len() == 0 || t[0] == ',' || t[0] == '\n' || t[0] == '\r') {
        lemma_plain_rest_shorter(t.drop_first());
    }
}

/// What follows a field is no longer than the text it was read from.
pub proof fn lemma_field_rest_shorter(t: Seq<char>)
    ensures
        read_csv_field(t) matches Some((_, r)) ==> r.len() <= t.len(),
{
    if t.len() > 0 && t[0] == '"' {
        lemma_quoted_rest_shorter(t.drop_first());
    } else {
        lemma_plain_rest_shorter(t);
    }
}

/// Reads one CSV record, fields separated by commas and ended by a line
/// break: its fields and what follows the line break.
pub open spec fn read_csv_record(t: Seq<char>) -> Option<(Seq<Seq<char>>, Seq<char>)>
    decreases t.len(),
{
    match read_csv_field(t) {
        Some((f, r)) => if r.len() > 0 && r[0] == '\n' {
            Some((seq![f], r.drop_first()))
        } else if r.len() > 0 && r[0] == ',' {
            proof {
                lemma_field_rest_shorter(t);
            }
            match read_csv_record(r.drop_first()) {
                Some((fs, r2)) => Some((seq![f] + fs, r2)),
                None => None,
            }
        } else {
            None
        },
        None => None,
    }
}

/// Reading a record consumes at least its line break.
pub proof fn lemma_record_rest_shorter(t: Seq<char>)
    ensures
        read_csv_record(t) matches Some((_, r)) ==> r.len() < t.len(),
    decreases t.len(),
{
    lemma_field_rest_shorter(t);
    if let Some((f, r)) = read_csv_field(t) {
        if r.len() > 0 && r[0] == ',' {
            lemma_record_rest_shorter(r.drop_first());
        }
    }
}

/// Reads a CSV document as its records, each ended by a line break.
pub open spec fn read_csv_records(t: Seq<char>) -> Option<Seq<Seq<Seq<char>>>>
    decreases t.len(),
{
    if t.len() == 0 {
        Some(Seq::empty())
    } else {
        match read_csv_record(t) {
            Some((rec, r)) => {
                proof {
                    lemma_record_rest_shorter(t);
                }
                match read_csv_records(r) {
                    Some(rs) => Some(seq![rec] + rs),
                    None => None,
                }
            },
            None => None,
        }
    }
}

/// One line of the CSV document.
pub open spec fn csv_row(p: (Seq<char>, usize)) -> Seq<char> {
    csv_field_text(p.0) + seq![','] + decimal(p.1 as nat) + seq!['\n']
}

/// The records that the CSV document of the pairs holds: the header, then one
/// record per pair, its name and its count written in decimal.
pub open spec fn csv_records(ps: Seq<(Seq<char>, usize)>) -> Seq<Seq<Seq<char>>> {
    seq![seq!["command"@, "count"@]] + Seq::new(
        ps.len(),
        |i: int| seq![ps[i].0, decimal(ps[i].1 as nat)],
    )
}

proof fn lemma_decimal_plain(n: nat)
    ensures
        !csv_needs_quotes(decimal(n)),
        csv_field_text(decimal(n)) == decimal(n),
{
    lemma_decimal_digits(n);
    let s = decimal(n);
    assert(!s.contains(',') && !s.contains('"') && !s.contains('\n') && !s.contains('\r')) by {
        assert forall|j: int| 0 <= j < s.len() implies s[j] != ',' && s[j] != '"' && s[j] != '\n'
            && s[j] != '\r' by {
            assert(is_digit(s[j]));
        }
    }
}

proof fn lemma_two_fields(a: Seq<char>, b: Seq<char>, rest: Seq<char>)
    requires
        !csv_needs_quotes(b),
    ensures
        read_csv_record(csv_field_text(a) + seq![','] + b + seq!['\n'] + rest) == Some(
            (seq![a, b], rest),
        ),
{
    let t = csv_field_text(a) + seq![','] + b + seq!['\n'] + rest;
    let r1 = seq![','] + b + seq!['\n'] + rest;
    let r2 = seq!['\n'] + rest;
    assert(t =~= csv_field_text(a) + r1);
    lemma_csv_field_round_trip(a, r1);
    assert(r1.drop_first() =~= csv_field_text(b) + r2);
    lemma_csv_field_round_trip(b, r2);
    assert(r2.drop_first() =~= rest);
    assert(read_csv_record(r1.drop_first()) == Some((seq![b], rest)));
    assert(seq![a] + seq![b] =~= seq![a, b]);
}

proof fn lemma_csv_rows_front(ps: Seq<(Seq<char>, usize)>)
    requires
        ps.len() > 0,
    ensures
        csv_rows(ps) == csv_row(ps[0]) + csv_rows(ps.drop_first()),
    decreases ps.len(),
{
    if ps.len() == 1 {
        assert(ps.drop_last() =~= Seq::<(Seq<char>, usize)>::empty());
        assert(ps.drop_first() =~= Seq::<(Seq<char>, usize)>::empty());
        assert(csv_rows(ps) =~= csv_row(ps[0]));
        assert(csv_row(ps[0]) + csv_rows(ps.drop_first()) =~= csv_row(ps[0]));
    } else {
        lemma_csv_rows_front(ps.drop_last());
        assert(ps.drop_last().drop_first() =~= ps.drop_first().drop_last());
        assert(ps.drop_first().last() == ps.last());
        assert(csv_rows(ps) =~= csv_rows(ps.drop_last()) + csv_row(ps.last()));
        assert(csv_rows(ps.drop_first()) =~= csv_rows(ps.drop_first().drop_last()) + csv_row(
            ps.last(),
        ));
        assert(csv_rows(ps) =~= csv_row(ps[0]) + csv_rows(ps.drop_first()));
    }
}

proof fn lemma_read_rows(ps: Seq<(Seq<char>, usize)>)
    ensures
        read_csv_records(csv_rows(ps)) == Some(
            Seq::new(ps.len(), |i: int| seq![ps[i].0, decimal(ps[i].1 as nat)]),
        ),
    decreases ps.len(),
{
    let want = Seq::new(ps.len(), |i: int| seq![ps[i].0, decimal(ps[i].1 as nat)]);
    if ps.len() == 0 {
        assert(want =~= Seq::<Seq<Seq<char>>>::empty());
    } else {
        let tail = ps.drop_first();
        lemma_csv_rows_front(ps);
        lemma_read_rows(tail);
        lemma_decimal_plain(ps[0].1 as nat);
        let t = csv_rows(ps);
        assert(t =~= csv_field_text(ps[0].0) + seq![','] + decimal(ps[0].1 as nat) + seq!['\n']
            + csv_rows(tail));
        lemma_two_fields(ps[0].0, decimal(ps[0].1 as nat), csv_rows(tail));
        assert(t.len() > 0);
        let tail_want = Seq::new(
            tail.len(),
            |i: int| seq![tail[i].0, decimal(tail[i].1 as nat)],
        );
        assert(seq![seq![ps[0].0, decimal(ps[0].1 as nat)]] + tail_want =~= want);
    }
}

/// The CSV document that `format_csv` writes reads back, under RFC 4180, as
/// the header record and then one record per pair in order: the name, and
/// the count in decimal, which reads back as the count.
pub proof fn lemma_csv_round_trip(ps: Seq<(Seq<char>, usize)>)
    ensures
        read_csv_records(csv_text(ps)) == Some(csv_records(ps)),
        forall|i: int|
            0 <= i < ps.len() ==> usize_of_text(#[trigger] csv_records(ps)[i + 1][1]) == Some(
                ps[i].1,
            ),
{
    reveal_strlit("command,count\n");
    reveal_strlit("command");
    reveal_strlit("count");
    let t = csv_text(ps);
    assert(!csv_needs_quotes("command"@)) by {
        assert forall|j: int| 0 <= j < "command"@.len() implies "command"@[j] != ','
            && "command"@[j] != '"' && "command"@[j] != '\n' && "command"@[j] != '\r' by {}
    }
    assert(!csv_needs_quotes("count"@)) by {
        assert forall|j: int| 0 <= j < "count"@.len() implies "count"@[j] != ',' && "count"@[j]
            != '"' && "count"@[j] != '\n' && "count"@[j] != '\r' by {}
    }
    assert(t =~= csv_field_text("command"@) + seq![','] + "count"@ + seq!['\n'] + csv_rows(ps));
    lemma_two_fields("command"@, "count"@, csv_rows(ps));
    lemma_read_rows(ps);
    assert(t.len() > 0);
    let rows = Seq::new(ps.len(), |i: int| seq![ps[i].0, decimal(ps[i].1 as nat)]);
    assert(seq![seq!["command"@, "count"@]] + rows =~= csv_records(ps));
    assert forall|i: int| 0 <= i < ps.len() implies usize_of_text(
        #[trigger] csv_records(ps)[i + 1][1],
    ) == Some(ps[i].1) by {
        assert(csv_records(ps)[i + 1] == rows[i]);
        lemma_decimal_reads_back(ps[i].1);
    }
}

} // verus!
