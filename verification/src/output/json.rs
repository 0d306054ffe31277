//! JSON output.
use vstd::prelude::*;
use crate::aggregators::command_map::pairs_view;
use crate::numbers::{
    all_digits, decimal, digit_char, digits_value, is_digit, lemma_decimal_digits, lemma_decimal_len,
    push_decimal,
};
use crate::text::{chars_of, char_from_ascii, push_str_chars, string_of};

verus! {

/// A lowercase hexadecimal digit.
pub open spec fn hex_digit(d: nat) -> char {
    if d < 10 {
        (('0' as u32) + d) as char
    } else {
        (('a' as u32) + d - 10) as char
    }
}

/// How a character is written inside a JSON string.
pub open spec fn json_char(c: char) -> Seq<char> {
    if c == '"' {
        seq!['\\', '"']
    } else if c == '\\' {
        seq!['\\', '\\']
    } else if c == '\n' {
        seq!['\\', 'n']
    } else if c == '\r' {
        seq!['\\', 'r']
    } else if c == '\t' {
        seq!['\\', 't']
    } else if (c as u32) < 0x20 {
        seq!['\\', 'u', '0', '0', hex_digit((c as u32 / 16) as nat), hex_digit((c as u32 % 16) as nat)]
    } else {
        seq![c]
    }
}

/// A text escaped for a JSON string.
pub open spec fn json_escaped(s: Seq<char>) -> Seq<char>
    decreases s.len(),
{
    if s.len() == 0 {
        s
    } else {
        json_escaped(s.drop_last()) + json_char(s.last())
    }
}

/// One `{"command": ..., "count": ...}` object.
pub open spec fn json_object(p: (Seq<char>, usize)) -> Seq<char> {
    "\n  {\"command\": \""@ + json_escaped(p.0) + "\", \"count\": "@ + decimal(p.1 as nat) + seq!['}']
}

/// The objects of the pairs, separated by commas.
pub open spec fn json_objects(ps: Seq<(Seq<char>, usize)>) -> Seq<char>
    decreases ps.len(),
{
    if ps.len() == 0 {
        Seq::empty()
    } else {
        json_objects(ps.drop_last()) + (if ps.len() > 1 {
            seq![',']
        } else {
            Seq::empty()
        }) + json_object(ps.last())
    }
}

/// The JSON array of the pairs, one object per line.
pub open spec fn json_text(ps: Seq<(Seq<char>, usize)>) -> Seq<char> {
    seq!['['] + json_objects(ps) + (if ps.len() > 0 {
        seq!['\n']
    } else {
        Seq::empty()
    }) + seq![']', '\n']
}

fn hex_char(d: u32) -> (c: char)
    requires
        d < 16,
    ensures
        c == hex_digit(d as nat),
{
    if d < 10 {
        char_from_ascii((48 + d) as u8)
    } else {
        char_from_ascii((97 + d - 10) as u8)
    }
}

/// Appends a text escaped for a JSON string.
fn json_escape(s: &str, out: &mut Vec<char>)
    ensures
        final(out)@ == old(out)@ + json_escaped(s@),
{
    let cs = chars_of(s);
    for i in 0..cs.len()
        invariant
            cs@ == s@,
            out@ == old(out)@ + json_escaped(cs@.take(i as int)),
    {
        assert(cs@.take(i + 1).drop_last() == cs@.take(i as int));
        let c = cs[i];
        let ghost before = out@;
        if c == '"' {
            out.push('\\');
            out.push('"');
        } else if c == '\\' {
            out.push('\\');
            out.push('\\');
        } else if c == '\n' {
            out.push('\\');
            out.push('n');
        } else if c == '\r' {
            out.push('\\');
            out.push('r');
        } else if c == '\t' {
            out.push('\\');
            out.push('t');
        } else if (c as u32) < 0x20 {
            out.push('\\');
            out.push('u');
            out.push('0');
            out.push('0');
            out.push(hex_char(c as u32 / 16));
            out.push(hex_char(c as u32 % 16));
        } else {
            out.push(c);
        }
        assert(out@ == before + json_char(c));
    }
    assert(cs@.take(cs.len() as int) == cs@);
}

/// Format ranked commands as a JSON array.
pub fn format_json(ranked: &[(String, usize)]) -> (r: String)
    ensures
        r@ == json_text(pairs_view(ranked@)),
{
    let ghost ps = pairs_view(ranked@);
    let mut out: Vec<char> = Vec::new();
    out.push('[');
    for i in 0..ranked.len()
        invariant
            ps == pairs_view(ranked@),
            out@ == seq!['['] + json_objects(ps.take(i as int)),
    {
        assert(ps.take(i + 1).drop_last() == ps.take(i as int));
        assert(ps.take(i + 1).last() == (ranked@[i as int].0@, ranked@[i as int].1));
        if i > 0 {
            out.push(',');
        }
        push_str_chars(&mut out, "\n  {\"command\": \"");
        json_escape(ranked[i].0.as_str(), &mut out);
        push_str_chars(&mut out, "\", \"count\": ");
        push_decimal(&mut out, ranked[i].1 as u64);
        out.push('}');
    }
    assert(ps.take(ranked.len() as int) == ps);
    if ranked.len() > 0 {
        out.push('\n');
    }
    out.push(']');
    out.push('\n');
    string_of(out.as_slice())
}

// ---------------------------------------------------------------------------
// Reading JSON strings back
// ---------------------------------------------------------------------------
/// The value of a hexadecimal digit.
pub open spec fn hex_value(c: char) -> Option<nat> {
    if '0' <= c <= '9' {
        Some((c as u32 - '0' as u32) as nat)
    } else if 'a' <= c <= 'f' {
        Some((c as u32 - 'a' as u32 + 10) as nat)
    } else if 'A' <= c <= 'F' {
        Some((c as u32 - 'A' as u32 + 10) as nat)
    } else {
        None
    }
}

/// The character that a two-character JSON escape `\x` stands for.
pub open spec fn escaped_char(c: char) -> Option<char> {
    if c == '"' {
        Some('"')
    } else if c == '\\' {
        Some('\\')
    } else if c == '/' {
        Some('/')
    } else if c == 'b' {
        Some('\x08')
    } else if c == 'f' {
        Some('\x0c')
    } else if c == 'n' {
        Some('\n')
    } else if c == 'r' {
        Some('\r')
    } else if c == 't' {
        Some('\t')
    } else {
        None
    }
}

/// The code that four hexadecimal digits give, if they are digits.
pub open spec fn hex4(t: Seq<char>) -> Option<nat> {
    match (hex_value(t[0]), hex_value(t[1]), hex_value(t[2]), hex_value(t[3])) {
        (Some(a), Some(b), Some(c), Some(d)) => Some(((a * 16 + b) * 16 + c) * 16 + d),
        _ => None,
    }
}

/// Reads a JSON string from just after its opening quote: the text it holds
/// and what follows its closing quote, or nothing where it is not well formed
/// (a `\u` escape is read for one character of the basic plane; surrogate
/// pairs are not read).
pub open spec fn read_json_string(t: Seq<char>) -> Option<(Seq<char>, Seq<char>)>
    decreases t.len(),
{
    if t.len() == 0 {
        None
    } else if t[0] == '"' {
        Some((Seq::empty(), t.drop_first()))
    } else if t[0] == '\\' {
        if t.len() >= 2 && escaped_char(t[1]) is Some {
            match read_json_string(t.skip(2)) {
                Some((s, r)) => Some((seq![escaped_char(t[1])->0] + s, r)),
                None => None,
            }
        } else if t.len() >= 6 && t[1] == 'u' && hex4(t.subrange(2, 6)) is Some && !(0xD800
            <= hex4(t.subrange(2, 6))->0 <= 0xDFFF) {
            match read_json_string(t.skip(6)) {
                Some((s, r)) => Some((seq![(hex4(t.subrange(2, 6))->0) as char] + s, r)),
                None => None,
            }
        } else {
            None
        }
    } else if (t[0] as u32) < 0x20 {
        None
    } else {
        match read_json_string(t.drop_first()) {
            Some((s, r)) => Some((seq![t[0]] + s, r)),
            None => None,
        }
    }
}

proof fn lemma_escaped_front(c: char, s: Seq<char>)
    ensures
        json_escaped(seq![c] + s) == json_char(c) + json_escaped(s),
    decreases s.len(),
{
    let cs = seq![c] + s;
    if s.len() == 0 {
        assert(cs =~= seq![c]);
        assert(cs.drop_last() =~= Seq::<char>::empty());
        assert(cs.last() == c);
        assert(json_escaped(cs) == json_escaped(cs.drop_last()) + json_char(cs.last()));
        assert(Seq::<char>::empty() + json_char(c) =~= json_char(c));
        assert(json_char(c) + json_escaped(s) =~= json_char(c));
    } else {
        lemma_escaped_front(c, s.drop_last());
        assert(cs.drop_last() =~= seq![c] + s.drop_last());
        assert(cs.last() == s.last());
        assert(json_escaped(cs) == json_escaped(cs.drop_last()) + json_char(cs.last()));
        assert(json_escaped(s) == json_escaped(s.drop_last()) + json_char(s.last()));
        assert(json_char(c) + json_escaped(s.drop_last()) + json_char(s.last()) =~= json_char(c)
            + json_escaped(s));
    }
}

proof fn lemma_hex_digit_value(d: nat)
    requires
        d < 16,
    ensures
        hex_value(hex_digit(d)) == Some(d),
{
}

/// Reading one written character: the reader takes it back and goes on.
proof fn lemma_read_char(c: char, after: Seq<char>)
    ensures
        read_json_string(json_char(c) + after) == match read_json_string(after) {
            Some((s, r)) => Some((seq![c] + s, r)),
            None => None::<(Seq<char>, Seq<char>)>,
        },
{
    let e = json_char(c);
    let t = e + after;
    assert(t.skip(e.len() as int) =~= after);
    if c == '"' || c == '\\' || c == '\n' || c == '\r' || c == '\t' {
        assert(t[0] == '\\' && t.len() >= 2 && t[1] == e[1]);
        assert(escaped_char(t[1]) == Some(c));
    } else if (c as u32) < 0x20 {
        let v = c as u32;
        lemma_hex_digit_value((v / 16) as nat);
        lemma_hex_digit_value((v % 16) as nat);
        assert(t[0] == '\\' && t[1] == 'u');
        assert(t.subrange(2, 6) =~= seq!['0', '0', hex_digit((v / 16) as nat), hex_digit((v % 16) as nat)]);
        assert(hex4(t.subrange(2, 6)) == Some(v as nat));
        assert(((v as nat) as char) == c);
    } else {
        assert(e =~= seq![c]);
        assert(t[0] == c);
        assert(t.drop_first() =~= after);
    }
}

/// What `format_json` writes for a name reads back as that name: escaping
/// loses nothing, and the string ends at the quote that follows it.
pub proof fn lemma_json_string_round_trip(s: Seq<char>, rest: Seq<char>)
    ensures
        read_json_string(json_escaped(s) + seq!['"'] + rest) == Some((s, rest)),
    decreases s.len(),
{
    if s.len() == 0 {
        assert(json_escaped(s) + seq!['"'] + rest =~= seq!['"'] + rest);
        assert((seq!['"'] + rest).drop_first() =~= rest);
    } else {
        let c = s[0];
        let tail = s.drop_first();
        assert(s =~= seq![c] + tail);
        lemma_escaped_front(c, tail);
        lemma_json_string_round_trip(tail, rest);
        let after = json_escaped(tail) + seq!['"'] + rest;
        assert(json_escaped(s) + seq!['"'] + rest =~= json_char(c) + after);
        lemma_read_char(c, after);
    }
}

// ---------------------------------------------------------------------------
// Reading the JSON document back
// ---------------------------------------------------------------------------
/// JSON whitespace.
pub open spec fn is_json_space(c: char) -> bool {
    c == ' ' || c == '\t' || c == '\n' || c == '\r'
}

/// The text after its leading whitespace.
pub open spec fn skip_space(t: Seq<char>) -> Seq<char>
    decreases t.len(),
{
    if t.len() > 0 && is_json_space(t[0]) {
        skip_space(t.drop_first())
    } else {
        t
    }
}

/// Reads the character `c` after optional whitespace: what follows it.
pub open spec fn read_token(t: Seq<char>, c: char) -> Option<Seq<char>> {
    let u = skip_space(t);
    if u.len() > 0 && u[0] == c {
        Some(u.drop_first())
    } else {
        None
    }
}

/// Reads a JSON string after optional whitespace: the text it holds and what
/// follows it.
pub open spec fn read_string_token(t: Seq<char>) -> Option<(Seq<char>, Seq<char>)> {
    match read_token(t, '"') {
        Some(u) => read_json_string(u),
        None => None,
    }
}

/// The leading decimal digits of the text, and what follows them.
pub open spec fn digit_prefix(t: Seq<char>) -> (Seq<char>, Seq<char>)
    decreases t.len(),
{
    if t.len() > 0 && is_digit(t[0]) {
        let (d, r) = digit_prefix(t.drop_first());
        (seq![t[0]] + d, r)
    } else {
        (Seq::empty(), t)
    }
}

/// Reads a JSON number that is a non-negative integer (digits, no leading
/// zero) after optional whitespace: its value and what follows it.
pub open spec fn read_count_token(t: Seq<char>) -> Option<(nat, Seq<char>)> {
    let (d, r) = digit_prefix(skip_space(t));
    if d.len() > 0 && !(d.len() > 1 && d[0] == '0') {
        Some((digits_value(d), r))
    } else {
        None
    }
}

/// Reads an object member `"<key>": <string>` after optional whitespace: the
/// string and what follows it.
pub open spec fn read_string_member(t: Seq<char>, key: Seq<char>) -> Option<(Seq<char>, Seq<char>)> {
    match read_string_token(t) {
        Some((k, t1)) => if k != key {
            None
        } else {
            match read_token(t1, ':') {
                Some(t2) => read_string_token(t2),
                None => None,
            }
        },
        None => None,
    }
}

/// Reads an object member `"<key>": <integer>` after optional whitespace:
/// the integer and what follows it.
pub open spec fn read_count_member(t: Seq<char>, key: Seq<char>) -> Option<(nat, Seq<char>)> {
    match read_string_token(t) {
        Some((k, t1)) => if k != key {
            None
        } else {
            match read_token(t1, ':') {
                Some(t2) => read_count_token(t2),
                None => None,
            }
        },
        None => None,
    }
}

/// Reads one object `{"command": <string>, "count": <integer>}`, members in
/// that order, whitespace allowed between tokens: the pair it holds and what
/// follows its closing brace.
pub open spec fn read_json_entry(t: Seq<char>) -> Option<((Seq<char>, nat), Seq<char>)> {
    match read_token(t, '{') {
        Some(t1) => match read_string_member(t1, "command"@) {
            Some((name, t2)) => match read_token(t2, ',') {
                Some(t3) => match read_count_member(t3, "count"@) {
                    Some((n, t4)) => match read_token(t4, '}') {
                        Some(t5) => Some(((name, n), t5)),
                        None => None,
                    },
                    None => None,
                },
                None => None,
            },
            None => None,
        },
        None => None,
    }
}

/// Skipping whitespace never lengthens the text.
pub proof fn lemma_skip_space_len(t: Seq<char>)
    ensures
        skip_space(t).len() <= t.len(),
    decreases t.len(),
{
    if t.len() > 0 && is_json_space(t[0]) {
        lemma_skip_space_len(t.drop_first());
    }
}

/// Reading a JSON string consumes at least its closing quote.
pub proof fn lemma_json_string_rest_shorter(t: Seq<char>)
    ensures
        read_json_string(t) matches Some((_, r)) ==> r.len() < t.len(),
    decreases t.len(),
{
    if t.len() > 0 && t[0] != '"' {
        if t[0] == '\\' {
            if t.len() >= 2 && escaped_char(t[1]) is Some {
                lemma_json_string_rest_shorter(t.skip(2));
            } else if t.len() >= 6 {
                lemma_json_string_rest_shorter(t.skip(6));
            }
        } else {
            lemma_json_string_rest_shorter(t.drop_first());
        }
    }
}

/// Reading digits never lengthens the text.
pub proof fn lemma_digit_prefix_len(t: Seq<char>)
    ensures
        digit_prefix(t).1.len() <= t.len(),
    decreases t.len(),
{
    if t.len() > 0 && is_digit(t[0]) {
        lemma_digit_prefix_len(t.drop_first());
    }
}

/// Reading a token or a string consumes at least one character.
pub proof fn lemma_token_rest_shorter(t: Seq<char>, c: char)
    ensures
        read_token(t, c) matches Some(r) ==> r.len() < t.len(),
        read_string_token(t) matches Some((_, r)) ==> r.len() < t.len(),
{
    lemma_skip_space_len(t);
    if let Some(u) = read_token(t, '"') {
        lemma_json_string_rest_shorter(u);
    }
}

/// Reading a member consumes at least its key.
pub proof fn lemma_member_rest_shorter(t: Seq<char>, key: Seq<char>)
    ensures
        read_string_member(t, key) matches Some((_, r)) ==> r.len() < t.len(),
        read_count_member(t, key) matches Some((_, r)) ==> r.len() < t.len(),
{
    lemma_token_rest_shorter(t, '"');
    if let Some((k, t1)) = read_string_token(t) {
        lemma_token_rest_shorter(t1, ':');
        if let Some(t2) = read_token(t1, ':') {
            lemma_token_rest_shorter(t2, '"');
            lemma_skip_space_len(t2);
            lemma_digit_prefix_len(skip_space(t2));
        }
    }
}

/// Reading an object consumes at least its braces.
pub proof fn lemma_entry_rest_shorter(t: Seq<char>)
    ensures
        read_json_entry(t) matches Some((_, r)) ==> r.len() < t.len(),
{
    lemma_token_rest_shorter(t, '{');
    if let Some(t1) = read_token(t, '{') {
        lemma_member_rest_shorter(t1, "command"@);
        if let Some((name, t2)) = read_string_member(t1, "command"@) {
            lemma_token_rest_shorter(t2, ',');
            if let Some(t3) = read_token(t2, ',') {
                lemma_member_rest_shorter(t3, "count"@);
                if let Some((n, t4)) = read_count_member(t3, "count"@) {
                    lemma_token_rest_shorter(t4, '}');
                }
            }
        }
    }
}

/// Reads the objects of a JSON array, separated by commas, up to and
/// including its closing bracket: the pairs and what follows the bracket.
pub open spec fn read_json_entries(t: Seq<char>) -> Option<(Seq<(Seq<char>, nat)>, Seq<char>)>
    decreases t.len(),
{
    match read_json_entry(t) {
        Some((e, r)) => match read_token(r, ',') {
            Some(r2) => {
                proof {
                    lemma_entry_rest_shorter(t);
                    lemma_token_rest_shorter(r, ',');
                }
                match read_json_entries(r2) {
                    Some((es, r3)) => Some((seq![e] + es, r3)),
                    None => None,
                }
            },
            None => match read_token(r, ']') {
                Some(r3) => Some((seq![e], r3)),
                None => None,
            },
        },
        None => None,
    }
}

/// Reads a JSON document that is an array of such objects, with nothing but
/// whitespace after it: the pairs in order.
pub open spec fn read_json_array(t: Seq<char>) -> Option<Seq<(Seq<char>, nat)>> {
    match read_token(t, '[') {
        Some(t1) => match read_token(t1, ']') {
            Some(t2) => if skip_space(t2).len() == 0 {
                Some(Seq::empty())
            } else {
                None
            },
            None => match read_json_entries(t1) {
                Some((es, t2)) => if skip_space(t2).len() == 0 {
                    Some(es)
                } else {
                    None
                },
                None => None,
            },
        },
        None => None,
    }
}

/// The pairs with their counts as natural numbers.
pub open spec fn json_entries(ps: Seq<(Seq<char>, usize)>) -> Seq<(Seq<char>, nat)> {
    Seq::new(ps.len(), |i: int| (ps[i].0, ps[i].1 as nat))
}

proof fn lemma_skip_spaces(w: Seq<char>, t: Seq<char>)
    requires
        forall|i: int| 0 <= i < w.len() ==> is_json_space(#[trigger] w[i]),
        t.len() == 0 || !is_json_space(t[0]),
    ensures
        skip_space(w + t) == t,
    decreases w.len(),
{
    if w.len() == 0 {
        assert(w + t =~= t);
    } else {
        let u = w + t;
        assert(is_json_space(u[0]));
        assert(u.drop_first() =~= w.drop_first() + t);
        lemma_skip_spaces(w.drop_first(), t);
    }
}

proof fn lemma_token_after(w: Seq<char>, c: char, t: Seq<char>)
    requires
        forall|i: int| 0 <= i < w.len() ==> is_json_space(#[trigger] w[i]),
        !is_json_space(c),
    ensures
        read_token(w + seq![c] + t, c) == Some(t),
{
    lemma_skip_spaces(w, seq![c] + t);
    assert(w + seq![c] + t =~= w + (seq![c] + t));
    assert((seq![c] + t).drop_first() =~= t);
}

/// A character that a JSON string holds as it is.
pub open spec fn json_plain(c: char) -> bool {
    c != '"' && c != '\\' && (c as u32) >= 0x20
}

proof fn lemma_plain_escaped(s: Seq<char>)
    requires
        forall|i: int| 0 <= i < s.len() ==> json_plain(#[trigger] s[i]),
    ensures
        json_escaped(s) == s,
    decreases s.len(),
{
    if s.len() > 0 {
        lemma_plain_escaped(s.drop_last());
        assert(json_plain(s[s.len() - 1]));
        assert(json_char(s.last()) =~= seq![s.last()]);
        assert(s.drop_last() + seq![s.last()] =~= s);
    }
}

proof fn lemma_digit_prefix_of(d: Seq<char>, t: Seq<char>)
    requires
        all_digits(d),
        t.len() == 0 || !is_digit(t[0]),
    ensures
        digit_prefix(d + t) == (d, t),
    decreases d.len(),
{
    if d.len() == 0 {
        assert(d + t =~= t);
    } else {
        let u = d + t;
        assert(is_digit(d[0]));
        assert(u.drop_first() =~= d.drop_first() + t);
        lemma_digit_prefix_of(d.drop_first(), t);
        assert(seq![d[0]] + d.drop_first() =~= d);
    }
}

proof fn lemma_decimal_lead(n: nat)
    ensures
        decimal(n).len() > 1 ==> decimal(n)[0] != '0',
        n >= 10 ==> decimal(n).len() > 1,
    decreases n,
{
    if n >= 10 {
        lemma_decimal_lead(n / 10);
        lemma_decimal_len(n / 10);
        let s = decimal(n);
        assert(s == decimal(n / 10).push(digit_char(n % 10)));
        assert(s[0] == decimal(n / 10)[0]);
        if n / 10 < 10 {
            assert(decimal(n / 10) == seq![digit_char(n / 10)]);
            assert(digit_char(n / 10) as u32 == '0' as u32 + n / 10);
        }
    }
}

proof fn lemma_read_count(n: nat, t: Seq<char>)
    requires
        t.len() == 0 || !is_digit(t[0]),
    ensures
        read_count_token(decimal(n) + t) == Some((n, t)),
{
    lemma_decimal_digits(n);
    lemma_decimal_len(n);
    lemma_decimal_lead(n);
    let d = decimal(n);
    assert(is_digit(d[0]));
    assert((d + t)[0] == d[0]);
    assert(skip_space(d + t) == d + t);
    lemma_digit_prefix_of(d, t);
}

proof fn lemma_plain_keys()
    ensures
        json_escaped("command"@) == "command"@,
        json_escaped("count"@) == "count"@,
{
    reveal_strlit("command");
    reveal_strlit("count");
    let cmd = "command"@;
    let cnt = "count"@;
    assert forall|i: int| 0 <= i < cmd.len() implies json_plain(#[trigger] cmd[i]) by {}
    assert forall|i: int| 0 <= i < cnt.len() implies json_plain(#[trigger] cnt[i]) by {}
    lemma_plain_escaped(cmd);
    lemma_plain_escaped(cnt);
}

/// A string written after optional whitespace reads back as itself.
proof fn lemma_string_token(w: Seq<char>, s: Seq<char>, rest: Seq<char>)
    requires
        forall|i: int| 0 <= i < w.len() ==> is_json_space(#[trigger] w[i]),
    ensures
        read_string_token(w + seq!['"'] + json_escaped(s) + seq!['"'] + rest) == Some((s, rest)),
{
    let after = json_escaped(s) + seq!['"'] + rest;
    assert(w + seq!['"'] + json_escaped(s) + seq!['"'] + rest =~= w + seq!['"'] + after);
    lemma_token_after(w, '"', after);
    lemma_json_string_round_trip(s, rest);
}

proof fn lemma_name_member(s: Seq<char>, rest: Seq<char>)
    ensures
        read_string_member(
            seq!['"'] + "command"@ + seq!['"', ':', ' ', '"'] + json_escaped(s) + seq!['"'] + rest,
            "command"@,
        ) == Some((s, rest)),
{
    lemma_plain_keys();
    let none = Seq::<char>::empty();
    assert(forall|i: int| 0 <= i < none.len() ==> is_json_space(#[trigger] none[i]));
    let sp = seq![' '];
    assert(forall|i: int| 0 <= i < sp.len() ==> is_json_space(#[trigger] sp[i]));
    let x2 = sp + seq!['"'] + json_escaped(s) + seq!['"'] + rest;
    let x1 = seq![':'] + x2;
    let t = seq!['"'] + "command"@ + seq!['"', ':', ' ', '"'] + json_escaped(s) + seq!['"'] + rest;
    assert(t =~= none + seq!['"'] + json_escaped("command"@) + seq!['"'] + x1);
    lemma_string_token(none, "command"@, x1);
    assert(x1 =~= none + seq![':'] + x2);
    lemma_token_after(none, ':', x2);
    lemma_string_token(sp, s, rest);
}

proof fn lemma_count_member(n: nat, rest: Seq<char>)
    ensures
        read_count_member(
            seq![' ', '"'] + "count"@ + seq!['"', ':', ' '] + decimal(n) + seq!['}'] + rest,
            "count"@,
        ) == Some((n, seq!['}'] + rest)),
{
    lemma_plain_keys();
    let none = Seq::<char>::empty();
    assert(forall|i: int| 0 <= i < none.len() ==> is_json_space(#[trigger] none[i]));
    let sp = seq![' '];
    assert(forall|i: int| 0 <= i < sp.len() ==> is_json_space(#[trigger] sp[i]));
    let dec = decimal(n);
    let after = seq!['}'] + rest;
    let z1 = sp + (dec + after);
    let z = seq![':'] + z1;
    let t = seq![' ', '"'] + "count"@ + seq!['"', ':', ' '] + dec + seq!['}'] + rest;
    assert(t =~= sp + seq!['"'] + json_escaped("count"@) + seq!['"'] + z);
    lemma_string_token(sp, "count"@, z);
    assert(z =~= none + seq![':'] + z1);
    lemma_token_after(none, ':', z1);
    lemma_decimal_digits(n);
    lemma_decimal_len(n);
    assert(is_digit(dec[0]));
    lemma_skip_spaces(sp, dec + after);
    lemma_read_count(n, after);
}

proof fn lemma_read_entry(p: (Seq<char>, usize), rest: Seq<char>)
    ensures
        read_json_entry(json_object(p) + rest) == Some(((p.0, p.1 as nat), rest)),
        skip_space(json_object(p) + rest).len() > 0,
        skip_space(json_object(p) + rest)[0] == '{',
{
    reveal_strlit("\n  {\"command\": \"");
    reveal_strlit("\", \"count\": ");
    reveal_strlit("command");
    reveal_strlit("count");
    let none = Seq::<char>::empty();
    assert(forall|i: int| 0 <= i < none.len() ==> is_json_space(#[trigger] none[i]));
    let w = seq!['\n', ' ', ' '];
    assert(forall|i: int| 0 <= i < w.len() ==> is_json_space(#[trigger] w[i]));
    let esc = json_escaped(p.0);
    let dec = decimal(p.1 as nat);
    let tail = seq!['}'] + rest;
    let y1 = seq![' ', '"'] + "count"@ + seq!['"', ':', ' '] + dec + tail;
    let y = seq![','] + y1;
    let t1 = seq!['"'] + "command"@ + seq!['"', ':', ' ', '"'] + esc + seq!['"'] + y;
    let t = json_object(p) + rest;
    assert(t =~= w + seq!['{'] + t1);
    lemma_token_after(w, '{', t1);
    lemma_skip_spaces(w, seq!['{'] + t1);
    assert(w + (seq!['{'] + t1) =~= t);
    lemma_name_member(p.0, y);
    assert(y =~= none + seq![','] + y1);
    lemma_token_after(none, ',', y1);
    assert(y1 =~= seq![' ', '"'] + "count"@ + seq!['"', ':', ' '] + dec + seq!['}'] + rest);
    lemma_count_member(p.1 as nat, rest);
    assert(tail =~= none + seq!['}'] + rest);
    lemma_token_after(none, '}', rest);
}

proof fn lemma_json_objects_front(ps: Seq<(Seq<char>, usize)>)
    requires
        ps.len() >= 1,
    ensures
        json_objects(ps) == json_object(ps[0]) + (if ps.len() > 1 {
            seq![','] + json_objects(ps.drop_first())
        } else {
            Seq::empty()
        }),
    decreases ps.len(),
{
    let dl = ps.drop_last();
    let df = ps.drop_first();
    if ps.len() == 1 {
        assert(dl =~= Seq::<(Seq<char>, usize)>::empty());
        assert(json_objects(dl) == Seq::<char>::empty());
        assert(ps.last() == ps[0]);
        assert(json_objects(ps) == json_objects(dl) + Seq::<char>::empty() + json_object(ps[0]));
        assert(json_objects(ps) =~= json_object(ps[0]));
    } else {
        lemma_json_objects_front(dl);
        assert(dl[0] == ps[0]);
        assert(df.drop_last() =~= dl.drop_first());
        assert(df.last() == ps.last());
        if ps.len() == 2 {
            assert(df.drop_last() =~= Seq::<(Seq<char>, usize)>::empty());
            assert(json_objects(df.drop_last()) == Seq::<char>::empty());
            assert(json_objects(df) == json_objects(df.drop_last()) + Seq::<char>::empty()
                + json_object(df.last()));
            assert(json_objects(df) =~= json_object(ps.last()));
            assert(json_objects(ps) =~= json_object(ps[0]) + seq![','] + json_objects(df));
        } else {
            assert(json_objects(df) =~= json_objects(dl.drop_first()) + seq![','] + json_object(
                ps.last(),
            ));
            assert(json_objects(ps) =~= json_object(ps[0]) + seq![','] + json_objects(df));
        }
    }
}

proof fn lemma_read_entries(ps: Seq<(Seq<char>, usize)>)
    requires
        ps.len() >= 1,
    ensures
        read_json_entries(json_objects(ps) + seq!['\n', ']', '\n']) == Some(
            (json_entries(ps), seq!['\n']),
        ),
    decreases ps.len(),
{
    let df = ps.drop_first();
    let close = seq!['\n', ']', '\n'];
    lemma_json_objects_front(ps);
    let r = if ps.len() > 1 {
        seq![','] + (json_objects(df) + close)
    } else {
        close
    };
    let t = json_objects(ps) + close;
    assert(t =~= json_object(ps[0]) + r);
    lemma_read_entry(ps[0], r);
    let e0 = (ps[0].0, ps[0].1 as nat);
    let nl = seq!['\n'];
    assert(forall|i: int| 0 <= i < nl.len() ==> is_json_space(#[trigger] nl[i]));
    let none = Seq::<char>::empty();
    assert(forall|i: int| 0 <= i < none.len() ==> is_json_space(#[trigger] none[i]));
    if ps.len() == 1 {
        lemma_skip_spaces(nl, seq![']', '\n']);
        assert(close =~= nl + seq![']', '\n']);
        assert(read_token(r, ',') is None);
        assert(close =~= nl + seq![']'] + nl);
        lemma_token_after(nl, ']', nl);
        assert(json_entries(ps) =~= seq![e0]);
    } else {
        assert(r =~= none + seq![','] + (json_objects(df) + close));
        lemma_token_after(none, ',', json_objects(df) + close);
        lemma_read_entries(df);
        assert(seq![e0] + json_entries(df) =~= json_entries(ps));
    }
}

/// The JSON document that `format_json` writes reads back as an array of
/// `{"command": ..., "count": ...}` objects, one per pair and in order, each
/// holding the pair's name and count exactly.
pub proof fn lemma_json_round_trip(ps: Seq<(Seq<char>, usize)>)
    ensures
        read_json_array(json_text(ps)) == Some(json_entries(ps)),
{
    let nl = seq!['\n'];
    assert(forall|i: int| 0 <= i < nl.len() ==> is_json_space(#[trigger] nl[i]));
    let none = Seq::<char>::empty();
    assert(forall|i: int| 0 <= i < none.len() ==> is_json_space(#[trigger] none[i]));
    lemma_skip_spaces(nl, none);
    assert(nl + none =~= nl);
    let t = json_text(ps);
    if ps.len() == 0 {
        assert(json_objects(ps) =~= none);
        assert(t =~= none + seq!['['] + (seq![']'] + nl));
        lemma_token_after(none, '[', seq![']'] + nl);
        assert(seq![']'] + nl =~= none + seq![']'] + nl);
        lemma_token_after(none, ']', nl);
        assert(json_entries(ps) =~= Seq::<(Seq<char>, nat)>::empty());
    } else {
        let close = seq!['\n', ']', '\n'];
        let j = json_objects(ps) + close;
        assert(t =~= none + seq!['['] + j);
        lemma_token_after(none, '[', j);
        lemma_json_objects_front(ps);
        let r = if ps.len() > 1 {
            seq![','] + (json_objects(ps.drop_first()) + close)
        } else {
            close
        };
        assert(j =~= json_object(ps[0]) + r);
        lemma_read_entry(ps[0], r);
        assert(read_token(j, ']') is None);
        lemma_read_entries(ps);
    }
}

} // verus!
