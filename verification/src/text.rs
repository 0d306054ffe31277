//! Character-level text model shared by the parsers and formatters.
//!
//! Text is modelled as `Seq<char>`, the view of `str` and `String`. The spec
//! functions here say what trimming, line splitting and whitespace splitting
//! produce; the executable functions compute them over `Vec<char>`.
use vstd::prelude::*;

verus! {

/// `String::push` appends one character.
pub assume_specification[ String::push ](s: &mut String, ch: char)
    ensures
        final(s)@ == old(s)@.push(ch),
;

// ---------------------------------------------------------------------------
// Whitespace
// ---------------------------------------------------------------------------
/// Unicode `White_Space`, the property that `char::is_whitespace` tests.
pub open spec fn is_ws(c: char) -> bool {
    let u = c as u32;
    ||| 0x09 <= u <= 0x0D
    ||| u == 0x20
    ||| u == 0x85
    ||| u == 0xA0
    ||| u == 0x1680
    ||| 0x2000 <= u <= 0x200A
    ||| u == 0x2028
    ||| u == 0x2029
    ||| u == 0x202F
    ||| u == 0x205F
    ||| u == 0x3000
}

pub fn is_whitespace(c: char) -> (b: bool)
    ensures
        b == is_ws(c),
{
    let u = c as u32;
    (0x09 <= u && u <= 0x0D) || u == 0x20 || u == 0x85 || u == 0xA0 || u == 0x1680 || (0x2000 <= u
        && u <= 0x200A) || u == 0x2028 || u == 0x2029 || u == 0x202F || u == 0x205F || u == 0x3000
}

/// The text without its leading whitespace.
pub open spec fn trim_start(s: Seq<char>) -> Seq<char>
    decreases s.len(),
{
    if s.len() > 0 && is_ws(s[0]) {
        trim_start(s.drop_first())
    } else {
        s
    }
}

/// The text without its trailing whitespace.
pub open spec fn trim_end(s: Seq<char>) -> Seq<char>
    decreases s.len(),
{
    if s.len() > 0 && is_ws(s.last()) {
        trim_end(s.drop_last())
    } else {
        s
    }
}

/// The text without leading and trailing whitespace (`str::trim`).
pub open spec fn trim(s: Seq<char>) -> Seq<char> {
    trim_end(trim_start(s))
}

/// Converts a string slice into its characters.
pub fn chars_of(s: &str) -> (v: Vec<char>)
    ensures
        v@ == s@,
{
    let mut v: Vec<char> = Vec::new();
    for c in it: s.chars()
        invariant
            it.seq() == s@,
            v@ == it.seq().take(it.index() as int),
    {
        v.push(c);
    }
    v
}

/// Builds a `String` from characters.
pub fn string_of(v: &[char]) -> (s: String)
    ensures
        s@ == v@,
{
    let mut s = String::new();
    for i in 0..v.len()
        invariant
            s@ == v@.take(i as int),
    {
        s.push(v[i]);
        assert(v@.take(i + 1) == v@.take(i as int).push(v@[i as int]));
    }
    assert(v@.take(v.len() as int) == v@);
    s
}

/// Appends the characters of `src` to `out`.
pub fn push_chars(out: &mut Vec<char>, src: &[char])
    ensures
        final(out)@ == old(out)@ + src@,
{
    for i in 0..src.len()
        invariant
            out@ == old(out)@ + src@.take(i as int),
    {
        out.push(src[i]);
        assert(src@.take(i + 1) == src@.take(i as int).push(src@[i as int]));
    }
    assert(src@.take(src.len() as int) == src@);
}

/// Appends the characters of a string slice to `out`.
pub fn push_str_chars(out: &mut Vec<char>, src: &str)
    ensures
        final(out)@ == old(out)@ + src@,
{
    let cs = chars_of(src);
    push_chars(out, cs.as_slice());
}

pub proof fn lemma_trim_start_skip(s: Seq<char>, i: int)
    requires
        0 <= i <= s.len(),
        forall|j: int| 0 <= j < i ==> is_ws(#[trigger] s[j]),
    ensures
        trim_start(s) == trim_start(s.skip(i)),
    decreases i,
{
    if i > 0 {
        assert(s.skip(1) == s.drop_first());
        lemma_trim_start_skip(s.drop_first(), i - 1);
        assert(s.drop_first().skip(i - 1) == s.skip(i));
    } else {
        assert(s.skip(0) == s);
    }
}

pub proof fn lemma_trim_end_take(s: Seq<char>, i: int)
    requires
        0 <= i <= s.len(),
        forall|j: int| i <= j < s.len() ==> is_ws(#[trigger] s[j]),
    ensures
        trim_end(s) == trim_end(s.take(i)),
    decreases s.len() - i,
{
    if i < s.len() {
        lemma_trim_end_take(s.drop_last(), i);
        assert(s.drop_last().take(i) == s.take(i));
    } else {
        assert(s.take(i) == s);
    }
}

/// Index of the first non-whitespace character of `s[lo..hi]`, or `hi`.
pub fn skip_ws(s: &[char], lo: usize, hi: usize) -> (k: usize)
    requires
        lo <= hi <= s.len(),
    ensures
        lo <= k <= hi,
        trim_start(s@.subrange(lo as int, hi as int)) == s@.subrange(k as int, hi as int),
{
    let mut k = lo;
    while k < hi && is_whitespace(s[k])
        invariant
            lo <= k <= hi <= s.len(),
            forall|j: int| lo <= j < k ==> is_ws(#[trigger] s@[j]),
        decreases hi - k,
    {
        k = k + 1;
    }
    proof {
        let t = s@.subrange(lo as int, hi as int);
        assert forall|j: int| 0 <= j < k - lo implies is_ws(#[trigger] t[j]) by {
            assert(t[j] == s@[lo + j]);
        }
        lemma_trim_start_skip(t, k - lo);
        assert(t.skip(k - lo) == s@.subrange(k as int, hi as int));
        let r = s@.subrange(k as int, hi as int);
        if r.len() > 0 {
            assert(r[0] == s@[k as int]);
        }
    }
    k
}

/// End index of `s[lo..hi]` once trailing whitespace is dropped.
pub fn skip_ws_back(s: &[char], lo: usize, hi: usize) -> (k: usize)
    requires
        lo <= hi <= s.len(),
    ensures
        lo <= k <= hi,
        trim_end(s@.subrange(lo as int, hi as int)) == s@.subrange(lo as int, k as int),
{
    let mut k = hi;
    while k > lo && is_whitespace(s[k - 1])
        invariant
            lo <= k <= hi <= s.len(),
            forall|j: int| k <= j < hi ==> is_ws(#[trigger] s@[j]),
        decreases k - lo,
    {
        k = k - 1;
    }
    proof {
        let t = s@.subrange(lo as int, hi as int);
        assert forall|j: int| k - lo <= j < t.len() implies is_ws(#[trigger] t[j]) by {
            assert(t[j] == s@[lo + j]);
        }
        lemma_trim_end_take(t, k - lo);
        assert(t.take(k - lo) == s@.subrange(lo as int, k as int));
        let r = s@.subrange(lo as int, k as int);
        if r.len() > 0 {
            assert(r.last() == s@[k - 1]);
        }
    }
    k
}

/// `trim` of `s[lo..hi]` as a range of indices.
pub fn trim_range(s: &[char], lo: usize, hi: usize) -> (r: (usize, usize))
    requires
        lo <= hi <= s.len(),
    ensures
        lo <= r.0 <= r.1 <= hi,
        trim(s@.subrange(lo as int, hi as int)) == s@.subrange(r.0 as int, r.1 as int),
{
    let a = skip_ws(s, lo, hi);
    let b = skip_ws_back(s, a, hi);
    (a, b)
}

/// Copies `s[lo..hi]`.
pub fn copy_range(s: &[char], lo: usize, hi: usize) -> (v: Vec<char>)
    requires
        lo <= hi <= s.len(),
    ensures
        v@ == s@.subrange(lo as int, hi as int),
{
    let mut v: Vec<char> = Vec::new();
    let mut i = lo;
    while i < hi
        invariant
            lo <= i <= hi <= s.len(),
            v@ == s@.subrange(lo as int, i as int),
        decreases hi - i,
    {
        v.push(s[i]);
        assert(s@.subrange(lo as int, i + 1) == s@.subrange(lo as int, i as int).push(s@[i as int]));
        i = i + 1;
    }
    v
}

/// `trim` of a whole character vector.
pub fn trim_chars(s: &[char]) -> (v: Vec<char>)
    ensures
        v@ == trim(s@),
{
    let (a, b) = trim_range(s, 0, s.len());
    assert(s@.subrange(0, s@.len() as int) == s@);
    copy_range(s, a, b)
}

// ---------------------------------------------------------------------------
// Lines
// ---------------------------------------------------------------------------
/// Lines finished so far, and the line under way, after reading `s`.
pub open spec fn lines_acc(s: Seq<char>) -> (Seq<Seq<char>>, Seq<char>)
    decreases s.len(),
{
    if s.len() == 0 {
        (Seq::empty(), Seq::empty())
    } else {
        let (done, cur) = lines_acc(s.drop_last());
        if s.last() == '\n' {
            (done.push(cur), Seq::empty())
        } else {
            (done, cur.push(s.last()))
        }
    }
}

/// The lines of a text, split at `'\n'` as `str::lines` does: a final newline
/// ends the last line and opens no new one. A carriage return before a newline
/// stays in its line; every reader of lines here trims it away as whitespace.
pub open spec fn lines(s: Seq<char>) -> Seq<Seq<char>> {
    let (done, cur) = lines_acc(s);
    if cur.len() > 0 {
        done.push(cur)
    } else {
        done
    }
}

/// Splits a text into its lines.
pub fn split_lines(s: &[char]) -> (r: Vec<Vec<char>>)
    ensures
        r@.len() == lines(s@).len(),
        forall|i: int| 0 <= i < r@.len() ==> #[trigger] r@[i]@ == lines(s@)[i],
{
    let mut done: Vec<Vec<char>> = Vec::new();
    let mut cur: Vec<char> = Vec::new();
    for i in 0..s.len()
        invariant
            done@.len() == lines_acc(s@.take(i as int)).0.len(),
            forall|j: int|
                0 <= j < done@.len() ==> #[trigger] done@[j]@ == lines_acc(s@.take(i as int)).0[j],
            cur@ == lines_acc(s@.take(i as int)).1,
    {
        assert(s@.take(i + 1).drop_last() == s@.take(i as int));
        if s[i] == '\n' {
            let line = cur;
            cur = Vec::new();
            done.push(line);
        } else {
            cur.push(s[i]);
        }
    }
    assert(s@.take(s.len() as int) == s@);
    if cur.len() > 0 {
        done.push(cur);
    }
    done
}

// ---------------------------------------------------------------------------
// Whitespace-separated words
// ---------------------------------------------------------------------------
/// Words finished so far, and the word under way, after reading `s`.
pub open spec fn words_acc(s: Seq<char>) -> (Seq<Seq<char>>, Seq<char>)
    decreases s.len(),
{
    if s.len() == 0 {
        (Seq::empty(), Seq::empty())
    } else {
        let (done, cur) = words_acc(s.drop_last());
        let c = s.last();
        if is_ws(c) {
            if cur.len() > 0 {
                (done.push(cur), Seq::empty())
            } else {
                (done, cur)
            }
        } else {
            (done, cur.push(c))
        }
    }
}

/// The maximal runs of non-whitespace characters (`str::split_whitespace`).
pub open spec fn words(s: Seq<char>) -> Seq<Seq<char>> {
    let (done, cur) = words_acc(s);
    if cur.len() > 0 {
        done.push(cur)
    } else {
        done
    }
}

/// The first word, or the empty text when there is none
/// (`split_whitespace().next().unwrap_or("")`).
pub open spec fn first_word(s: Seq<char>) -> Seq<char> {
    if words(s).len() > 0 {
        words(s)[0]
    } else {
        Seq::empty()
    }
}

pub proof fn lemma_words_nonempty(s: Seq<char>)
    ensures
        forall|i: int| 0 <= i < words(s).len() ==> #[trigger] words(s)[i].len() > 0,
        forall|i: int| 0 <= i < words_acc(s).0.len() ==> #[trigger] words_acc(s).0[i].len() > 0,
    decreases s.len(),
{
    if s.len() > 0 {
        lemma_words_nonempty(s.drop_last());
        let (done, cur) = words_acc(s.drop_last());
        assert forall|i: int| 0 <= i < words_acc(s).0.len() implies #[trigger] words_acc(
            s,
        ).0[i].len() > 0 by {
            if i < done.len() {
                assert(words_acc(s).0[i] == done[i]);
            }
        }
    }
    let (d, c) = words_acc(s);
    assert forall|i: int| 0 <= i < words(s).len() implies #[trigger] words(s)[i].len() > 0 by {
        if i < d.len() {
            assert(words(s)[i] == d[i]);
        }
    }
}

/// Splits a text into its whitespace-separated words.
pub fn split_words(s: &[char]) -> (r: Vec<Vec<char>>)
    ensures
        r@.len() == words(s@).len(),
        forall|i: int| 0 <= i < r@.len() ==> #[trigger] r@[i]@ == words(s@)[i],
{
    let mut done: Vec<Vec<char>> = Vec::new();
    let mut cur: Vec<char> = Vec::new();
    for i in 0..s.len()
        invariant
            done@.len() == words_acc(s@.take(i as int)).0.len(),
            forall|j: int|
                0 <= j < done@.len() ==> #[trigger] done@[j]@ == words_acc(s@.take(i as int)).0[j],
            cur@ == words_acc(s@.take(i as int)).1,
    {
        assert(s@.take(i + 1).drop_last() == s@.take(i as int));
        if is_whitespace(s[i]) {
            if cur.len() > 0 {
                let w = cur;
                cur = Vec::new();
                done.push(w);
            }
        } else {
            cur.push(s[i]);
        }
    }
    assert(s@.take(s.len() as int) == s@);
    if cur.len() > 0 {
        done.push(cur);
    }
    done
}

/// The first whitespace-separated word of a text, or nothing.
pub fn first_word_of(s: &[char]) -> (w: Vec<char>)
    ensures
        w@ == first_word(s@),
{
    let ws = split_words(s);
    if ws.len() > 0 {
        let mut w: Vec<char> = Vec::new();
        push_chars(&mut w, ws[0].as_slice());
        w
    } else {
        Vec::new()
    }
}

// ---------------------------------------------------------------------------
// Unicode case
// ---------------------------------------------------------------------------
/// What `str::to_lowercase` gives for a text: its Unicode lowercase form.
pub uninterp spec fn lowercase(s: Seq<char>) -> Seq<char>;

/// Every character is ASCII.
pub open spec fn is_ascii_text(s: Seq<char>) -> bool {
    forall|i: int| 0 <= i < s.len() ==> (#[trigger] s[i] as u32) < 128
}

/// Calls `str::to_lowercase`. Claimed: the result is `lowercase` of the text,
/// that is, it depends on the text alone; and for an ASCII text it is the
/// ASCII lowercase form (`A`-`Z` become `a`-`z`, the rest stays), as the
/// Unicode lowercase mapping of ASCII characters is. Of other texts nothing
/// more is stated.
#[verifier::external_body]
pub(crate) fn to_lowercase(s: &str) -> (r: String)
    ensures
        r@ == lowercase(s@),
        is_ascii_text(s@) ==> r@ == ascii_lower(s@),
{
    s.to_lowercase()
}

// ---------------------------------------------------------------------------
// ASCII case
// ---------------------------------------------------------------------------
pub open spec fn ascii_lower_char(c: char) -> char {
    if 'A' <= c <= 'Z' {
        ((c as u32) + 32) as char
    } else {
        c
    }
}

/// `str::to_ascii_lowercase`.
pub open spec fn ascii_lower(s: Seq<char>) -> Seq<char> {
    s.map_values(|c: char| ascii_lower_char(c))
}

pub fn to_ascii_lower_char(c: char) -> (r: char)
    ensures
        r == ascii_lower_char(c),
{
    if 'A' <= c && c <= 'Z' {
        let u = (c as u32) + 32;
        assert(0x61 <= u <= 0x7a);
        char_from_ascii(u as u8)
    } else {
        c
    }
}

/// The character of an ASCII code.
pub fn char_from_ascii(b: u8) -> (c: char)
    requires
        b < 128,
    ensures
        c as u32 == b as u32,
{
    b as char
}

pub fn to_ascii_lower(s: &[char]) -> (r: Vec<char>)
    ensures
        r@ == ascii_lower(s@),
{
    let mut r: Vec<char> = Vec::new();
    for i in 0..s.len()
        invariant
            r@ == ascii_lower(s@.take(i as int)),
    {
        r.push(to_ascii_lower_char(s[i]));
        assert(ascii_lower(s@.take(i + 1)) == ascii_lower(s@.take(i as int)).push(
            ascii_lower_char(s@[i as int]),
        ));
    }
    assert(s@.take(s.len() as int) == s@);
    r
}

/// Whether two character sequences are equal.
pub fn chars_eq(a: &[char], b: &[char]) -> (r: bool)
    ensures
        r == (a@ == b@),
{
    if a.len() != b.len() {
        return false;
    }
    for i in 0..a.len()
        invariant
            a.len() == b.len(),
            forall|j: int| 0 <= j < i ==> a@[j] == b@[j],
    {
        if a[i] != b[i] {
            return false;
        }
    }
    assert(a@ == b@);
    true
}

/// Whether a character sequence equals a string slice.
pub fn chars_eq_str(a: &[char], b: &str) -> (r: bool)
    ensures
        r == (a@ == b@),
{
    let bs = chars_of(b);
    chars_eq(a, bs.as_slice())
}

// ---------------------------------------------------------------------------
// Prefixes and searching
// ---------------------------------------------------------------------------
/// `s` begins with `p`.
pub open spec fn has_prefix(s: Seq<char>, p: Seq<char>) -> bool {
    p.len() <= s.len() && s.take(p.len() as int) == p
}

/// Whether `s[lo..hi]` begins with the characters of `p`.
pub fn range_starts_with(s: &[char], lo: usize, hi: usize, p: &str) -> (b: bool)
    requires
        lo <= hi <= s.len(),
    ensures
        b == has_prefix(s@.subrange(lo as int, hi as int), p@),
{
    let pc = chars_of(p);
    if pc.len() > hi - lo {
        return false;
    }
    let ghost t = s@.subrange(lo as int, hi as int);
    for i in 0..pc.len()
        invariant
            pc@ == p@,
            lo + pc.len() <= hi <= s.len(),
            t == s@.subrange(lo as int, hi as int),
            forall|j: int| 0 <= j < i ==> t[j] == pc@[j],
    {
        if s[lo + i] != pc[i] {
            assert(t[i as int] == s@[lo + i]);
            assert(t.take(pc.len() as int)[i as int] != pc@[i as int]);
            return false;
        }
        assert(t[i as int] == s@[lo + i]);
    }
    assert(t.take(pc.len() as int) == pc@);
    true
}

/// What follows the prefix `p` of `s`, if `s` begins with `p`
/// (`str::strip_prefix`).
pub open spec fn strip_prefix(s: Seq<char>, p: Seq<char>) -> Option<Seq<char>> {
    if has_prefix(s, p) {
        Some(s.skip(p.len() as int))
    } else {
        None
    }
}

/// Where `s[lo..hi]` continues after the prefix `p`, if it begins with `p`.
pub fn range_strip_prefix(s: &[char], lo: usize, hi: usize, p: &str) -> (r: Option<usize>)
    requires
        lo <= hi <= s.len(),
    ensures
        match r {
            Some(k) => lo <= k <= hi && strip_prefix(s@.subrange(lo as int, hi as int), p@) == Some(
                s@.subrange(k as int, hi as int),
            ),
            None => strip_prefix(s@.subrange(lo as int, hi as int), p@) is None,
        },
{
    if range_starts_with(s, lo, hi, p) {
        let n = p.unicode_len();
        assert(s@.subrange(lo as int, hi as int).skip(n as int) == s@.subrange(lo + n, hi as int));
        Some(lo + n)
    } else {
        None
    }
}

/// The text before and after the first `c` in `s`, if `s` holds a `c`.
pub open spec fn split_first(s: Seq<char>, c: char) -> Option<(Seq<char>, Seq<char>)>
    decreases s.len(),
{
    if s.len() == 0 {
        None
    } else if s[0] == c {
        Some((Seq::empty(), s.drop_first()))
    } else {
        match split_first(s.drop_first(), c) {
            None => None,
            Some((a, b)) => Some((seq![s[0]] + a, b)),
        }
    }
}

pub proof fn lemma_split_first(s: Seq<char>, c: char, i: int)
    requires
        0 <= i <= s.len(),
        forall|j: int| 0 <= j < i ==> s[j] != c,
        i < s.len() ==> s[i] == c,
    ensures
        split_first(s, c) == if i < s.len() {
            Some((s.take(i), s.skip(i + 1)))
        } else {
            None::<(Seq<char>, Seq<char>)>
        },
    decreases i,
{
    if i > 0 {
        lemma_split_first(s.drop_first(), c, i - 1);
        if i < s.len() {
            assert(s.drop_first().skip(i) == s.skip(i + 1));
            assert(seq![s[0]] + s.drop_first().take(i - 1) == s.take(i));
        }
    } else if s.len() > 0 {
        assert(s.skip(1) == s.drop_first());
        assert(s.take(0) == Seq::<char>::empty());
    }
}

/// Splits `s[lo..hi]` at its first `c`: the index of that `c`, or `hi`.
pub fn find_split(s: &[char], lo: usize, hi: usize, c: char) -> (k: usize)
    requires
        lo <= hi <= s.len(),
    ensures
        lo <= k <= hi,
        split_first(s@.subrange(lo as int, hi as int), c) == if k < hi {
            Some((s@.subrange(lo as int, k as int), s@.subrange(k + 1, hi as int)))
        } else {
            None::<(Seq<char>, Seq<char>)>
        },
{
    let k = find_char(s, lo, hi, c);
    proof {
        let t = s@.subrange(lo as int, hi as int);
        assert forall|j: int| 0 <= j < k - lo implies t[j] != c by {
            assert(t[j] == s@[lo + j]);
        }
        if k < hi {
            assert(t[k - lo] == s@[k as int]);
            assert(t.skip(k - lo + 1) == s@.subrange(k + 1, hi as int));
            assert(t.take(k - lo) == s@.subrange(lo as int, k as int));
        }
        lemma_split_first(t, c, k - lo);
    }
    k
}

/// What follows the first `c` in `s`, if `s` holds a `c`.
pub open spec fn after_first(s: Seq<char>, c: char) -> Option<Seq<char>>
    decreases s.len(),
{
    if s.len() == 0 {
        None
    } else if s[0] == c {
        Some(s.drop_first())
    } else {
        after_first(s.drop_first(), c)
    }
}

pub proof fn lemma_after_first(s: Seq<char>, c: char, i: int)
    requires
        0 <= i <= s.len(),
        forall|j: int| 0 <= j < i ==> s[j] != c,
        i < s.len() ==> s[i] == c,
    ensures
        after_first(s, c) == if i < s.len() {
            Some(s.skip(i + 1))
        } else {
            None::<Seq<char>>
        },
    decreases i,
{
    if i > 0 {
        lemma_after_first(s.drop_first(), c, i - 1);
        if i < s.len() {
            assert(s.drop_first().skip(i) == s.skip(i + 1));
        }
    } else if s.len() > 0 {
        assert(s.skip(1) == s.drop_first());
    }
}

/// Index of the first `c` in `s[lo..hi]`, or `hi`.
pub fn find_char(s: &[char], lo: usize, hi: usize, c: char) -> (k: usize)
    requires
        lo <= hi <= s.len(),
    ensures
        lo <= k <= hi,
        forall|j: int| lo <= j < k ==> s@[j] != c,
        k < hi ==> s@[k as int] == c,
        after_first(s@.subrange(lo as int, hi as int), c) == if k < hi {
            Some(s@.subrange(k + 1, hi as int))
        } else {
            None::<Seq<char>>
        },
{
    let mut k = lo;
    while k < hi && s[k] != c
        invariant
            lo <= k <= hi <= s.len(),
            forall|j: int| lo <= j < k ==> s@[j] != c,
        decreases hi - k,
    {
        k = k + 1;
    }
    proof {
        let t = s@.subrange(lo as int, hi as int);
        assert forall|j: int| 0 <= j < k - lo implies t[j] != c by {
            assert(t[j] == s@[lo + j]);
        }
        if k < hi {
            assert(t[k - lo] == s@[k as int]);
            assert(t.skip(k - lo + 1) == s@.subrange(k + 1, hi as int));
        }
        lemma_after_first(t, c, k - lo);
    }
    k
}

} // verus!
