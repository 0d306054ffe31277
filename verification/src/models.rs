//! Domain types for shell history entries.
use vstd::prelude::*;
use crate::text::{
    ascii_lower, chars_eq_str, chars_of, copy_range, is_whitespace, is_ws, skip_ws, string_of,
    to_ascii_lower, trim_start,
};

verus! {

/// One parsed line from a shell history file.
///
/// Holds the raw input line, the extracted base command, and an optional
/// timestamp (Unix epoch seconds) when the shell records one (zsh extended,
/// fish, or bash with `HISTTIMEFORMAT`).
#[derive(Debug, Clone, PartialEq, Eq)]
pub struct HistoryEntry {
    /// The full raw command line as it appeared in the history file.
    pub raw: String,
    /// The extracted base command (first token, no args).
    pub command: String,
    /// Unix epoch seconds, when the shell records one.
    pub timestamp: Option<u64>,
}

/// What a history entry holds, as text.
pub struct EntryModel {
    pub raw: Seq<char>,
    pub command: Seq<char>,
    pub timestamp: Option<u64>,
}

impl View for HistoryEntry {
    type V = EntryModel;

    open spec fn view(&self) -> EntryModel {
        EntryModel { raw: self.raw@, command: self.command@, timestamp: self.timestamp }
    }
}

/// The models of a sequence of entries.
pub open spec fn entries_view(v: Seq<HistoryEntry>) -> Seq<EntryModel> {
    v.map_values(|e: HistoryEntry| e@)
}

/// The model of an entry built from its parts.
pub open spec fn entry_model(raw: Seq<char>, command: Seq<char>, timestamp: Option<u64>) -> EntryModel {
    EntryModel { raw, command, timestamp }
}

impl HistoryEntry {
    /// Create a new entry from a raw line and its extracted command (no timestamp).
    pub fn new(raw: &str, command: &str) -> (e: Self)
        ensures
            e@ == entry_model(raw@, command@, None),
    {
        HistoryEntry { raw: raw.to_owned(), command: command.to_owned(), timestamp: None }
    }

    /// Attach a timestamp to this entry (builder style).
    pub fn with_timestamp(self, timestamp: u64) -> (e: Self)
        ensures
            e@ == entry_model(self@.raw, self@.command, Some(timestamp)),
    {
        let mut e = self;
        e.timestamp = Some(timestamp);
        e
    }

    /// An entry from the characters of its raw line and command.
    pub fn from_chars(raw: &[char], command: &[char], timestamp: Option<u64>) -> (e: Self)
        ensures
            e@ == entry_model(raw@, command@, timestamp),
    {
        HistoryEntry { raw: string_of(raw), command: string_of(command), timestamp }
    }

    /// A copy of this entry.
    pub fn duplicate(&self) -> (e: Self)
        ensures
            e@ == self@,
    {
        HistoryEntry { raw: self.raw.clone(), command: self.command.clone(), timestamp: self.timestamp }
    }
}

// ---------------------------------------------------------------------------
// Command prefixes
// ---------------------------------------------------------------------------
/// The number of leading characters of `s` that are not whitespace.
pub open spec fn word_len(s: Seq<char>) -> nat
    decreases s.len(),
{
    if s.len() > 0 && !is_ws(s[0]) {
        1 + word_len(s.drop_first())
    } else {
        0
    }
}

pub proof fn lemma_word_len(s: Seq<char>, k: int)
    requires
        0 <= k <= s.len(),
        forall|j: int| 0 <= j < k ==> !is_ws(#[trigger] s[j]),
        k == s.len() || is_ws(s[k]),
    ensures
        word_len(s) == k,
    decreases k,
{
    if k > 0 {
        lemma_word_len(s.drop_first(), k - 1);
    }
}

pub proof fn lemma_word_len_bound(s: Seq<char>)
    ensures
        word_len(s) <= s.len(),
    decreases s.len(),
{
    if s.len() > 0 && !is_ws(s[0]) {
        lemma_word_len_bound(s.drop_first());
    }
}

pub proof fn lemma_trim_start_shorter(s: Seq<char>)
    ensures
        trim_start(s).len() <= s.len(),
    decreases s.len(),
{
    if s.len() > 0 && is_ws(s[0]) {
        lemma_trim_start_shorter(s.drop_first());
    }
}

pub open spec fn is_ascii_alpha(c: char) -> bool {
    ('a' <= c <= 'z') || ('A' <= c <= 'Z')
}

pub open spec fn is_ident_start(c: char) -> bool {
    is_ascii_alpha(c) || c == '_'
}

pub open spec fn is_ident_char(c: char) -> bool {
    is_ascii_alpha(c) || ('0' <= c <= '9') || c == '_'
}

/// `NAME=value` where `NAME`, the text before the first `=`, is a shell
/// variable name: an ASCII letter or `_`, then ASCII letters, digits or `_`.
pub open spec fn is_env_assignment(t: Seq<char>) -> bool {
    exists|k: int| #[trigger] assignment_at(t, k)
}

/// `t[k]` is an `=` and the text before it is a shell variable name.
pub open spec fn assignment_at(t: Seq<char>, k: int) -> bool {
    &&& 0 < k < t.len()
    &&& t[k] == '='
    &&& is_ident_start(t[0])
    &&& forall|j: int| 0 <= j < k ==> is_ident_char(#[trigger] t[j])
}

/// `sudo`, in any ASCII case.
pub open spec fn is_sudo(t: Seq<char>) -> bool {
    ascii_lower(t) == seq!['s', 'u', 'd', 'o']
}

/// A token that `strip_command_prefixes` removes.
pub open spec fn is_prefix_token(t: Seq<char>) -> bool {
    is_sudo(t) || is_env_assignment(t)
}

/// Prefix stripping from `rest`, a suffix of `raw` without leading whitespace.
pub open spec fn strip_rest(raw: Seq<char>, rest: Seq<char>) -> Seq<char>
    decreases rest.len(),
{
    let tok = rest.take(word_len(rest) as int);
    if tok.len() == 0 {
        raw
    } else if !is_prefix_token(tok) {
        rest
    } else {
        let rem = trim_start(rest.skip(tok.len() as int));
        if rem.len() == 0 {
            raw
        } else {
            proof {
                lemma_word_len_bound(rest);
                lemma_trim_start_shorter(rest.skip(tok.len() as int));
            }
            strip_rest(raw, rem)
        }
    }
}

/// The line without its leading `sudo` and `VAR=value` tokens; the whole line
/// when nothing else is left.
pub open spec fn stripped_command(raw: Seq<char>) -> Seq<char> {
    strip_rest(raw, trim_start(raw))
}

/// `b` is the end of `a`: what is left of `a` from some position on.
pub open spec fn is_suffix(b: Seq<char>, a: Seq<char>) -> bool {
    b.len() <= a.len() && a.skip(a.len() - b.len()) == b
}

proof fn lemma_suffix_trans(c: Seq<char>, b: Seq<char>, a: Seq<char>)
    requires
        is_suffix(c, b),
        is_suffix(b, a),
    ensures
        is_suffix(c, a),
{
    assert(a.skip(a.len() - c.len()) =~= b.skip(b.len() - c.len()));
}

proof fn lemma_skip_suffix(s: Seq<char>, k: int)
    requires
        0 <= k <= s.len(),
    ensures
        is_suffix(s.skip(k), s),
{
    assert(s.skip(s.len() - s.skip(k).len()) =~= s.skip(k));
}

proof fn lemma_trim_start_suffix(s: Seq<char>)
    ensures
        is_suffix(trim_start(s), s),
    decreases s.len(),
{
    if s.len() > 0 && is_ws(s[0]) {
        lemma_trim_start_suffix(s.drop_first());
        lemma_skip_suffix(s, 1);
        assert(s.skip(1) =~= s.drop_first());
        lemma_suffix_trans(trim_start(s.drop_first()), s.drop_first(), s);
    } else {
        assert(s.skip(0) =~= s);
    }
}

proof fn lemma_strip_rest_suffix(raw: Seq<char>, rest: Seq<char>)
    requires
        is_suffix(rest, raw),
    ensures
        is_suffix(strip_rest(raw, rest), raw),
    decreases rest.len(),
{
    assert(raw.skip(0) =~= raw);
    let tok = rest.take(word_len(rest) as int);
    lemma_word_len_bound(rest);
    if tok.len() > 0 && is_prefix_token(tok) {
        let after = rest.skip(tok.len() as int);
        let rem = trim_start(after);
        lemma_skip_suffix(rest, tok.len() as int);
        lemma_trim_start_suffix(after);
        lemma_suffix_trans(rem, after, rest);
        lemma_suffix_trans(rem, rest, raw);
        if rem.len() > 0 {
            lemma_trim_start_shorter(after);
            lemma_strip_rest_suffix(raw, rem);
        }
    }
}

/// What `strip_command_prefixes` gives is a part of the line: its end, from
/// some position on.
pub proof fn lemma_stripped_is_suffix(raw: Seq<char>)
    ensures
        is_suffix(stripped_command(raw), raw),
{
    lemma_trim_start_suffix(raw);
    lemma_strip_rest_suffix(raw, trim_start(raw));
}

proof fn lemma_trim_start_idempotent(s: Seq<char>)
    ensures
        trim_start(trim_start(s)) == trim_start(s),
    decreases s.len(),
{
    if s.len() > 0 && is_ws(s[0]) {
        lemma_trim_start_idempotent(s.drop_first());
    }
}

/// Prefix stripping ends either with the whole line or with a part that
/// stripping leaves as it is.
proof fn lemma_strip_rest_stable(raw: Seq<char>, rest: Seq<char>)
    requires
        trim_start(rest) == rest,
    ensures
        strip_rest(raw, rest) == raw || strip_rest(strip_rest(raw, rest), strip_rest(raw, rest))
            == strip_rest(raw, rest),
    decreases rest.len(),
{
    let tok = rest.take(word_len(rest) as int);
    if tok.len() > 0 && is_prefix_token(tok) {
        let rem = trim_start(rest.skip(tok.len() as int));
        if rem.len() > 0 {
            lemma_word_len_bound(rest);
            lemma_trim_start_shorter(rest.skip(tok.len() as int));
            lemma_trim_start_idempotent(rest.skip(tok.len() as int));
            lemma_strip_rest_stable(raw, rem);
        }
    }
}

/// Stripping the prefixes a second time changes nothing.
pub proof fn lemma_strip_idempotent(raw: Seq<char>)
    ensures
        stripped_command(stripped_command(raw)) == stripped_command(raw),
{
    let r = stripped_command(raw);
    lemma_trim_start_idempotent(raw);
    lemma_strip_rest_stable(raw, trim_start(raw));
    if r != raw {
        lemma_strip_rest_trimmed(raw, trim_start(raw));
        assert(trim_start(r) == r);
    }
}

/// What stripping gives, where it is not the whole line, has no leading
/// whitespace.
proof fn lemma_strip_rest_trimmed(raw: Seq<char>, rest: Seq<char>)
    requires
        trim_start(rest) == rest,
    ensures
        strip_rest(raw, rest) == raw || trim_start(strip_rest(raw, rest)) == strip_rest(raw, rest),
    decreases rest.len(),
{
    let tok = rest.take(word_len(rest) as int);
    if tok.len() > 0 && is_prefix_token(tok) {
        let rem = trim_start(rest.skip(tok.len() as int));
        if rem.len() > 0 {
            lemma_word_len_bound(rest);
            lemma_trim_start_shorter(rest.skip(tok.len() as int));
            lemma_trim_start_idempotent(rest.skip(tok.len() as int));
            lemma_strip_rest_trimmed(raw, rem);
        }
    }
}

/// Strip leading `sudo` and `VAR=value` tokens from a raw command line.
///
/// Returns a substring of the input with the prefixes removed. If the line
/// consists only of prefix tokens (e.g. bare `sudo`), the input is returned
/// unchanged so it still counts as `sudo`.
pub fn strip_command_prefixes(raw: &str) -> (r: &str)
    ensures
        r@ == stripped_command(raw@),
{
    let cs = chars_of(raw);
    let n = cs.len();
    let mut a = skip_ws(cs.as_slice(), 0, n);
    assert(cs@.subrange(0, n as int) == cs@);
    loop
        invariant
            a <= n == cs@.len(),
            cs@ == raw@,
            stripped_command(raw@) == strip_rest(raw@, cs@.subrange(a as int, n as int)),
        decreases n - a,
    {
        let ghost rest = cs@.subrange(a as int, n as int);
        let t = scan_word(cs.as_slice(), a, n);
        proof {
            assert forall|j: int| 0 <= j < t - a implies !is_ws(#[trigger] rest[j]) by {
                assert(rest[j] == cs@[a + j]);
            }
            if t < n {
                assert(rest[t - a] == cs@[t as int]);
            }
            lemma_word_len(rest, t - a);
            assert(rest.take(t - a) == cs@.subrange(a as int, t as int));
        }
        if t == a {
            return raw;
        }
        let prefix = is_sudo_at(cs.as_slice(), a, t) || is_env_assign(cs.as_slice(), a, t);
        if !prefix {
            return raw.substring_char(a, n);
        }
        let b = skip_ws(cs.as_slice(), t, n);
        assert(rest.skip(t - a) == cs@.subrange(t as int, n as int));
        if b == n {
            return raw;
        }
        a = b;
    }
}

/// End of the run of non-whitespace characters that starts at `lo`.
fn scan_word(s: &[char], lo: usize, hi: usize) -> (k: usize)
    requires
        lo <= hi <= s.len(),
    ensures
        lo <= k <= hi,
        forall|j: int| lo <= j < k ==> !is_ws(#[trigger] s@[j]),
        k == hi || is_ws(s@[k as int]),
{
    let mut k = lo;
    while k < hi && !is_whitespace(s[k])
        invariant
            lo <= k <= hi <= s.len(),
            forall|j: int| lo <= j < k ==> !is_ws(#[trigger] s@[j]),
        decreases hi - k,
    {
        k = k + 1;
    }
    k
}

/// Whether `s[lo..hi]` is `sudo` in any ASCII case.
fn is_sudo_at(s: &[char], lo: usize, hi: usize) -> (b: bool)
    requires
        lo <= hi <= s.len(),
    ensures
        b == is_sudo(s@.subrange(lo as int, hi as int)),
{
    let t = copy_range(s, lo, hi);
    let lower = to_ascii_lower(t.as_slice());
    let r = chars_eq_str(lower.as_slice(), "sudo");
    proof {
        reveal_strlit("sudo");
        assert("sudo"@ == seq!['s', 'u', 'd', 'o']);
    }
    r
}

fn is_ascii_alpha_char(c: char) -> (b: bool)
    ensures
        b == is_ascii_alpha(c),
{
    ('a' <= c && c <= 'z') || ('A' <= c && c <= 'Z')
}

/// Whether `s[lo..hi]` is a `NAME=value` assignment.
fn is_env_assign(s: &[char], lo: usize, hi: usize) -> (b: bool)
    requires
        lo <= hi <= s.len(),
    ensures
        b == is_env_assignment(s@.subrange(lo as int, hi as int)),
{
    let ghost t = s@.subrange(lo as int, hi as int);
    if lo == hi {
        assert(forall|m: int| !#[trigger] assignment_at(t, m));
        return false;
    }
    let c0 = s[lo];
    if !(is_ascii_alpha_char(c0) || c0 == '_') {
        assert(t[0] == c0);
        assert(forall|m: int| !#[trigger] assignment_at(t, m));
        return false;
    }
    let mut k = lo;
    while k < hi && s[k] != '='
        invariant
            lo <= k <= hi <= s.len(),
            t == s@.subrange(lo as int, hi as int),
            forall|j: int| lo <= j < k ==> s@[j] != '=',
        decreases hi - k,
    {
        k = k + 1;
    }
    if k == hi {
        proof {
            assert forall|m: int| !#[trigger] assignment_at(t, m) by {
                if 0 < m < t.len() {
                    assert(t[m] == s@[lo + m]);
                }
            }
        }
        return false;
    }
    // `s[k]` is the first `=`; the name before it must be an identifier.
    let mut i = lo;
    while i < k
        invariant
            lo <= i <= k < hi <= s.len(),
            t == s@.subrange(lo as int, hi as int),
            forall|j: int| lo <= j < k ==> s@[j] != '=',
            forall|j: int| lo <= j < i ==> is_ident_char(#[trigger] s@[j]),
        decreases k - i,
    {
        let c = s[i];
        if !(is_ascii_alpha_char(c) || ('0' <= c && c <= '9') || c == '_') {
            proof {
                assert forall|m: int| !#[trigger] assignment_at(t, m) by {
                    if 0 < m < t.len() && t[m] == '=' {
                        assert(t[m] == s@[lo + m]);
                        assert(lo + m >= k);
                        assert(t[i - lo] == c);
                    }
                }
            }
            return false;
        }
        i = i + 1;
    }
    proof {
        let m = k - lo;
        assert(t[m] == s@[k as int]);
        assert(t[0] == c0);
        assert forall|j: int| 0 <= j < m implies is_ident_char(#[trigger] t[j]) by {
            assert(t[j] == s@[lo + j]);
        }
        assert(m > 0) by {
            if m == 0 {
                assert(s@[lo as int] == c0);
            }
        }
        assert(assignment_at(t, m));
    }
    true
}

} // verus!
