//! Search / regex filtering over ranked commands.
use vstd::prelude::*;
use crate::aggregators::command_map::pairs_view;
use crate::output::stats::sum_counts;

verus! {

#[verifier::external_type_specification]
#[verifier::external_body]
pub struct ExRegex(regex::Regex);

#[verifier::external_type_specification]
#[verifier::external_body]
pub struct ExRegexError(regex::Error);

/// Whether `regex::Regex::new` accepts a pattern.
pub uninterp spec fn regex_compiles(pattern: Seq<char>) -> bool;

/// Whether the regex compiled from `pattern` matches somewhere in `haystack`
/// (`regex::Regex::is_match`).
pub uninterp spec fn regex_is_match(pattern: Seq<char>, haystack: Seq<char>) -> bool;

/// Calls `regex::Regex::new`. Claimed: it succeeds exactly when
/// `regex_compiles` holds of the pattern, that is, whether it succeeds
/// depends on the pattern alone; nothing is claimed of the regex it builds.
#[verifier::external_body]
fn compile_regex(pattern: &str) -> (r: Result<regex::Regex, regex::Error>)
    ensures
        r is Ok <==> regex_compiles(pattern@),
{
    regex::Regex::new(pattern)
}

/// Calls `Display` of `regex::Error`, the error's message. Nothing is claimed
/// of the message.
#[verifier::external_body]
fn regex_error_message(e: &regex::Error) -> String {
    e.to_string()
}

/// Calls `regex::Regex::is_match` on the regex that the pattern holds.
/// Claimed: the result is `regex_is_match` of the pattern's source text and
/// the haystack, a function of the two texts alone. This rests on the regex
/// having been built from that source, which `CommandPattern::new`, the only
/// way to make a pattern, ensures.
#[verifier::external_body]
fn regex_matches(pattern: &CommandPattern, haystack: &str) -> (b: bool)
    ensures
        b == regex_is_match(pattern@, haystack@),
{
    pattern.regex.is_match(haystack)
}

/// A compiled regular expression together with the pattern it was compiled
/// from.
pub struct CommandPattern {
    source: String,
    regex: regex::Regex,
}

impl View for CommandPattern {
    type V = Seq<char>;

    closed spec fn view(&self) -> Seq<char> {
        self.source@
    }
}

/// Why a pattern was refused.
pub struct PatternError {
    /// The regex engine's message.
    pub message: String,
}

impl CommandPattern {
    /// Compiles a pattern.
    pub fn new(pattern: &str) -> (r: Result<CommandPattern, PatternError>)
        ensures
            r is Ok <==> regex_compiles(pattern@),
            r matches Ok(p) ==> p@ == pattern@,
    {
        match compile_regex(pattern) {
            Ok(regex) => Ok(CommandPattern { source: pattern.to_owned(), regex }),
            Err(e) => Err(PatternError { message: regex_error_message(&e) }),
        }
    }

    /// The pattern's source text.
    pub fn as_str(&self) -> (r: &str)
        ensures
            r@ == self@,
    {
        self.source.as_str()
    }

    /// Whether the pattern matches somewhere in a text.
    pub fn is_match(&self, haystack: &str) -> (b: bool)
        ensures
            b == regex_is_match(self@, haystack@),
    {
        regex_matches(self, haystack)
    }
}

/// The pairs whose mark is set, in their order.
pub open spec fn marked(ps: Seq<(Seq<char>, usize)>, keep: Seq<bool>) -> Seq<(Seq<char>, usize)>
    decreases ps.len(),
{
    if ps.len() == 0 {
        ps
    } else {
        let rest = marked(ps.drop_last(), keep);
        if keep[ps.len() - 1] {
            rest.push(ps.last())
        } else {
            rest
        }
    }
}

/// Keeping the marked pairs leaves no more in total than there was.
pub proof fn lemma_marked_sum(ps: Seq<(Seq<char>, usize)>, keep: Seq<bool>)
    ensures
        sum_counts(marked(ps, keep)) <= sum_counts(ps),
    decreases ps.len(),
{
    if ps.len() > 0 {
        lemma_marked_sum(ps.drop_last(), keep);
        let rest = marked(ps.drop_last(), keep);
        assert(rest.push(ps.last()).drop_last() == rest);
    }
}

/// The pairs whose name the pattern matches, in their order.
pub open spec fn matching(ps: Seq<(Seq<char>, usize)>, pattern: Seq<char>) -> Seq<(Seq<char>, usize)> {
    marked(ps, ps.map_values(|p: (Seq<char>, usize)| regex_is_match(pattern, p.0)))
}

/// Keeps the pairs whose mark is set (`keep[i]` for the `i`-th pair).
pub fn retain_marked(ranked: &[(String, usize)], keep: &[bool]) -> (r: Vec<(String, usize)>)
    requires
        keep.len() == ranked.len(),
    ensures
        pairs_view(r@) == marked(pairs_view(ranked@), keep@),
{
    let ghost ps = pairs_view(ranked@);
    let mut out: Vec<(String, usize)> = Vec::new();
    for i in 0..ranked.len()
        invariant
            keep.len() == ranked.len(),
            ps == pairs_view(ranked@),
            pairs_view(out@) == marked(ps.take(i as int), keep@),
    {
        assert(ps.take(i + 1).drop_last() == ps.take(i as int));
        assert(ps.take(i + 1).last() == (ranked@[i as int].0@, ranked@[i as int].1));
        if keep[i] {
            let ghost before = out@;
            out.push((ranked[i].0.clone(), ranked[i].1));
            assert(pairs_view(out@) == pairs_view(before).push(pairs_view(out@).last()));
        }
    }
    assert(ps.take(ranked.len() as int) == ps);
    out
}

/// Keep only ranked commands whose name matches the regex.
pub fn grep_filter(ranked: &[(String, usize)], pattern: &CommandPattern) -> (r: Vec<(String, usize)>)
    ensures
        pairs_view(r@) == matching(pairs_view(ranked@), pattern@),
{
    let ghost ps = pairs_view(ranked@);
    let mut keep: Vec<bool> = Vec::new();
    for i in 0..ranked.len()
        invariant
            ps == pairs_view(ranked@),
            keep@.len() == i,
            forall|j: int| 0 <= j < i ==> #[trigger] keep@[j] == regex_is_match(pattern@, ps[j].0),
    {
        keep.push(pattern.is_match(ranked[i].0.as_str()));
    }
    assert(keep@ =~= ps.map_values(|p: (Seq<char>, usize)| regex_is_match(pattern@, p.0)));
    retain_marked(ranked, keep.as_slice())
}

} // verus!
