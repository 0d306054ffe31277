//! Summary statistics of a ranked command list.
use vstd::prelude::*;
use crate::aggregators::command_map::pairs_view;
use crate::aggregators::command_ranker::{RankOrder, lemma_precedes_order, precedes, precedes_exec};
use crate::binary64::{average_text, push_average};
use crate::numbers::{decimal, digit_char, push_decimal};
use crate::text::{chars_of, push_str_chars, string_of};

verus! {

/// The sum of the counts.
pub open spec fn sum_counts(ps: Seq<(Seq<char>, usize)>) -> nat
    decreases ps.len(),
{
    if ps.len() == 0 {
        0
    } else {
        sum_counts(ps.drop_last()) + ps.last().1 as nat
    }
}

/// Where the most used command stands: the one with the highest count, the
/// last by name among equal counts (the last of the list ranked by count,
/// lowest first), wherever it stands in the list.
pub open spec fn most_used_index(ps: Seq<(Seq<char>, usize)>) -> int
    decreases ps.len(),
{
    if ps.len() <= 1 {
        0
    } else {
        let i = most_used_index(ps.drop_last());
        if precedes(ps[i], ps.last(), RankOrder::CountAscending) {
            ps.len() - 1
        } else {
            i
        }
    }
}

/// Where the least used command stands: the one with the lowest count, the
/// first by name among equal counts (the head of the list ranked by count,
/// lowest first), wherever it stands in the list.
pub open spec fn least_used_index(ps: Seq<(Seq<char>, usize)>) -> int
    decreases ps.len(),
{
    if ps.len() <= 1 {
        0
    } else {
        let i = least_used_index(ps.drop_last());
        if precedes(ps.last(), ps[i], RankOrder::CountAscending) {
            ps.len() - 1
        } else {
            i
        }
    }
}

/// In the order by count, lowest first, no command comes after the most used
/// one and none comes before the least used one.
pub proof fn lemma_extreme_indices(ps: Seq<(Seq<char>, usize)>)
    requires
        ps.len() > 0,
    ensures
        0 <= most_used_index(ps) < ps.len(),
        0 <= least_used_index(ps) < ps.len(),
        forall|j: int|
            0 <= j < ps.len() ==> !precedes(
                ps[most_used_index(ps)],
                #[trigger] ps[j],
                RankOrder::CountAscending,
            ),
        forall|j: int|
            0 <= j < ps.len() ==> !precedes(
                #[trigger] ps[j],
                ps[least_used_index(ps)],
                RankOrder::CountAscending,
            ),
        forall|j: int| 0 <= j < ps.len() ==> #[trigger] ps[j].1 <= ps[most_used_index(ps)].1,
        forall|j: int| 0 <= j < ps.len() ==> ps[least_used_index(ps)].1 <= #[trigger] ps[j].1,
    decreases ps.len(),
{
    if ps.len() == 1 {
        lemma_precedes_order(ps[0], ps[0], ps[0], RankOrder::CountAscending);
    } else {
        let init = ps.drop_last();
        lemma_extreme_indices(init);
        let mi = most_used_index(init);
        let li = least_used_index(init);
        assert(init[mi] == ps[mi] && init[li] == ps[li]);
        let m = most_used_index(ps);
        let l = least_used_index(ps);
        assert forall|j: int| 0 <= j < ps.len() implies !precedes(
            ps[m],
            #[trigger] ps[j],
            RankOrder::CountAscending,
        ) by {
            lemma_precedes_order(ps[mi], ps.last(), ps[j], RankOrder::CountAscending);
            lemma_precedes_order(ps.last(), ps[mi], ps[j], RankOrder::CountAscending);
            lemma_precedes_order(ps[j], ps[j], ps[j], RankOrder::CountAscending);
            if j < ps.len() - 1 {
                assert(init[j] == ps[j]);
            }
        }
        assert forall|j: int| 0 <= j < ps.len() implies !precedes(
            #[trigger] ps[j],
            ps[l],
            RankOrder::CountAscending,
        ) by {
            lemma_precedes_order(ps[j], ps.last(), ps[li], RankOrder::CountAscending);
            lemma_precedes_order(ps[j], ps[li], ps.last(), RankOrder::CountAscending);
            if j < ps.len() - 1 {
                assert(init[j] == ps[j]);
            }
        }
    }
    let m = most_used_index(ps);
    let l = least_used_index(ps);
    assert forall|j: int| 0 <= j < ps.len() implies #[trigger] ps[j].1 <= ps[m].1 by {
        assert(!precedes(ps[m], ps[j], RankOrder::CountAscending));
    }
    assert forall|j: int| 0 <= j < ps.len() implies ps[l].1 <= #[trigger] ps[j].1 by {
        assert(!precedes(ps[j], ps[l], RankOrder::CountAscending));
    }
}

/// What the statistics of a ranked list hold, but for the average.
pub struct CountSummary {
    /// Total command occurrences (sum of counts).
    pub total_commands: usize,
    /// Number of distinct commands.
    pub unique_commands: usize,
    /// Most-used command and its count, if any.
    pub most_used: Option<(String, usize)>,
    /// Least-used command and its count, if any.
    pub least_used: Option<(String, usize)>,
}

pub open spec fn opt_pair(p: Option<(String, usize)>) -> Option<(Seq<char>, usize)> {
    match p {
        Some((s, c)) => Some((s@, c)),
        None => None,
    }
}

/// The summary: the total and number of counts, and the most and least used
/// pairs when there are any.
pub open spec fn is_summary(s: CountSummary, ps: Seq<(Seq<char>, usize)>) -> bool {
    &&& s.total_commands == sum_counts(ps)
    &&& s.unique_commands == ps.len()
    &&& opt_pair(s.most_used) == if ps.len() == 0 {
        None
    } else {
        Some(ps[most_used_index(ps)])
    }
    &&& opt_pair(s.least_used) == if ps.len() == 0 {
        None
    } else {
        Some(ps[least_used_index(ps)])
    }
}

/// The total, count, and most and least used commands of a ranked list.
/// Order-independent: among commands of equal count, the last by name is
/// taken as the most used and the first by name as the least used, as on the
/// list ranked by count, highest first.
pub fn summarize(ranked: &[(String, usize)]) -> (s: CountSummary)
    requires
        sum_counts(pairs_view(ranked@)) <= usize::MAX,
    ensures
        is_summary(s, pairs_view(ranked@)),
{
    let ghost ps = pairs_view(ranked@);
    let mut total: usize = 0;
    let mut most: usize = 0;
    let mut least: usize = 0;
    for i in 0..ranked.len()
        invariant
            ps == pairs_view(ranked@),
            sum_counts(ps) <= usize::MAX,
            total == sum_counts(ps.take(i as int)),
            i > 0 ==> most == most_used_index(ps.take(i as int)),
            i > 0 ==> least == least_used_index(ps.take(i as int)),
            i > 0 ==> most < i && least < i,
    {
        let ghost pre = ps.take(i as int);
        let ghost post = ps.take(i + 1);
        assert(post.drop_last() == pre);
        assert(post.last() == (ranked@[i as int].0@, ranked@[i as int].1));
        proof {
            lemma_sum_prefix(ps, i + 1);
        }
        total = total + ranked[i].1;
        if i == 0 {
            most = 0;
            least = 0;
        } else {
            assert(pre[most as int] == ps[most as int]);
            assert(pre[least as int] == ps[least as int]);
            let ki = chars_of(ranked[i].0.as_str());
            let km = chars_of(ranked[most].0.as_str());
            let kl = chars_of(ranked[least].0.as_str());
            if precedes_exec(
                km.as_slice(),
                ranked[most].1,
                ki.as_slice(),
                ranked[i].1,
                &RankOrder::CountAscending,
            ) {
                most = i;
            }
            if precedes_exec(
                ki.as_slice(),
                ranked[i].1,
                kl.as_slice(),
                ranked[least].1,
                &RankOrder::CountAscending,
            ) {
                least = i;
            }
        }
    }
    assert(ps.take(ranked.len() as int) == ps);
    let n = ranked.len();
    let (most_used, least_used) = if n == 0 {
        (None, None)
    } else {
        (
            Some((ranked[most].0.clone(), ranked[most].1)),
            Some((ranked[least].0.clone(), ranked[least].1)),
        )
    };
    CountSummary { total_commands: total, unique_commands: n, most_used, least_used }
}

/// Taking one pair out of a list lowers its total by that pair's count.
proof fn lemma_sum_remove(ps: Seq<(Seq<char>, usize)>, j: int)
    requires
        0 <= j < ps.len(),
    ensures
        sum_counts(ps) == sum_counts(ps.remove(j)) + ps[j].1,
    decreases ps.len(),
{
    if j < ps.len() - 1 {
        lemma_sum_remove(ps.drop_last(), j);
        assert(ps.remove(j).drop_last() =~= ps.drop_last().remove(j));
        assert(ps.remove(j).last() == ps.last());
    } else {
        assert(ps.remove(j) =~= ps.drop_last());
    }
}

/// Lists that hold the same pairs, in any order, have the same total.
pub proof fn lemma_sum_reordered(ps: Seq<(Seq<char>, usize)>, qs: Seq<(Seq<char>, usize)>)
    requires
        ps.to_multiset() == qs.to_multiset(),
    ensures
        sum_counts(ps) == sum_counts(qs),
    decreases ps.len(),
{
    broadcast use vstd::seq_lib::group_to_multiset_ensures;

    if ps.len() == 0 {
        assert(ps.to_multiset().len() == 0);
        assert(qs.to_multiset().len() == qs.len());
    } else {
        let x = ps.last();
        let init = ps.drop_last();
        assert(init.push(x) =~= ps);
        assert(ps.to_multiset() =~= init.to_multiset().insert(x));
        assert(qs.to_multiset().count(x) > 0);
        assert(qs.contains(x));
        let j = choose|j: int| 0 <= j < qs.len() && qs[j] == x;
        let rest = qs.remove(j);
        assert(rest.to_multiset() =~= qs.to_multiset().remove(x));
        assert(init.to_multiset() =~= rest.to_multiset());
        lemma_sum_reordered(init, rest);
        lemma_sum_remove(qs, j);
    }
}

/// The statistics do not depend on the order of the list: a reordering has
/// the same total and number of commands, the same most and least used
/// commands, and so the same statistics text.
pub proof fn lemma_summary_order_independent(ps: Seq<(Seq<char>, usize)>, qs: Seq<(Seq<char>, usize)>)
    requires
        ps.to_multiset() == qs.to_multiset(),
    ensures
        sum_counts(ps) == sum_counts(qs),
        ps.len() == qs.len(),
        ps.len() > 0 ==> ps[most_used_index(ps)] == qs[most_used_index(qs)],
        ps.len() > 0 ==> ps[least_used_index(ps)] == qs[least_used_index(qs)],
        stats_text(ps) == stats_text(qs),
{
    broadcast use vstd::seq_lib::group_to_multiset_ensures;

    lemma_sum_reordered(ps, qs);
    assert(ps.len() == ps.to_multiset().len());
    if ps.len() > 0 {
        lemma_extreme_indices(ps);
        lemma_extreme_indices(qs);
        let x = ps[most_used_index(ps)];
        let y = qs[most_used_index(qs)];
        let u = ps[least_used_index(ps)];
        let v = qs[least_used_index(qs)];
        assert(qs.to_multiset().count(x) > 0 && qs.contains(x));
        assert(ps.to_multiset().count(y) > 0 && ps.contains(y));
        assert(qs.to_multiset().count(u) > 0 && qs.contains(u));
        assert(ps.to_multiset().count(v) > 0 && ps.contains(v));
        let a = choose|j: int| 0 <= j < qs.len() && qs[j] == x;
        let b = choose|j: int| 0 <= j < ps.len() && ps[j] == y;
        let c = choose|j: int| 0 <= j < qs.len() && qs[j] == u;
        let d = choose|j: int| 0 <= j < ps.len() && ps[j] == v;
        assert(!precedes(y, qs[a], RankOrder::CountAscending));
        assert(!precedes(x, ps[b], RankOrder::CountAscending));
        assert(!precedes(qs[c], v, RankOrder::CountAscending));
        assert(!precedes(ps[d], u, RankOrder::CountAscending));
        lemma_precedes_order(x, y, y, RankOrder::CountAscending);
        lemma_precedes_order(u, v, v, RankOrder::CountAscending);
        assert(x == y);
        assert(u == v);
    }
}

/// A prefix sums to no more than the whole.
pub proof fn lemma_sum_prefix(ps: Seq<(Seq<char>, usize)>, k: int)
    requires
        0 <= k <= ps.len(),
    ensures
        sum_counts(ps.take(k)) <= sum_counts(ps),
    decreases ps.len() - k,
{
    if k < ps.len() {
        lemma_sum_prefix(ps, k + 1);
        assert(ps.take(k + 1).drop_last() == ps.take(k));
    } else {
        assert(ps.take(k) == ps);
    }
}

/// A number of tenths written with one decimal.
pub open spec fn tenths_text(t: nat) -> Seq<char> {
    decimal(t / 10) + seq!['.', digit_char(t % 10)]
}

/// `label name (count)` and a newline.
pub open spec fn usage_line(label: Seq<char>, p: (Seq<char>, usize)) -> Seq<char> {
    label + p.0 + seq![' ', '('] + decimal(p.1 as nat) + seq![')', '\n']
}

/// The first two lines: total and number of commands.
pub open spec fn stats_head(ps: Seq<(Seq<char>, usize)>) -> Seq<char> {
    "Total commands:   "@ + decimal(sum_counts(ps)) + seq!['\n'] + "Unique commands:  "@ + decimal(
        ps.len(),
    ) + seq!['\n']
}

/// The most and least used lines, when there are commands.
pub open spec fn stats_extremes(ps: Seq<(Seq<char>, usize)>) -> Seq<char> {
    if ps.len() > 0 {
        usage_line("Most used:        "@, ps[most_used_index(ps)]) + usage_line(
            "Least used:       "@,
            ps[least_used_index(ps)],
        )
    } else {
        Seq::empty()
    }
}

/// The statistics block.
pub open spec fn stats_text(ps: Seq<(Seq<char>, usize)>) -> Seq<char> {
    stats_head(ps) + stats_extremes(ps) + "Average per cmd:  "@ + average_text(sum_counts(ps), ps.len())
        + seq!['\n']
}

fn push_usage(out: &mut Vec<char>, label: &str, p: &(String, usize))
    ensures
        final(out)@ == old(out)@ + usage_line(label@, (p.0@, p.1)),
{
    push_str_chars(out, label);
    push_str_chars(out, p.0.as_str());
    out.push(' ');
    out.push('(');
    push_decimal(out, p.1 as u64);
    out.push(')');
    out.push('\n');
}

/// Format statistics as a human-readable block. The average is the `f64`
/// quotient of the total by the number of commands, written with one decimal.
pub fn format_stats(ranked: &[(String, usize)]) -> (r: String)
    requires
        sum_counts(pairs_view(ranked@)) <= usize::MAX,
    ensures
        r@ == stats_text(pairs_view(ranked@)),
{
    let ghost ps = pairs_view(ranked@);
    let s = summarize(ranked);
    let mut out: Vec<char> = Vec::new();
    push_str_chars(&mut out, "Total commands:   ");
    push_decimal(&mut out, s.total_commands as u64);
    out.push('\n');
    push_str_chars(&mut out, "Unique commands:  ");
    push_decimal(&mut out, s.unique_commands as u64);
    out.push('\n');
    assert(out@ == stats_head(ps));
    let ghost head = out@;
    if let Some(m) = &s.most_used {
        push_usage(&mut out, "Most used:        ", m);
    }
    if let Some(l) = &s.least_used {
        push_usage(&mut out, "Least used:       ", l);
    }
    assert(out@ == head + stats_extremes(ps));
    let ghost mid = out@;
    push_str_chars(&mut out, "Average per cmd:  ");
    push_average(&mut out, s.total_commands as u64, s.unique_commands as u64);
    out.push('\n');
    assert(out@ == mid + "Average per cmd:  "@ + average_text(sum_counts(ps), ps.len()) + seq!['\n']);
    string_of(out.as_slice())
}

} // verus!
