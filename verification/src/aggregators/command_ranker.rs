//! Ranking commands: ordering a count map by frequency, then by name.
use vstd::prelude::*;
use crate::aggregators::command_map::{CommandMap, keys_distinct, lemma_map_of, map_of, pairs_view};
use crate::text::chars_of;

verus! {

/// `a` comes before `b` in code-point order, the order of `String`'s `Ord`
/// (byte order of UTF-8 agrees with it).
pub open spec fn lex_lt(a: Seq<char>, b: Seq<char>) -> bool
    decreases a.len(),
{
    if a.len() == 0 {
        b.len() > 0
    } else if b.len() == 0 {
        false
    } else if a[0] != b[0] {
        a[0] < b[0]
    } else {
        lex_lt(a.drop_first(), b.drop_first())
    }
}

pub proof fn lemma_lex_irreflexive(a: Seq<char>)
    ensures
        !lex_lt(a, a),
    decreases a.len(),
{
    if a.len() > 0 {
        lemma_lex_irreflexive(a.drop_first());
    }
}

pub proof fn lemma_lex_transitive(a: Seq<char>, b: Seq<char>, c: Seq<char>)
    requires
        lex_lt(a, b),
        lex_lt(b, c),
    ensures
        lex_lt(a, c),
    decreases a.len(),
{
    if a.len() > 0 && b.len() > 0 && c.len() > 0 {
        if a[0] == b[0] && b[0] == c[0] {
            lemma_lex_transitive(a.drop_first(), b.drop_first(), c.drop_first());
        }
    }
}

pub proof fn lemma_lex_total(a: Seq<char>, b: Seq<char>)
    requires
        a != b,
    ensures
        lex_lt(a, b) || lex_lt(b, a),
    decreases a.len(),
{
    if a.len() > 0 && b.len() > 0 {
        if a[0] == b[0] {
            if a.drop_first() == b.drop_first() {
                assert(a == seq![a[0]] + a.drop_first());
                assert(b == seq![b[0]] + b.drop_first());
            }
            lemma_lex_total(a.drop_first(), b.drop_first());
        }
    } else if a.len() == 0 && b.len() == 0 {
        assert(a == b);
    }
}

pub proof fn lemma_lex_asymmetric(a: Seq<char>, b: Seq<char>)
    requires
        lex_lt(a, b),
    ensures
        !lex_lt(b, a),
{
    if lex_lt(b, a) {
        lemma_lex_transitive(a, b, a);
        lemma_lex_irreflexive(a);
    }
}

/// The orders in which ranked lists are given.
pub enum RankOrder {
    /// Highest count first; equal counts by name.
    CountDescending,
    /// Lowest count first; equal counts by name.
    CountAscending,
    /// By name alone.
    Name,
}

/// `a` comes strictly before `b` in the order.
pub open spec fn precedes(a: (Seq<char>, usize), b: (Seq<char>, usize), order: RankOrder) -> bool {
    match order {
        RankOrder::CountDescending => a.1 > b.1 || (a.1 == b.1 && lex_lt(a.0, b.0)),
        RankOrder::CountAscending => a.1 < b.1 || (a.1 == b.1 && lex_lt(a.0, b.0)),
        RankOrder::Name => lex_lt(a.0, b.0),
    }
}

pub proof fn lemma_precedes_order(
    a: (Seq<char>, usize),
    b: (Seq<char>, usize),
    c: (Seq<char>, usize),
    order: RankOrder,
)
    ensures
        !precedes(a, a, order),
        precedes(a, b, order) && precedes(b, c, order) ==> precedes(a, c, order),
        a.0 != b.0 ==> precedes(a, b, order) || precedes(b, a, order),
        precedes(a, b, order) ==> !precedes(b, a, order),
{
    lemma_lex_irreflexive(a.0);
    if lex_lt(a.0, b.0) && lex_lt(b.0, c.0) {
        lemma_lex_transitive(a.0, b.0, c.0);
    }
    if a.0 != b.0 {
        lemma_lex_total(a.0, b.0);
    }
    if lex_lt(a.0, b.0) {
        lemma_lex_asymmetric(a.0, b.0);
    }
}

/// `r` lists every pair of `m` once, each before the next in the order.
pub open spec fn is_ranking(r: Seq<(Seq<char>, usize)>, m: Map<Seq<char>, usize>, order: RankOrder) -> bool {
    &&& r.len() == m.len()
    &&& forall|i: int| 0 <= i < r.len() ==> #[trigger] m.contains_key(r[i].0) && m[r[i].0] == r[i].1
    &&& forall|k: Seq<char>| #[trigger] m.contains_key(k) ==> exists|i: int| 0 <= i < r.len() && r[i].0 == k
    &&& forall|i: int, j: int| 0 <= i < j < r.len() ==> precedes(#[trigger] r[i], #[trigger] r[j], order)
}

/// Each element comes before every later one.
pub open spec fn strictly_sorted(r: Seq<(Seq<char>, usize)>, order: RankOrder) -> bool {
    forall|i: int, j: int| 0 <= i < j < r.len() ==> precedes(#[trigger] r[i], #[trigger] r[j], order)
}

/// Every element of `a` occurs in `b`.
pub open spec fn within(a: Seq<(Seq<char>, usize)>, b: Seq<(Seq<char>, usize)>) -> bool {
    forall|i: int| 0 <= i < a.len() ==> b.contains(#[trigger] a[i])
}

/// Two strictly sorted lists with the same elements are the same list.
pub proof fn lemma_sorted_unique(r1: Seq<(Seq<char>, usize)>, r2: Seq<(Seq<char>, usize)>, order: RankOrder)
    requires
        strictly_sorted(r1, order),
        strictly_sorted(r2, order),
        within(r1, r2),
        within(r2, r1),
    ensures
        r1 == r2,
    decreases r1.len() + r2.len(),
{
    if r1.len() == 0 {
        if r2.len() > 0 {
            assert(r1.contains(r2[0]));
        }
        assert(r1 =~= r2);
    } else if r2.len() == 0 {
        assert(r2.contains(r1[0]));
    } else {
        let a = r1[0];
        let b = r2[0];
        lemma_precedes_order(a, b, b, order);
        lemma_precedes_order(b, a, a, order);
        if a != b {
            assert(r1.contains(r2[0]));
            let i = choose|i: int| 0 <= i < r1.len() && r1[i] == r2[0];
            assert(i > 0);
            assert(precedes(r1[0], r1[i], order));
            assert(r2.contains(r1[0]));
            let j = choose|j: int| 0 <= j < r2.len() && r2[j] == r1[0];
            assert(j > 0);
            assert(precedes(r2[0], r2[j], order));
        }
        let t1 = r1.drop_first();
        let t2 = r2.drop_first();
        assert forall|i: int| 0 <= i < t1.len() implies t2.contains(#[trigger] t1[i]) by {
            assert(r1[i + 1] == t1[i]);
            assert(r2.contains(r1[i + 1]));
            let j = choose|j: int| 0 <= j < r2.len() && r2[j] == r1[i + 1];
            if j == 0 {
                assert(precedes(r1[0], r1[i + 1], order));
                lemma_precedes_order(r1[0], r1[0], r1[0], order);
            }
            assert(t2[j - 1] == r2[j]);
        }
        assert forall|j: int| 0 <= j < t2.len() implies t1.contains(#[trigger] t2[j]) by {
            assert(r2[j + 1] == t2[j]);
            assert(r1.contains(r2[j + 1]));
            let i = choose|i: int| 0 <= i < r1.len() && r1[i] == r2[j + 1];
            if i == 0 {
                assert(precedes(r2[0], r2[j + 1], order));
                lemma_precedes_order(r2[0], r2[0], r2[0], order);
            }
            assert(t1[i - 1] == r1[i]);
        }
        assert forall|i: int, j: int| 0 <= i < j < t1.len() implies precedes(
            #[trigger] t1[i],
            #[trigger] t1[j],
            order,
        ) by {
            assert(t1[i] == r1[i + 1] && t1[j] == r1[j + 1]);
        }
        assert forall|i: int, j: int| 0 <= i < j < t2.len() implies precedes(
            #[trigger] t2[i],
            #[trigger] t2[j],
            order,
        ) by {
            assert(t2[i] == r2[i + 1] && t2[j] == r2[j + 1]);
        }
        lemma_sorted_unique(t1, t2, order);
        assert(r1 =~= r2) by {
            assert forall|i: int| 0 <= i < r1.len() implies r1[i] == r2[i] by {
                if i > 0 {
                    assert(r1[i] == t1[i - 1]);
                    assert(r2[i] == t2[i - 1]);
                }
            }
        }
    }
}

/// The ranking of a map in an order: the list of its pairs, each before the next.
pub open spec fn ranking(m: Map<Seq<char>, usize>, order: RankOrder) -> Seq<(Seq<char>, usize)> {
    choose|r: Seq<(Seq<char>, usize)>| is_ranking(r, m, order)
}

/// A map has one ranking in each order: any two lists that rank it are
/// the same list.
pub proof fn lemma_ranking_unique(
    r1: Seq<(Seq<char>, usize)>,
    r2: Seq<(Seq<char>, usize)>,
    m: Map<Seq<char>, usize>,
    order: RankOrder,
)
    requires
        is_ranking(r1, m, order),
        is_ranking(r2, m, order),
    ensures
        r1 == r2,
{
    assert forall|i: int| 0 <= i < r1.len() implies r2.contains(#[trigger] r1[i]) by {
        assert(m.contains_key(r1[i].0));
        let j = choose|j: int| 0 <= j < r2.len() && r2[j].0 == r1[i].0;
        assert(m.contains_key(r2[j].0));
        assert(r2[j] == r1[i]);
    }
    assert forall|j: int| 0 <= j < r2.len() implies r1.contains(#[trigger] r2[j]) by {
        assert(m.contains_key(r2[j].0));
        let i = choose|i: int| 0 <= i < r1.len() && r1[i].0 == r2[j].0;
        assert(m.contains_key(r1[i].0));
        assert(r1[i] == r2[j]);
    }
    lemma_sorted_unique(r1, r2, order);
}

/// A list that ranks a map is its ranking.
pub proof fn lemma_ranking(r: Seq<(Seq<char>, usize)>, m: Map<Seq<char>, usize>, order: RankOrder)
    requires
        is_ranking(r, m, order),
    ensures
        ranking(m, order) == r,
{
    lemma_ranking_unique(ranking(m, order), r, m, order);
}

/// Whether `a` comes before `b` in the order.
pub(crate) fn precedes_exec(ka: &[char], ca: usize, kb: &[char], cb: usize, order: &RankOrder) -> (r: bool)
    ensures
        r == precedes((ka@, ca), (kb@, cb), *order),
{
    match order {
        RankOrder::CountDescending => ca > cb || (ca == cb && lex_less(ka, kb)),
        RankOrder::CountAscending => ca < cb || (ca == cb && lex_less(ka, kb)),
        RankOrder::Name => lex_less(ka, kb),
    }
}

/// Whether `a` comes before `b` in code-point order.
pub fn lex_less(a: &[char], b: &[char]) -> (r: bool)
    ensures
        r == lex_lt(a@, b@),
{
    let mut i: usize = 0;
    assert(a@.skip(0) == a@ && b@.skip(0) == b@);
    while i < a.len() && i < b.len() && a[i] == b[i]
        invariant
            i <= a.len(),
            i <= b.len(),
            lex_lt(a@, b@) == lex_lt(a@.skip(i as int), b@.skip(i as int)),
        decreases a.len() - i,
    {
        assert(a@.skip(i as int).drop_first() == a@.skip(i + 1));
        assert(b@.skip(i as int).drop_first() == b@.skip(i + 1));
        i = i + 1;
    }
    if i == a.len() {
        i < b.len()
    } else if i == b.len() {
        false
    } else {
        assert(a@.skip(i as int)[0] == a@[i as int]);
        assert(b@.skip(i as int)[0] == b@[i as int]);
        a[i] < b[i]
    }
}

/// The pairs of a map in the given order.
pub fn sorted_pairs(map: CommandMap<usize>, order: RankOrder) -> (r: Vec<(String, usize)>)
    ensures
        is_ranking(pairs_view(r@), map@, order),
{
    let ghost m = map@;
    let src = map.into_pairs();
    let ghost sv = pairs_view(src@);
    proof {
        lemma_map_of(sv);
    }
    let mut out: Vec<(String, usize)> = Vec::new();
    let mut out_keys: Vec<Vec<char>> = Vec::new();
    for i in 0..src.len()
        invariant
            sv == pairs_view(src@),
            keys_distinct(sv),
            map_of(sv) == m,
            out@.len() == i,
            out_keys@.len() == out@.len(),
            forall|j: int| 0 <= j < out@.len() ==> #[trigger] out_keys@[j]@ == out@[j].0@,
            forall|x: (Seq<char>, usize)| #[trigger]
                pairs_view(out@).contains(x) <==> sv.take(i as int).contains(x),
            forall|a: int, b: int|
                0 <= a < b < out@.len() ==> precedes(
                    #[trigger] pairs_view(out@)[a],
                    #[trigger] pairs_view(out@)[b],
                    order,
                ),
    {
        let ghost ov = pairs_view(out@);
        let key = chars_of(src[i].0.as_str());
        let count = src[i].1;
        let ghost x = (key@, count);
        assert(sv[i as int] == x);
        // `x`'s name differs from every name already placed.
        assert forall|j: int| 0 <= j < ov.len() implies ov[j].0 != x.0 by {
            assert(ov.contains(ov[j]));
            let t = choose|t: int| 0 <= t < i && sv.take(i as int)[t] == ov[j];
            assert(sv[t] == ov[j]);
        }
        let mut p: usize = 0;
        while p < out.len() && !precedes_exec(
            key.as_slice(),
            count,
            out_keys[p].as_slice(),
            out[p].1,
            &order,
        )
            invariant
                p <= out@.len(),
                x == (key@, count),
                out_keys@.len() == out@.len(),
                ov == pairs_view(out@),
                forall|j: int| 0 <= j < out@.len() ==> #[trigger] out_keys@[j]@ == out@[j].0@,
                forall|j: int| 0 <= j < p ==> !precedes(x, #[trigger] ov[j], order),
            decreases out@.len() - p,
        {
            p = p + 1;
        }
        let name = src[i].0.clone();
        out.insert(p, (name, count));
        out_keys.insert(p, key);
        proof {
            let nv = pairs_view(out@);
            let pre = sv.take(i as int);
            let post = sv.take(i + 1);
            assert(nv =~= ov.insert(p as int, x));
            assert(post == pre.push(x));
            assert forall|y: (Seq<char>, usize)| #[trigger]
                nv.contains(y) <==> post.contains(y) by {
                if nv.contains(y) {
                    let t = choose|t: int| 0 <= t < nv.len() && nv[t] == y;
                    if t < p {
                        assert(ov[t] == y);
                        assert(ov.contains(y));
                        assert(pre.contains(y));
                        let u = choose|u: int| 0 <= u < i && pre[u] == y;
                        assert(post[u] == y);
                    } else if t == p {
                        assert(post[i as int] == y);
                    } else {
                        assert(ov[t - 1] == y);
                        assert(ov.contains(y));
                        let u = choose|u: int| 0 <= u < i && pre[u] == y;
                        assert(post[u] == y);
                    }
                }
                if post.contains(y) {
                    let u = choose|u: int| 0 <= u < i + 1 && post[u] == y;
                    if u < i {
                        assert(pre[u] == y);
                        assert(pre.contains(y));
                        assert(ov.contains(y));
                        let t = choose|t: int| 0 <= t < ov.len() && ov[t] == y;
                        if t < p {
                            assert(nv[t] == y);
                        } else {
                            assert(nv[t + 1] == y);
                        }
                    } else {
                        assert(nv[p as int] == y);
                    }
                }
            }
            assert forall|a: int, b: int| 0 <= a < b < nv.len() implies precedes(
                #[trigger] nv[a],
                #[trigger] nv[b],
                order,
            ) by {
                if b < p {
                    assert(nv[a] == ov[a] && nv[b] == ov[b]);
                } else if b == p {
                    assert(nv[a] == ov[a]);
                    lemma_precedes_order(ov[a], x, x, order);
                } else if a == p {
                    assert(nv[b] == ov[b - 1]);
                    lemma_precedes_order(x, ov[p as int], ov[b - 1], order);
                    if b - 1 > p {
                        assert(precedes(ov[p as int], ov[b - 1], order));
                    }
                } else if a < p {
                    assert(nv[a] == ov[a] && nv[b] == ov[b - 1]);
                } else {
                    assert(nv[a] == ov[a - 1] && nv[b] == ov[b - 1]);
                }
            }
        }
    }
    proof {
        assert(sv.take(src@.len() as int) == sv);
        let ov = pairs_view(out@);
        assert forall|j: int| 0 <= j < ov.len() implies #[trigger] m.contains_key(ov[j].0) && m[ov[j].0]
            == ov[j].1 by {
            assert(ov.contains(ov[j]));
            let t = choose|t: int| 0 <= t < sv.len() && sv[t] == ov[j];
        }
        assert forall|k: Seq<char>| #[trigger] m.contains_key(k) implies exists|j: int|
            0 <= j < ov.len() && ov[j].0 == k by {
            let t = choose|t: int| 0 <= t < sv.len() && sv[t].0 == k;
            assert(sv.contains(sv[t]));
            assert(ov.contains(sv[t]));
        }
    }
    out
}

/// Sort commands by frequency descending, with alphabetical tie-breaking.
pub fn rank_commands(map: CommandMap<usize>) -> (r: Vec<(String, usize)>)
    ensures
        is_ranking(pairs_view(r@), map@, RankOrder::CountDescending),
        pairs_view(r@) == ranking(map@, RankOrder::CountDescending),
{
    let ghost m = map@;
    let r = sorted_pairs(map, RankOrder::CountDescending);
    proof {
        lemma_ranking(pairs_view(r@), m, RankOrder::CountDescending);
    }
    r
}

/// Like [`rank_commands`] but ascending: lowest count first, alphabetical tie-break.
pub fn rank_commands_ascending(map: CommandMap<usize>) -> (r: Vec<(String, usize)>)
    ensures
        is_ranking(pairs_view(r@), map@, RankOrder::CountAscending),
        pairs_view(r@) == ranking(map@, RankOrder::CountAscending),
{
    let ghost m = map@;
    let r = sorted_pairs(map, RankOrder::CountAscending);
    proof {
        lemma_ranking(pairs_view(r@), m, RankOrder::CountAscending);
    }
    r
}

} // verus!
