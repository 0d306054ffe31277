//! Trimming ranked lists: top N, ignore lists, minimum counts.
use vstd::prelude::*;
use crate::aggregators::command_map::pairs_view;
use crate::output::stats::sum_counts;

verus! {

/// A value that names a command: `String` or `&str`.
pub trait CommandName {
    /// The name, as text.
    spec fn name_view(&self) -> Seq<char>;

    /// The name.
    fn name(&self) -> (r: &str)
        ensures
            r@ == self.name_view(),
    ;
}

impl CommandName for String {
    open spec fn name_view(&self) -> Seq<char> {
        self@
    }

    fn name(&self) -> (r: &str) {
        self.as_str()
    }
}

impl<'a> CommandName for &'a str {
    open spec fn name_view(&self) -> Seq<char> {
        (*self)@
    }

    fn name(&self) -> (r: &str) {
        *self
    }
}

/// The names of a list of command names.
pub open spec fn names_view<S: CommandName>(names: Seq<S>) -> Seq<Seq<char>> {
    names.map_values(|s: S| s.name_view())
}

/// The pairs whose name is not among `names`, in their order.
pub open spec fn without_names(ps: Seq<(Seq<char>, usize)>, names: Seq<Seq<char>>) -> Seq<
    (Seq<char>, usize),
>
    decreases ps.len(),
{
    if ps.len() == 0 {
        ps
    } else {
        let rest = without_names(ps.drop_last(), names);
        if names.contains(ps.last().0) {
            rest
        } else {
            rest.push(ps.last())
        }
    }
}

/// The pairs whose count is at least `min`, in their order.
pub open spec fn at_least(ps: Seq<(Seq<char>, usize)>, min: usize) -> Seq<(Seq<char>, usize)>
    decreases ps.len(),
{
    if ps.len() == 0 {
        ps
    } else {
        let rest = at_least(ps.drop_last(), min);
        if ps.last().1 >= min {
            rest.push(ps.last())
        } else {
            rest
        }
    }
}

/// Leaving names out leaves no more in total than there was.
pub proof fn lemma_without_names_sum(ps: Seq<(Seq<char>, usize)>, names: Seq<Seq<char>>)
    ensures
        sum_counts(without_names(ps, names)) <= sum_counts(ps),
    decreases ps.len(),
{
    if ps.len() > 0 {
        lemma_without_names_sum(ps.drop_last(), names);
        let rest = without_names(ps.drop_last(), names);
        assert(rest.push(ps.last()).drop_last() == rest);
    }
}

/// Dropping the rarer commands leaves no more in total than there was.
pub proof fn lemma_at_least_sum(ps: Seq<(Seq<char>, usize)>, min: usize)
    ensures
        sum_counts(at_least(ps, min)) <= sum_counts(ps),
    decreases ps.len(),
{
    if ps.len() > 0 {
        lemma_at_least_sum(ps.drop_last(), min);
        let rest = at_least(ps.drop_last(), min);
        assert(rest.push(ps.last()).drop_last() == rest);
    }
}

/// The ignore list leaves out exactly the named commands: none of what is
/// kept is named, and every pair that is not named is kept.
pub proof fn lemma_without_names_exact(ps: Seq<(Seq<char>, usize)>, names: Seq<Seq<char>>)
    ensures
        forall|i: int|
            0 <= i < without_names(ps, names).len() ==> !names.contains(
                #[trigger] without_names(ps, names)[i].0,
            ),
        forall|i: int|
            0 <= i < ps.len() && !names.contains(#[trigger] ps[i].0) ==> without_names(
                ps,
                names,
            ).contains(ps[i]),
    decreases ps.len(),
{
    if ps.len() > 0 {
        let init = ps.drop_last();
        lemma_without_names_exact(init, names);
        let rest = without_names(init, names);
        let r = without_names(ps, names);
        assert forall|i: int| 0 <= i < r.len() implies !names.contains(#[trigger] r[i].0) by {
            if i < rest.len() {
                assert(r[i] == rest[i]);
            }
        }
        assert forall|i: int| 0 <= i < ps.len() && !names.contains(#[trigger] ps[i].0) implies r.contains(
            ps[i],
        ) by {
            if i < ps.len() - 1 {
                assert(init[i] == ps[i]);
                assert(rest.contains(ps[i]));
                let j = choose|j: int| 0 <= j < rest.len() && rest[j] == ps[i];
                assert(r[j] == rest[j]);
            } else {
                assert(r[r.len() - 1] == ps[i]);
            }
        }
    }
}

/// The minimum count leaves out exactly the rarer commands: all that is kept
/// is used at least `min` times, and every pair that is is kept.
pub proof fn lemma_at_least_exact(ps: Seq<(Seq<char>, usize)>, min: usize)
    ensures
        forall|i: int| 0 <= i < at_least(ps, min).len() ==> (#[trigger] at_least(ps, min)[i]).1 >= min,
        forall|i: int| 0 <= i < ps.len() && (#[trigger] ps[i]).1 >= min ==> at_least(ps, min).contains(ps[i]),
    decreases ps.len(),
{
    if ps.len() > 0 {
        let init = ps.drop_last();
        lemma_at_least_exact(init, min);
        let rest = at_least(init, min);
        let r = at_least(ps, min);
        assert forall|i: int| 0 <= i < r.len() implies (#[trigger] r[i]).1 >= min by {
            if i < rest.len() {
                assert(r[i] == rest[i]);
            }
        }
        assert forall|i: int| 0 <= i < ps.len() && (#[trigger] ps[i]).1 >= min implies r.contains(ps[i]) by {
            if i < ps.len() - 1 {
                assert(init[i] == ps[i]);
                assert(rest.contains(ps[i]));
                let j = choose|j: int| 0 <= j < rest.len() && rest[j] == ps[i];
                assert(r[j] == rest[j]);
            } else {
                assert(r[r.len() - 1] == ps[i]);
            }
        }
    }
}

/// Keep only the top N entries from a ranked list.
pub fn top_n(commands: Vec<(String, usize)>, n: usize) -> (r: Vec<(String, usize)>)
    ensures
        r@ == commands@.take(if n < commands@.len() { n as int } else { commands@.len() as int }),
{
    let mut r = commands;
    r.truncate(n);
    proof {
        if n >= commands@.len() {
            assert(commands@.take(commands@.len() as int) == commands@);
        }
    }
    r
}

/// Drop commands whose name matches anything in the ignore list.
pub fn filter_commands<S: CommandName>(commands: Vec<(String, usize)>, ignore: &[S]) -> (r: Vec<
    (String, usize),
>)
    ensures
        pairs_view(r@) == without_names(pairs_view(commands@), names_view(ignore@)),
{
    let ghost names = names_view(ignore@);
    let mut owned: Vec<String> = Vec::new();
    for j in 0..ignore.len()
        invariant
            names == names_view(ignore@),
            owned@.len() == j,
            forall|t: int| 0 <= t < j ==> #[trigger] owned@[t]@ == names[t],
    {
        owned.push(ignore[j].name().to_owned());
    }
    let ghost ps = pairs_view(commands@);
    let mut r: Vec<(String, usize)> = Vec::new();
    for item in it: commands.into_iter()
        invariant
            names == names_view(ignore@),
            owned@.len() == names.len(),
            forall|t: int| 0 <= t < names.len() ==> #[trigger] owned@[t]@ == names[t],
            ps == pairs_view(commands@),
            it.seq() == commands@,
            pairs_view(r@) == without_names(ps.take(it.index() as int), names),
    {
        let ghost k = it.index() as int;
        assert(ps.take(k + 1).drop_last() == ps.take(k));
        assert(ps.take(k + 1).last() == (item.0@, item.1));
        let mut found = false;
        for t in 0..owned.len()
            invariant
                owned@.len() == names.len(),
                forall|u: int| 0 <= u < names.len() ==> #[trigger] owned@[u]@ == names[u],
                found == exists|u: int| 0 <= u < t && names[u] == item.0@,
        {
            if owned[t] == item.0 {
                found = true;
            }
        }
        assert(found == names.contains(item.0@));
        if !found {
            let ghost before = r@;
            r.push(item);
            assert(pairs_view(r@) == pairs_view(before).push(pairs_view(r@).last()));
        }
    }
    assert(ps.take(commands@.len() as int) == ps);
    r
}

/// Drop commands below a minimum frequency threshold.
pub fn filter_by_min_frequency(commands: Vec<(String, usize)>, min: usize) -> (r: Vec<
    (String, usize),
>)
    ensures
        pairs_view(r@) == at_least(pairs_view(commands@), min),
{
    let ghost ps = pairs_view(commands@);
    let mut r: Vec<(String, usize)> = Vec::new();
    for item in it: commands.into_iter()
        invariant
            ps == pairs_view(commands@),
            it.seq() == commands@,
            pairs_view(r@) == at_least(ps.take(it.index() as int), min),
    {
        let ghost k = it.index() as int;
        assert(ps.take(k + 1).drop_last() == ps.take(k));
        assert(ps.take(k + 1).last() == (item.0@, item.1));
        if item.1 >= min {
            let ghost before = r@;
            r.push(item);
            assert(pairs_view(r@) == pairs_view(before).push(pairs_view(r@).last()));
        }
    }
    assert(ps.take(commands@.len() as int) == ps);
    r
}

} // verus!
