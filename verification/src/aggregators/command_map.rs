//! A map from command names to values, kept as a list of pairs with distinct
//! names.
use vstd::prelude::*;

verus! {

/// The pairs of a list, names taken as text.
pub open spec fn pairs_view<V>(ps: Seq<(String, V)>) -> Seq<(Seq<char>, V)> {
    ps.map_values(|p: (String, V)| (p.0@, p.1))
}

/// No name occurs twice.
pub open spec fn keys_distinct<V>(ps: Seq<(Seq<char>, V)>) -> bool {
    forall|i: int, j: int| 0 <= i < ps.len() && 0 <= j < ps.len() && i != j ==> #[trigger] ps[i].0 != #[trigger] ps[j].0
}

/// The map that a list of pairs describes.
pub open spec fn map_of<V>(ps: Seq<(Seq<char>, V)>) -> Map<Seq<char>, V>
    decreases ps.len(),
{
    if ps.len() == 0 {
        Map::empty()
    } else {
        map_of(ps.drop_last()).insert(ps.last().0, ps.last().1)
    }
}

pub proof fn lemma_map_of<V>(ps: Seq<(Seq<char>, V)>)
    requires
        keys_distinct(ps),
    ensures
        map_of(ps).dom().finite(),
        map_of(ps).len() == ps.len(),
        forall|k: Seq<char>| #[trigger]
            map_of(ps).contains_key(k) <==> exists|i: int| 0 <= i < ps.len() && ps[i].0 == k,
        forall|i: int| 0 <= i < ps.len() ==> #[trigger] map_of(ps)[ps[i].0] == ps[i].1,
    decreases ps.len(),
{
    if ps.len() > 0 {
        let init = ps.drop_last();
        assert(keys_distinct(init)) by {
            assert forall|i: int, j: int|
                0 <= i < init.len() && 0 <= j < init.len() && i != j implies #[trigger] init[i].0
                != #[trigger] init[j].0 by {
                assert(init[i] == ps[i] && init[j] == ps[j]);
            }
        }
        lemma_map_of(init);
        let last = ps.last();
        assert(!map_of(init).contains_key(last.0)) by {
            if map_of(init).contains_key(last.0) {
                let i = choose|i: int| 0 <= i < init.len() && init[i].0 == last.0;
                assert(ps[i].0 == ps[ps.len() - 1].0);
            }
        }
        assert forall|k: Seq<char>| #[trigger]
            map_of(ps).contains_key(k) implies exists|i: int| 0 <= i < ps.len() && ps[i].0 == k by {
            if k != last.0 {
                let i = choose|i: int| 0 <= i < init.len() && init[i].0 == k;
                assert(ps[i].0 == k);
            } else {
                assert(ps[ps.len() - 1].0 == k);
            }
        }
        assert forall|k: Seq<char>|
            (exists|i: int| 0 <= i < ps.len() && ps[i].0 == k) implies #[trigger] map_of(
            ps,
        ).contains_key(k) by {
            let i = choose|i: int| 0 <= i < ps.len() && ps[i].0 == k;
            if i < ps.len() - 1 {
                assert(init[i].0 == k);
            }
        }
        assert forall|i: int| 0 <= i < ps.len() implies #[trigger] map_of(ps)[ps[i].0]
            == ps[i].1 by {
            if i < ps.len() - 1 {
                assert(init[i] == ps[i]);
                assert(ps[i].0 != last.0);
            }
        }
    }
}

/// Replacing the value of the `i`-th pair replaces it in the map.
pub proof fn lemma_map_of_update<V>(ps: Seq<(Seq<char>, V)>, i: int, v: V)
    requires
        keys_distinct(ps),
        0 <= i < ps.len(),
    ensures
        map_of(ps.update(i, (ps[i].0, v))) == map_of(ps).insert(ps[i].0, v),
        keys_distinct(ps.update(i, (ps[i].0, v))),
    decreases ps.len(),
{
    let qs = ps.update(i, (ps[i].0, v));
    assert forall|a: int, b: int|
        0 <= a < qs.len() && 0 <= b < qs.len() && a != b implies #[trigger] qs[a].0
        != #[trigger] qs[b].0 by {
        assert(qs[a].0 == ps[a].0 && qs[b].0 == ps[b].0);
    }
    lemma_map_of(ps);
    lemma_map_of(qs);
    assert(map_of(qs) =~= map_of(ps).insert(ps[i].0, v)) by {
        assert forall|k: Seq<char>| #[trigger] map_of(qs).contains_key(k) <==> map_of(ps).insert(
            ps[i].0,
            v,
        ).contains_key(k) by {
            if map_of(qs).contains_key(k) {
                let j = choose|j: int| 0 <= j < qs.len() && qs[j].0 == k;
                assert(ps[j].0 == k);
            }
            if map_of(ps).contains_key(k) {
                let j = choose|j: int| 0 <= j < ps.len() && ps[j].0 == k;
                assert(qs[j].0 == k);
            }
            if k == ps[i].0 {
                assert(qs[i].0 == k);
            }
        }
        assert forall|k: Seq<char>| #[trigger] map_of(qs).contains_key(k) implies map_of(qs)[k]
            == map_of(ps).insert(ps[i].0, v)[k] by {
            let j = choose|j: int| 0 <= j < qs.len() && qs[j].0 == k;
            assert(map_of(qs)[qs[j].0] == qs[j].1);
            if j == i {
            } else {
                assert(map_of(ps)[ps[j].0] == ps[j].1);
                assert(ps[j].0 != ps[i].0);
            }
        }
    }
}

/// A map from command names to values: a list of pairs in which no name
/// occurs twice, kept in the order the names were added.
pub struct CommandMap<V> {
    pairs: Vec<(String, V)>,
}

impl<V> CommandMap<V> {
    #[verifier::type_invariant]
    spec fn distinct_names(self) -> bool {
        keys_distinct(pairs_view(self.pairs@))
    }

    /// The pairs, in the order in which they were added.
    pub closed spec fn pairs(self) -> Seq<(Seq<char>, V)> {
        pairs_view(self.pairs@)
    }

    /// An empty map.
    pub fn new() -> (m: Self)
        ensures
            m@ == Map::<Seq<char>, V>::empty(),
    {
        let m = CommandMap { pairs: Vec::new() };
        assert(pairs_view(m.pairs@) =~= Seq::empty());
        m
    }

    /// The number of names.
    pub fn len(&self) -> (n: usize)
        ensures
            n == self@.len(),
    {
        proof {
            use_type_invariant(&*self);
            lemma_map_of(self.pairs());
        }
        self.pairs.len()
    }

    /// Whether the map holds no name.
    pub fn is_empty(&self) -> (b: bool)
        ensures
            b == (self@.len() == 0),
    {
        self.len() == 0
    }

    /// Where `key` stands among the pairs.
    fn position(&self, key: &String) -> (r: Option<usize>)
        ensures
            match r {
                Some(i) => i < self.pairs().len() && self.pairs()[i as int].0 == key@,
                None => !self@.contains_key(key@),
            },
    {
        proof {
            use_type_invariant(&*self);
            lemma_map_of(self.pairs());
        }
        for i in 0..self.pairs.len()
            invariant
                forall|j: int| 0 <= j < i ==> self.pairs()[j].0 != key@,
        {
            if self.pairs[i].0 == *key {
                return Some(i);
            }
        }
        None
    }

    /// The value of a name, if the map holds it.
    pub fn get(&self, key: &str) -> (r: Option<&V>)
        ensures
            match r {
                Some(v) => self@.contains_key(key@) && *v == self@[key@],
                None => !self@.contains_key(key@),
            },
    {
        proof {
            use_type_invariant(&*self);
            lemma_map_of(self.pairs());
        }
        let k = key.to_owned();
        match self.position(&k) {
            Some(i) => Some(&self.pairs[i].1),
            None => None,
        }
    }

    /// Sets the value of a name.
    pub fn insert(&mut self, key: String, value: V)
        ensures
            final(self)@ == old(self)@.insert(key@, value),
    {
        proof {
            use_type_invariant(&*self);
            lemma_map_of(self.pairs());
        }
        let pos = self.position(&key);
        let ghost ps = self.pairs();
        let mut v: Vec<(String, V)> = Vec::new();
        std::mem::swap(&mut v, &mut self.pairs);
        assert(pairs_view(v@) == ps);
        match pos {
            Some(i) => {
                proof {
                    lemma_map_of_update(ps, i as int, value);
                }
                v.set(i, (key, value));
                assert(pairs_view(v@) =~= ps.update(i as int, (ps[i as int].0, value)));
                self.pairs = v;
            },
            None => {
                v.push((key, value));
                assert(pairs_view(v@) =~= ps.push((key@, value)));
                proof {
                    let qs = pairs_view(v@);
                    assert forall|a: int, b: int|
                        0 <= a < qs.len() && 0 <= b < qs.len() && a != b implies #[trigger] qs[a].0
                        != #[trigger] qs[b].0 by {
                        if a < ps.len() && b < ps.len() {
                            assert(qs[a] == ps[a] && qs[b] == ps[b]);
                        } else if a < ps.len() {
                            assert(qs[a] == ps[a]);
                            assert(map_of(ps).contains_key(ps[a].0));
                        } else {
                            assert(qs[b] == ps[b]);
                            assert(map_of(ps).contains_key(ps[b].0));
                        }
                    }
                    assert(qs.drop_last() == ps);
                }
                self.pairs = v;
            },
        }
    }

    /// The pairs, each name once, in no particular order.
    pub fn into_pairs(self) -> (r: Vec<(String, V)>)
        ensures
            keys_distinct(pairs_view(r@)),
            map_of(pairs_view(r@)) == self@,
    {
        proof {
            use_type_invariant(&self);
            lemma_map_of(self.pairs());
        }
        self.pairs
    }
}

impl<V> View for CommandMap<V> {
    type V = Map<Seq<char>, V>;

    open spec fn view(&self) -> Map<Seq<char>, V> {
        map_of(self.pairs())
    }
}

} // verus!
