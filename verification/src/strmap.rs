use vstd::prelude::*;

verus! {

/// The finite map denoted by a list of key/value pairs; a later entry
/// for the same key wins.
pub open spec fn map_of(pairs: Seq<(String, String)>) -> Map<Seq<char>, Seq<char>>
    decreases pairs.len(),
{
    if pairs.len() == 0 {
        Map::empty()
    } else {
        map_of(pairs.drop_last()).insert(pairs.last().0@, pairs.last().1@)
    }
}

/// No two entries of the list share a key.
pub open spec fn distinct_keys(pairs: Seq<(String, String)>) -> bool {
    forall|i: int, j: int| 0 <= i < j < pairs.len() ==> pairs[i].0@ != pairs[j].0@
}

/// A string-keyed map, stored as a list of pairs with pairwise
/// distinct keys.  Its view is the finite map those pairs denote.
pub struct StrMap {
    pairs: Vec<(String, String)>,
}

impl View for StrMap {
    type V = Map<Seq<char>, Seq<char>>;

    closed spec fn view(&self) -> Map<Seq<char>, Seq<char>> {
        map_of(self.pairs@)
    }
}

proof fn lemma_key_index(ps: Seq<(String, String)>, k: Seq<char>)
    ensures
        map_of(ps).contains_key(k) <==> (exists|i: int| 0 <= i < ps.len() && ps[i].0@ == k),
    decreases ps.len(),
{
    if ps.len() == 0 {
    } else {
        let qs = ps.drop_last();
        lemma_key_index(qs, k);
        if ps.last().0@ == k {
            assert(ps[ps.len() - 1].0@ == k);
        } else {
            if map_of(ps).contains_key(k) {
                let i = choose|i: int| 0 <= i < qs.len() && qs[i].0@ == k;
                assert(ps[i].0@ == k);
            }
            if exists|i: int| 0 <= i < ps.len() && ps[i].0@ == k {
                let i = choose|i: int| 0 <= i < ps.len() && ps[i].0@ == k;
                assert(i < ps.len() - 1);
                assert(qs[i].0@ == k);
            }
        }
    }
}

proof fn lemma_value_at(ps: Seq<(String, String)>, i: int)
    requires
        distinct_keys(ps),
        0 <= i < ps.len(),
    ensures
        map_of(ps).contains_key(ps[i].0@),
        map_of(ps)[ps[i].0@] == ps[i].1@,
    decreases ps.len(),
{
    if i == ps.len() - 1 {
        assert(ps.last() == ps[i]);
    } else {
        let qs = ps.drop_last();
        assert(distinct_keys(qs)) by {
            assert(forall|a: int, b: int|
                0 <= a < b < qs.len() ==> qs[a].0@ != qs[b].0@) by {
                assert(forall|a: int| 0 <= a < qs.len() ==> qs[a] == ps[a]);
            }
        }
        lemma_value_at(qs, i);
        assert(ps.last().0@ != ps[i].0@);
    }
}

proof fn lemma_map_of_update(ps: Seq<(String, String)>, i: int, k: String, v: String)
    requires
        distinct_keys(ps),
        0 <= i < ps.len(),
        ps[i].0@ == k@,
    ensures
        map_of(ps.update(i, (k, v))) == map_of(ps).insert(k@, v@),
    decreases ps.len(),
{
    let qs = ps.update(i, (k, v));
    if i == ps.len() - 1 {
        assert(qs.drop_last() =~= ps.drop_last());
        assert(qs.last() == (k, v));
        assert(map_of(qs) =~= map_of(ps).insert(k@, v@));
    } else {
        let rs = ps.drop_last();
        assert(qs.drop_last() =~= rs.update(i, (k, v)));
        assert(distinct_keys(rs)) by {
            assert(forall|a: int| 0 <= a < rs.len() ==> rs[a] == ps[a]);
        }
        lemma_map_of_update(rs, i, k, v);
        assert(qs.last() == ps.last());
        assert(ps.last().0@ != k@);
        assert(map_of(qs) =~= map_of(ps).insert(k@, v@));
    }
}

impl StrMap {
    #[verifier::type_invariant]
    closed spec fn inv(self) -> bool {
        distinct_keys(self.pairs@)
    }

    /// The empty map.
    pub fn new() -> (r: StrMap)
        ensures
            r@ == Map::<Seq<char>, Seq<char>>::empty(),
    {
        let r = StrMap { pairs: Vec::new() };
        proof {
            assert(r@ =~= Map::<Seq<char>, Seq<char>>::empty());
        }
        r
    }

    /// Binds `key` to `value`; an existing binding of the same key is
    /// replaced.
    pub fn insert(self, key: String, value: String) -> (r: StrMap)
        ensures
            r@ == self@.insert(key@, value@),
    {
        proof {
            use_type_invariant(&self);
        }
        let ghost ps = self.pairs@;
        proof {
            assert(self@ == map_of(ps));
        }
        let StrMap { pairs: mut pairs } = self;
        proof {
            assert(pairs@ == ps);
        }
        let n = pairs.len();
        let mut i: usize = 0;
        while i < n
            invariant
                i <= n,
                n == pairs@.len(),
                pairs@ == ps,
                distinct_keys(ps),
                self@ == map_of(ps),
                forall|j: int| 0 <= j < i ==> pairs@[j].0@ != key@,
            decreases n - i,
        {
            if pairs[i].0 == key {
                proof {
                    lemma_map_of_update(ps, i as int, key, value);
                }
                pairs.set(i, (key, value));
                proof {
                    assert(pairs@ == ps.update(i as int, (key, value)));
                    assert(map_of(pairs@) == map_of(ps).insert(key@, value@));
                    assert(distinct_keys(pairs@)) by {
                        assert(forall|a: int|
                            0 <= a < pairs@.len() ==> pairs@[a].0@ == ps[a].0@);
                    }
                }
                return StrMap { pairs };
            }
            i += 1;
        }
        pairs.push((key, value));
        proof {
            assert(pairs@.drop_last() =~= ps);
            assert(distinct_keys(pairs@)) by {
                assert(forall|a: int| 0 <= a < pairs@.len() - 1 ==> pairs@[a] == ps[a]);
            }
        }
        StrMap { pairs }
    }

    /// Looks the key up; `Some` exactly when the map binds it, with the
    /// bound value.
    pub fn get<'a>(&'a self, key: &str) -> (r: Option<&'a String>)
        ensures
            match r {
                Some(v) => self@.contains_key(key@) && v@ == self@[key@],
                None => !self@.contains_key(key@),
            },
    {
        proof {
            use_type_invariant(&*self);
        }
        let k: String = key.to_owned();
        let n = self.pairs.len();
        let mut i: usize = 0;
        while i < n
            invariant
                i <= n,
                n == self.pairs@.len(),
                distinct_keys(self.pairs@),
                k@ == key@,
                forall|j: int| 0 <= j < i ==> self.pairs@[j].0@ != key@,
            decreases n - i,
        {
            if self.pairs[i].0 == k {
                proof {
                    lemma_value_at(self.pairs@, i as int);
                }
                return Some(&self.pairs[i].1);
            }
            i += 1;
        }
        proof {
            lemma_key_index(self.pairs@, key@);
        }
        None
    }

    /// True exactly when the map binds the key.
    pub fn contains_key(&self, key: &str) -> (r: bool)
        ensures
            r == self@.contains_key(key@),
    {
        self.get(key).is_some()
    }

    /// The entries of the map, as a list of key/value pairs with
    /// pairwise distinct keys; exactly the bindings of the map.
    pub fn entries(&self) -> (r: &Vec<(String, String)>)
        ensures
            distinct_keys(r@),
            forall|i: int|
                0 <= i < r@.len() ==> self@.contains_key(#[trigger] r@[i].0@)
                    && self@[r@[i].0@] == r@[i].1@,
            forall|k: Seq<char>|
                self@.contains_key(k) ==> exists|i: int| 0 <= i < r@.len() && r@[i].0@ == k,
    {
        proof {
            use_type_invariant(&*self);
            assert forall|i: int|
                0 <= i < self.pairs@.len() implies self@.contains_key(
                #[trigger] self.pairs@[i].0@,
            ) && self@[self.pairs@[i].0@] == self.pairs@[i].1@ by {
                lemma_value_at(self.pairs@, i);
            }
            assert forall|k: Seq<char>| self@.contains_key(k) implies exists|i: int|
                0 <= i < self.pairs@.len() && self.pairs@[i].0@ == k by {
                lemma_key_index(self.pairs@, k);
            }
        }
        &self.pairs
    }
}

} // verus!
