use vstd::prelude::*;

verus! {

/// Keys that can be compared by their mathematical values.
pub trait TableKey: View + Sized {
    /// Whether two keys have the same value.
    fn same_key(&self, other: &Self) -> (r: bool)
        ensures
            r == (self@ == other@);
}

impl TableKey for String {
    fn same_key(&self, other: &String) -> (r: bool) {
        *self == *other
    }
}

/// The map that a list of pairs describes: a later pair for a key wins over an earlier one.
pub open spec fn map_of<A, B>(s: Seq<(A, B)>) -> Map<A, B>
    decreases s.len(),
{
    if s.len() == 0 {
        Map::empty()
    } else {
        map_of(s.drop_last()).insert(s.last().0, s.last().1)
    }
}

/// No key occurs twice.
pub open spec fn keys_unique<A, B>(s: Seq<(A, B)>) -> bool {
    forall|i: int, j: int| 0 <= i < j < s.len() ==> s[i].0 != s[j].0
}

pub proof fn lemma_map_of_dom<A, B>(s: Seq<(A, B)>, k: A)
    ensures
        map_of(s).contains_key(k) <==> exists|i: int| 0 <= i < s.len() && s[i].0 == k,
    decreases s.len(),
{
    if s.len() > 0 {
        lemma_map_of_dom(s.drop_last(), k);
        if map_of(s.drop_last()).contains_key(k) {
            let i = choose|i: int| 0 <= i < s.drop_last().len() && s.drop_last()[i].0 == k;
            assert(s[i].0 == k);
        }
        if exists|i: int| 0 <= i < s.len() && s[i].0 == k {
            let i = choose|i: int| 0 <= i < s.len() && s[i].0 == k;
            if i < s.len() - 1 {
                assert(s.drop_last()[i].0 == k);
            }
        }
    }
}

pub proof fn lemma_map_of_index<A, B>(s: Seq<(A, B)>, i: int)
    requires
        keys_unique(s),
        0 <= i < s.len(),
    ensures
        map_of(s).contains_key(s[i].0),
        map_of(s)[s[i].0] == s[i].1,
    decreases s.len(),
{
    if i < s.len() - 1 {
        assert(keys_unique(s.drop_last()));
        lemma_map_of_index(s.drop_last(), i);
        assert(s.drop_last()[i] == s[i]);
    }
}

pub proof fn lemma_map_of_update<A, B>(s: Seq<(A, B)>, i: int, k: A, v: B)
    requires
        keys_unique(s),
        0 <= i < s.len(),
        s[i].0 == k,
    ensures
        map_of(s.update(i, (k, v))) == map_of(s).insert(k, v),
        keys_unique(s.update(i, (k, v))),
    decreases s.len(),
{
    let t = s.update(i, (k, v));
    if i == s.len() - 1 {
        assert(t.drop_last() =~= s.drop_last());
        assert(map_of(t) =~= map_of(s).insert(k, v));
    } else {
        assert(keys_unique(s.drop_last()));
        lemma_map_of_update(s.drop_last(), i, k, v);
        assert(t.drop_last() =~= s.drop_last().update(i, (k, v)));
        assert(s.last().0 != k);
        assert(map_of(t) =~= map_of(s).insert(k, v));
    }
}

pub proof fn lemma_map_of_push<A, B>(s: Seq<(A, B)>, k: A, v: B)
    requires
        keys_unique(s),
        !map_of(s).contains_key(k),
    ensures
        map_of(s.push((k, v))) == map_of(s).insert(k, v),
        keys_unique(s.push((k, v))),
{
    assert(s.push((k, v)).drop_last() =~= s);
    lemma_map_of_dom(s, k);
    assert forall|i: int, j: int| 0 <= i < j < s.push((k, v)).len() implies s.push((k, v))[i].0 != s.push(
        (k, v),
    )[j].0 by {
        if j == s.len() {
            assert(s[i].0 != k);
        }
    }
}

/// A map kept as a list of pairs with distinct keys, in the order the keys were first added.
#[derive(Debug)]
pub struct Table<K, V> {
    pub entries: Vec<(K, V)>,
}

impl<K: View, V: View> Table<K, V> {
    /// The entries as values.
    pub open spec fn pairs(&self) -> Seq<(K::V, V::V)> {
        Seq::new(self.entries@.len(), |i: int| (self.entries@[i].0@, self.entries@[i].1@))
    }

    /// No key occurs twice.
    pub open spec fn wf(&self) -> bool {
        keys_unique(self.pairs())
    }
}

impl<K: View, V: View> View for Table<K, V> {
    type V = Map<K::V, V::V>;

    open spec fn view(&self) -> Map<K::V, V::V> {
        map_of(self.pairs())
    }
}

impl<K: TableKey, V: View> Table<K, V> {
    /// An empty table.
    pub fn new() -> (r: Self)
        ensures
            r.wf(),
            r@ == Map::<K::V, V::V>::empty(),
            r.pairs().len() == 0,
    {
        let r = Table { entries: Vec::new() };
        assert(r.pairs() =~= Seq::<(K::V, V::V)>::empty());
        r
    }

    /// The position of the entry for `k`, if there is one.
    pub fn find(&self, k: &K) -> (r: Option<usize>)
        requires
            self.wf(),
        ensures
            match r {
                Some(i) => i < self.entries@.len() && self.pairs()[i as int].0 == k@,
                None => !self@.contains_key(k@),
            },
    {
        let mut i: usize = 0;
        while i < self.entries.len()
            invariant
                i <= self.entries@.len(),
                forall|j: int| 0 <= j < i ==> self.pairs()[j].0 != k@,
            decreases self.entries@.len() - i,
        {
            if self.entries[i].0.same_key(k) {
                return Some(i);
            }
            i = i + 1;
        }
        proof {
            lemma_map_of_dom(self.pairs(), k@);
        }
        None
    }

    /// The value for `k`, if there is one.
    pub fn get(&self, k: &K) -> (r: Option<&V>)
        requires
            self.wf(),
        ensures
            r is Some <==> self@.contains_key(k@),
            r matches Some(v) ==> v@ == self@[k@],
    {
        match self.find(k) {
            Some(i) => {
                proof {
                    lemma_map_of_index(self.pairs(), i as int);
                }
                Some(&self.entries[i].1)
            },
            None => None,
        }
    }

    /// Whether there is an entry for `k`.
    pub fn contains_key(&self, k: &K) -> (r: bool)
        requires
            self.wf(),
        ensures
            r == self@.contains_key(k@),
    {
        match self.find(k) {
            Some(i) => {
                proof {
                    lemma_map_of_index(self.pairs(), i as int);
                }
                true
            },
            None => false,
        }
    }

    /// Sets the value for `k`: a new key goes at the end, an existing key keeps its place.
    pub fn insert(&mut self, k: K, v: V)
        requires
            old(self).wf(),
        ensures
            final(self).wf(),
            final(self)@ == old(self)@.insert(k@, v@),
            old(self)@.contains_key(k@) ==> final(self).pairs().len() == old(self).pairs().len(),
            !old(self)@.contains_key(k@) ==> final(self).pairs() == old(self).pairs().push((k@, v@)),
    {
        match self.find(&k) {
            Some(i) => {
                let ghost kv = k@;
                let ghost vv = v@;
                proof {
                    lemma_map_of_update(self.pairs(), i as int, kv, vv);
                    lemma_map_of_index(self.pairs(), i as int);
                }
                self.entries.set(i, (k, v));
                assert(self.pairs() =~= old(self).pairs().update(i as int, (kv, vv)));
            },
            None => {
                proof {
                    lemma_map_of_push(self.pairs(), k@, v@);
                }
                let ghost kv = k@;
                let ghost vv = v@;
                self.entries.push((k, v));
                assert(self.pairs() =~= old(self).pairs().push((kv, vv)));
            },
        }
    }
}

} // verus!

verus! {

/// The values of a list of pairs with distinct keys are the values of its map.
pub proof fn lemma_map_of_values<A, B>(s: Seq<(A, B)>)
    requires
        keys_unique(s),
    ensures
        map_of(s).values() =~= Set::new(|v: B| exists|i: int| 0 <= i < s.len() && s[i].1 == v),
{
    assert forall|v: B| map_of(s).values().contains(v) implies exists|i: int| 0 <= i < s.len() && s[i].1 == v by {
        let k = choose|k: A| map_of(s).contains_key(k) && map_of(s)[k] == v;
        lemma_map_of_dom(s, k);
        let i = choose|i: int| 0 <= i < s.len() && s[i].0 == k;
        lemma_map_of_index(s, i);
    }
    assert forall|v: B| (exists|i: int| 0 <= i < s.len() && s[i].1 == v) implies map_of(s).values().contains(v) by {
        let i = choose|i: int| 0 <= i < s.len() && s[i].1 == v;
        lemma_map_of_index(s, i);
    }
}

} // verus!
