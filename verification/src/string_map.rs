//! A map from strings to strings that keeps its entries in the order in which
//! their keys were first inserted.

use crate::text::chars_eq;
use vstd::prelude::*;

verus! {

/// No key occurs at two positions.
pub open spec fn distinct_keys(pairs: Seq<(Seq<char>, Seq<char>)>) -> bool {
    forall|i: int, j: int| 0 <= i < j < pairs.len() ==> pairs[i].0 != pairs[j].0
}

/// Some position of `pairs` holds `key`.
pub open spec fn has_key(pairs: Seq<(Seq<char>, Seq<char>)>, key: Seq<char>) -> bool {
    exists|i: int| 0 <= i < pairs.len() && #[trigger] pairs[i].0 == key
}

/// A position of `pairs` that holds `key`, where there is one.
pub open spec fn position_of(pairs: Seq<(Seq<char>, Seq<char>)>, key: Seq<char>) -> int {
    choose|i: int| 0 <= i < pairs.len() && #[trigger] pairs[i].0 == key
}

/// The map that a sequence of key-value pairs stands for.
pub open spec fn map_of(pairs: Seq<(Seq<char>, Seq<char>)>) -> Map<Seq<char>, Seq<char>> {
    Map::new(|k: Seq<char>| has_key(pairs, k), |k: Seq<char>| pairs[position_of(pairs, k)].1)
}

/// With distinct keys, each position decides the value of its key.
pub proof fn lemma_map_of_at(pairs: Seq<(Seq<char>, Seq<char>)>, i: int)
    requires
        distinct_keys(pairs),
        0 <= i < pairs.len(),
    ensures
        map_of(pairs).contains_key(pairs[i].0),
        map_of(pairs)[pairs[i].0] == pairs[i].1,
        position_of(pairs, pairs[i].0) == i,
{
    let k = pairs[i].0;
    assert(has_key(pairs, k));
    let p = position_of(pairs, k);
    if p < i {
        assert(pairs[p].0 != pairs[i].0);
    } else if i < p {
        assert(pairs[i].0 != pairs[p].0);
    }
}

/// String keys and values, unique by key, in first-insertion order.
#[derive(Debug)]
pub struct StringMap {
    entries: Vec<(String, String)>,
}

impl View for StringMap {
    type V = Map<Seq<char>, Seq<char>>;

    closed spec fn view(&self) -> Map<Seq<char>, Seq<char>> {
        map_of(self.pairs())
    }
}

impl StringMap {
    /// The entries in order, each as a pair of views.
    pub closed spec fn pairs(&self) -> Seq<(Seq<char>, Seq<char>)> {
        Seq::new(self.entries@.len(), |i: int| (self.entries@[i].0@, self.entries@[i].1@))
    }

    /// No key is held twice.
    #[verifier::type_invariant]
    pub closed spec fn wf(&self) -> bool {
        distinct_keys(self.pairs())
    }

    /// The view is the map of the ordered entries, whose keys are distinct.
    pub proof fn lemma_view(&self)
        ensures
            self@ == map_of(self.pairs()),
    {
    }

    /// An empty map.
    pub fn new() -> (m: Self)
        ensures
            m@ == Map::<Seq<char>, Seq<char>>::empty(),
            m.pairs() == Seq::<(Seq<char>, Seq<char>)>::empty(),
            distinct_keys(m.pairs()),
    {
        let m = StringMap { entries: Vec::new() };
        assert(m.pairs() =~= Seq::<(Seq<char>, Seq<char>)>::empty());
        assert(m@ =~= Map::<Seq<char>, Seq<char>>::empty());
        m
    }

    /// How many keys the map holds.
    pub fn len(&self) -> (n: usize)
        ensures
            n == self.pairs().len(),
            n == self@.dom().len(),
    {
        proof {
            use_type_invariant(self);
            lemma_map_of_len(self.pairs());
        }
        self.entries.len()
    }

    /// Position of `key` among the entries, if it is there.
    fn find(&self, key: &str) -> (r: Option<usize>)
        ensures
            match r {
                Some(i) => i < self.pairs().len() && self.pairs()[i as int].0 == key@,
                None => !has_key(self.pairs(), key@),
            },
    {
        let mut i: usize = 0;
        while i < self.entries.len()
            invariant
                i <= self.entries.len(),
                forall|k: int| 0 <= k < i ==> self.pairs()[k].0 != key@,
            decreases self.entries.len() - i,
        {
            if chars_eq(self.entries[i].0.as_str(), key) {
                return Some(i);
            }
            i += 1;
        }
        None
    }

    /// Whether the map holds `key`.
    pub fn contains_key(&self, key: &str) -> (b: bool)
        ensures
            b == self@.contains_key(key@),
    {
        self.find(key).is_some()
    }

    /// The value under `key`, if the map holds the key.
    pub fn get(&self, key: &str) -> (r: Option<&String>)
        ensures
            match r {
                Some(v) => self@.contains_key(key@) && v@ == self@[key@],
                None => !self@.contains_key(key@),
            },
    {
        match self.find(key) {
            Some(i) => {
                proof {
                    use_type_invariant(self);
                    lemma_map_of_at(self.pairs(), i as int);
                }
                Some(&self.entries[i].1)
            },
            None => None,
        }
    }

    /// Sets `key` to `value`. A key that is already present keeps its place
    /// and loses its old value; a new key goes to the end.
    pub fn insert(&mut self, key: String, value: String)
        ensures
            final(self)@ == old(self)@.insert(key@, value@),
            final(self).pairs() == put(old(self).pairs(), key@, value@),
            distinct_keys(final(self).pairs()),
    {
        proof {
            use_type_invariant(&*self);
            lemma_put(self.pairs(), key@, value@);
        }
        let ghost before = self.pairs();
        let ghost k = key@;
        let ghost v = value@;
        let found = self.find(key.as_str());
        let mut entries: Vec<(String, String)> = Vec::new();
        core::mem::swap(&mut entries, &mut self.entries);
        assert(self.pairs() =~= Seq::<(Seq<char>, Seq<char>)>::empty());
        match found {
            Some(i) => {
                entries.set(i, (key, value));
                proof {
                    lemma_first_index_of(before, k, i as int);
                }
            },
            None => {
                entries.push((key, value));
                proof {
                    lemma_first_index_of_range(before, k);
                }
            },
        }
        let ghost after = Seq::new(entries@.len(), |i: int| (entries@[i].0@, entries@[i].1@));
        assert(after =~= put(before, k, v));
        core::mem::swap(&mut entries, &mut self.entries);
        assert(self.pairs() =~= after);
    }

    /// The key at position `i`.
    pub fn key_at(&self, i: usize) -> (k: &String)
        requires
            i < self.pairs().len(),
        ensures
            k@ == self.pairs()[i as int].0,
    {
        &self.entries[i].0
    }

    /// The value at position `i`.
    pub fn value_at(&self, i: usize) -> (v: &String)
        requires
            i < self.pairs().len(),
        ensures
            v@ == self.pairs()[i as int].1,
    {
        &self.entries[i].1
    }
}

impl Clone for StringMap {
    fn clone(&self) -> (m: Self)
        ensures
            m@ == self@,
            m.pairs() == self.pairs(),
            distinct_keys(m.pairs()),
    {
        proof {
            use_type_invariant(self);
        }
        let mut entries: Vec<(String, String)> = Vec::new();
        let mut i: usize = 0;
        while i < self.entries.len()
            invariant
                i <= self.entries.len(),
                entries@.len() == i,
                forall|k: int| 0 <= k < i ==> entries@[k].0@ == self.entries@[k].0@ && entries@[k].1@
                    == self.entries@[k].1@,
            decreases self.entries.len() - i,
        {
            entries.push((self.entries[i].0.clone(), self.entries[i].1.clone()));
            i += 1;
        }
        let ghost p = Seq::new(entries@.len(), |i: int| (entries@[i].0@, entries@[i].1@));
        assert(p =~= self.pairs());
        let m = StringMap { entries };
        assert(m.pairs() =~= self.pairs());
        m
    }
}

/// The first position of `pairs` that holds `key`, or `pairs.len()`.
pub open spec fn first_index_of(pairs: Seq<(Seq<char>, Seq<char>)>, key: Seq<char>) -> int
    decreases pairs.len(),
{
    if pairs.len() == 0 {
        0
    } else if pairs[0].0 == key {
        0
    } else {
        1 + first_index_of(pairs.drop_first(), key)
    }
}

/// `pairs` with `key` set to `value`: in place where the key is present, at
/// the end where it is not.
pub open spec fn put(pairs: Seq<(Seq<char>, Seq<char>)>, key: Seq<char>, value: Seq<char>) -> Seq<
    (Seq<char>, Seq<char>),
> {
    let i = first_index_of(pairs, key);
    if 0 <= i < pairs.len() {
        pairs.update(i, (key, value))
    } else {
        pairs.push((key, value))
    }
}

/// `first_index_of` is a position of the key, or the length when the key is absent.
pub proof fn lemma_first_index_of_range(pairs: Seq<(Seq<char>, Seq<char>)>, key: Seq<char>)
    ensures
        0 <= first_index_of(pairs, key) <= pairs.len(),
        first_index_of(pairs, key) < pairs.len() ==> pairs[first_index_of(pairs, key)].0 == key,
        forall|k: int| 0 <= k < first_index_of(pairs, key) ==> pairs[k].0 != key,
        first_index_of(pairs, key) < pairs.len() <==> has_key(pairs, key),
    decreases pairs.len(),
{
    if pairs.len() != 0 && pairs[0].0 != key {
        let t = pairs.drop_first();
        lemma_first_index_of_range(t, key);
        assert forall|k: int| 0 <= k < first_index_of(pairs, key) implies pairs[k].0 != key by {
            if k > 0 {
                assert(pairs[k] == t[k - 1]);
            }
        }
    }
    let f = first_index_of(pairs, key);
    if has_key(pairs, key) {
        let p = position_of(pairs, key);
        if f >= pairs.len() {
            assert(pairs[p].0 != key);
        }
    }
    if f < pairs.len() {
        assert(pairs[f].0 == key);
    }
}

/// A position that holds the key, with none before it, is the first index.
pub proof fn lemma_first_index_of(pairs: Seq<(Seq<char>, Seq<char>)>, key: Seq<char>, i: int)
    requires
        0 <= i <= pairs.len(),
        i < pairs.len() ==> pairs[i].0 == key,
        forall|k: int| 0 <= k < i ==> pairs[k].0 != key,
    ensures
        first_index_of(pairs, key) == i,
{
    lemma_first_index_of_range(pairs, key);
    let f = first_index_of(pairs, key);
    if f < i {
        assert(pairs[f].0 != key);
    }
}

/// Putting a key keeps the keys distinct and inserts into the map.
pub proof fn lemma_put(pairs: Seq<(Seq<char>, Seq<char>)>, key: Seq<char>, value: Seq<char>)
    requires
        distinct_keys(pairs),
    ensures
        distinct_keys(put(pairs, key, value)),
        map_of(put(pairs, key, value)) == map_of(pairs).insert(key, value),
{
    lemma_first_index_of_range(pairs, key);
    let q = put(pairs, key, value);
    let i = first_index_of(pairs, key);
    assert(distinct_keys(q)) by {
        assert forall|a: int, b: int| 0 <= a < b < q.len() implies q[a].0 != q[b].0 by {
            if i < pairs.len() {
                assert(q[a].0 == pairs[a].0);
                assert(q[b].0 == pairs[b].0);
            } else {
                if b == pairs.len() {
                    assert(pairs[a].0 != key);
                }
            }
        }
    }
    let m1 = map_of(q);
    let m2 = map_of(pairs).insert(key, value);
    assert forall|k: Seq<char>| m1.contains_key(k) <==> m2.contains_key(k) by {
        if m1.contains_key(k) {
            let p = position_of(q, k);
            if k != key {
                assert(p < pairs.len());
                assert(pairs[p].0 == k);
            }
        }
        if m2.contains_key(k) {
            if k == key {
                let w = if i < pairs.len() { i } else { pairs.len() as int };
                assert(q[w].0 == k);
            } else {
                let p = position_of(pairs, k);
                assert(q[p].0 == k);
            }
        }
    }
    assert forall|k: Seq<char>| m1.contains_key(k) implies m1[k] == m2[k] by {
        let p = position_of(q, k);
        lemma_map_of_at(q, p);
        if k != key {
            assert(p < pairs.len());
            assert(pairs[p].0 == k);
            lemma_map_of_at(pairs, p);
        }
    }
    assert(m1 =~= m2);
}

/// The map of a sequence of pairs has finitely many keys.
pub proof fn lemma_map_of_finite(pairs: Seq<(Seq<char>, Seq<char>)>)
    ensures
        map_of(pairs).dom().finite(),
        map_of(pairs).dom().len() <= pairs.len(),
    decreases pairs.len(),
{
    if pairs.len() == 0 {
        assert(map_of(pairs).dom() =~= Set::<Seq<char>>::empty());
    } else {
        let t = pairs.drop_last();
        lemma_map_of_finite(t);
        let k = pairs.last().0;
        assert(map_of(pairs).dom() =~= map_of(t).dom().insert(k)) by {
            assert forall|x: Seq<char>| map_of(pairs).dom().contains(x) implies map_of(
                t,
            ).dom().insert(k).contains(x) by {
                let p = position_of(pairs, x);
                if p < t.len() {
                    assert(t[p].0 == x);
                }
            }
            assert forall|x: Seq<char>| map_of(t).dom().insert(k).contains(x) implies map_of(
                pairs,
            ).dom().contains(x) by {
                if x == k {
                    assert(pairs[pairs.len() - 1].0 == x);
                } else {
                    let p = position_of(t, x);
                    assert(pairs[p].0 == x);
                }
            }
        }
    }
}

/// With distinct keys the map has as many keys as there are pairs.
pub proof fn lemma_map_of_len(pairs: Seq<(Seq<char>, Seq<char>)>)
    requires
        distinct_keys(pairs),
    ensures
        map_of(pairs).dom().finite(),
        map_of(pairs).dom().len() == pairs.len(),
    decreases pairs.len(),
{
    lemma_map_of_finite(pairs);
    if pairs.len() > 0 {
        let t = pairs.drop_last();
        lemma_map_of_len(t);
        lemma_map_of_finite(t);
        let k = pairs.last().0;
        assert(!map_of(t).dom().contains(k)) by {
            if has_key(t, k) {
                let p = position_of(t, k);
                assert(pairs[p].0 != pairs[pairs.len() - 1].0);
            }
        }
        assert(map_of(pairs).dom() =~= map_of(t).dom().insert(k)) by {
            assert forall|x: Seq<char>| map_of(pairs).dom().contains(x) implies map_of(
                t,
            ).dom().insert(k).contains(x) by {
                let p = position_of(pairs, x);
                if p < t.len() {
                    assert(t[p].0 == x);
                }
            }
            assert forall|x: Seq<char>| map_of(t).dom().insert(k).contains(x) implies map_of(
                pairs,
            ).dom().contains(x) by {
                if x == k {
                    assert(pairs[pairs.len() - 1].0 == x);
                } else {
                    let p = position_of(t, x);
                    assert(pairs[p].0 == x);
                }
            }
        }
    }
}

} // verus!
