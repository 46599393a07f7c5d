//! A map from string keys to values, keyed by character content.
//!
//! Documents and tracker records are small, so the map is a vector of
//! key/value pairs.  Its mathematical value is a `Map` from character
//! sequences to value views; a later pair with the same key content wins,
//! and every map handed out by this module keeps its keys distinct.

use vstd::prelude::*;

verus! {

/// Association map from string keys to values.
pub struct StrMap<V> {
    pub pairs: Vec<(String, V)>,
}

/// No two pairs carry the same key content.
pub open spec fn distinct_keys<V>(pairs: Seq<(String, V)>) -> bool {
    forall|i: int, j: int| 0 <= i < j < pairs.len() ==> pairs[i].0@ != pairs[j].0@
}

/// The map a pair sequence denotes; a later pair overrides an earlier one.
pub open spec fn map_of<V: View>(pairs: Seq<(String, V)>) -> Map<Seq<char>, V::V>
    decreases pairs.len(),
{
    if pairs.len() == 0 {
        Map::empty()
    } else {
        map_of(pairs.drop_last()).insert(pairs.last().0@, pairs.last().1@)
    }
}

/// A key is in the map exactly when some pair carries it.
pub proof fn lemma_map_of_contains<V: View>(pairs: Seq<(String, V)>, k: Seq<char>)
    ensures
        map_of(pairs).contains_key(k) <==> exists|i: int| 0 <= i < pairs.len() && pairs[i].0@ == k,
    decreases pairs.len(),
{
    if pairs.len() > 0 {
        lemma_map_of_contains(pairs.drop_last(), k);
        if pairs.last().0@ == k {
            assert(pairs[pairs.len() - 1].0@ == k);
        } else if map_of(pairs).contains_key(k) {
            let i = choose|i: int| 0 <= i < pairs.drop_last().len() && pairs.drop_last()[i].0@
                == k;
            assert(pairs[i].0@ == k);
        } else if exists|i: int| 0 <= i < pairs.len() && pairs[i].0@ == k {
            let i = choose|i: int| 0 <= i < pairs.len() && pairs[i].0@ == k;
            assert(pairs.drop_last()[i].0@ == k);
        }
    }
}

/// With distinct keys, the pair at any index gives the map's value there.
pub proof fn lemma_map_of_index<V: View>(pairs: Seq<(String, V)>, i: int)
    requires
        distinct_keys(pairs),
        0 <= i < pairs.len(),
    ensures
        map_of(pairs).contains_key(pairs[i].0@),
        map_of(pairs)[pairs[i].0@] == pairs[i].1@,
    decreases pairs.len(),
{
    if i < pairs.len() - 1 {
        lemma_map_of_index(pairs.drop_last(), i);
        assert(pairs.drop_last()[i] == pairs[i]);
    }
}

/// Removing the pair at an index removes its key from the map.
pub proof fn lemma_map_of_remove<V: View>(pairs: Seq<(String, V)>, i: int)
    requires
        distinct_keys(pairs),
        0 <= i < pairs.len(),
    ensures
        map_of(pairs.remove(i)) == map_of(pairs).remove(pairs[i].0@),
    decreases pairs.len(),
{
    let k = pairs[i].0@;
    if i == pairs.len() - 1 {
        assert(pairs.remove(i) =~= pairs.drop_last());
        lemma_map_of_contains(pairs.drop_last(), k);
        assert(map_of(pairs.remove(i)) =~= map_of(pairs).remove(k));
    } else {
        lemma_map_of_remove(pairs.drop_last(), i);
        assert(pairs.remove(i).drop_last() =~= pairs.drop_last().remove(i));
        assert(pairs.remove(i).last() == pairs.last());
        assert(map_of(pairs.remove(i)) =~= map_of(pairs).remove(k));
    }
}

impl<V: View> View for StrMap<V> {
    type V = Map<Seq<char>, V::V>;

    open spec fn view(&self) -> Map<Seq<char>, V::V> {
        map_of(self.pairs@)
    }
}

impl<V: View> StrMap<V> {
    /// The underlying pair sequence, in insertion order.
    #[verifier::inline]
    pub open spec fn entries(&self) -> Seq<(String, V)> {
        self.pairs@
    }

    /// Every map built through this module keeps its keys distinct.
    pub open spec fn wf(&self) -> bool {
        distinct_keys(self.pairs@)
    }

    /// Ties each pair to the map value it denotes.
    pub proof fn lemma_entries(&self)
        requires
            self.wf(),
        ensures
            forall|i: int|
                0 <= i < self.entries().len() ==> #[trigger] self@.contains_key(
                    self.entries()[i].0@,
                ) && self@[self.entries()[i].0@] == self.entries()[i].1@,
            forall|k: Seq<char>|
                #[trigger] self@.contains_key(k) ==> exists|i: int|
                    0 <= i < self.entries().len() && self.entries()[i].0@ == k,
    {
        assert forall|i: int| 0 <= i < self.entries().len() implies #[trigger] self@.contains_key(
            self.entries()[i].0@,
        ) && self@[self.entries()[i].0@] == self.entries()[i].1@ by {
            lemma_map_of_index(self.pairs@, i);
        }
        assert forall|k: Seq<char>| #[trigger] self@.contains_key(k) implies exists|i: int|
            0 <= i < self.entries().len() && self.entries()[i].0@ == k by {
            lemma_map_of_contains(self.pairs@, k);
            let i = choose|i: int| 0 <= i < self.pairs@.len() && self.pairs@[i].0@ == k;
            assert(0 <= i < self.entries().len() && self.entries()[i].0@ == k);
        }
    }

    /// An empty map.
    pub fn new() -> (r: Self)
        ensures
            r@ == Map::<Seq<char>, V::V>::empty(),
            r.wf(),
            r.entries().len() == 0,
    {
        StrMap { pairs: Vec::new() }
    }

    /// How many pairs the map holds.
    pub fn len(&self) -> (n: usize)
        ensures
            n == self.entries().len(),
    {
        self.pairs.len()
    }

    /// The pair at an index, for iteration in insertion order.
    pub fn pair_at(&self, i: usize) -> (p: &(String, V))
        requires
            i < self.entries().len(),
        ensures
            *p == self.entries()[i as int],
            self.wf() ==> self@.contains_key(p.0@) && self@[p.0@] == p.1@,
    {
        proof {
            if self.wf() {
                lemma_map_of_index(self.pairs@, i as int);
            }
        }
        &self.pairs[i]
    }

    /// Whether a key is present.
    pub fn contains_key(&self, key: &String) -> (r: bool)
        ensures
            r == self@.contains_key(key@),
    {
        proof {
            lemma_map_of_contains(self.pairs@, key@);
        }
        let mut i: usize = 0;
        while i < self.pairs.len()
            invariant
                i <= self.pairs@.len(),
                forall|j: int| 0 <= j < i ==> self.pairs@[j].0@ != key@,
            decreases self.pairs@.len() - i,
        {
            if self.pairs[i].0 == *key {
                proof {
                    lemma_map_of_contains(self.pairs@, key@);
                    assert(exists|j: int|
                        0 <= j < self.pairs@.len() && self.pairs@[j].0@ == key@) by {
                        assert(self.pairs@[i as int].0@ == key@);
                    }
                }
                return true;
            }
            i = i + 1;
        }
        false
    }

    /// The value under a key, if the key is present.
    pub fn get(&self, key: &String) -> (r: Option<&V>)
        requires
            self.wf(),
        ensures
            match r {
                Some(v) => self@.contains_key(key@) && v@ == self@[key@],
                None => !self@.contains_key(key@),
            },
            r matches Some(v) ==> exists|i: int|
                0 <= i < self.entries().len() && (#[trigger] self.entries()[i]).0@ == key@
                    && self.entries()[i].1 == *v,
    {
        proof {
            lemma_map_of_contains(self.pairs@, key@);
        }
        let mut i: usize = 0;
        while i < self.pairs.len()
            invariant
                self.wf(),
                i <= self.pairs@.len(),
                forall|j: int| 0 <= j < i ==> self.pairs@[j].0@ != key@,
            decreases self.pairs@.len() - i,
        {
            if self.pairs[i].0 == *key {
                proof {
                    lemma_map_of_index(self.pairs@, i as int);
                    assert((#[trigger] self.entries()[i as int]).0@ == key@);
                }
                return Some(&self.pairs[i].1);
            }
            i = i + 1;
        }
        None
    }

    /// Inserts a value under a key, replacing any earlier value there.
    pub fn insert(&mut self, key: String, value: V)
        requires
            old(self).wf(),
        ensures
            final(self).wf(),
            final(self)@ == old(self)@.insert(key@, value@),
            forall|i: int|
                0 <= i < final(self).entries().len() ==> (#[trigger] final(self).entries()[i]).1
                    == value || exists|j: int|
                    0 <= j < old(self).entries().len() && old(self).entries()[j]
                        == final(self).entries()[i],
    {
        let mut i: usize = 0;
        while i < self.pairs.len()
            invariant
                self.wf(),
                self == old(self),
                i <= self.pairs@.len(),
                forall|j: int| 0 <= j < i ==> self.pairs@[j].0@ != key@,
            decreases self.pairs@.len() - i,
        {
            if self.pairs[i].0 == key {
                proof {
                    lemma_map_of_remove(self.pairs@, i as int);
                    lemma_map_of_index(self.pairs@, i as int);
                }
                let ghost removed = self.pairs@.remove(i as int);
                self.pairs.remove(i);
                self.pairs.push((key, value));
                proof {
                    assert(self.pairs@.drop_last() =~= removed);
                    assert(final(self)@ =~= old(self)@.insert(key@, value@));
                    assert forall|a: int, b: int|
                        0 <= a < b < self.pairs@.len() implies self.pairs@[a].0@
                        != self.pairs@[b].0@ by {
                        if b < self.pairs@.len() - 1 {
                            assert(removed[a] == self.pairs@[a]);
                            assert(removed[b] == self.pairs@[b]);
                        }
                    }
                    assert forall|a: int| 0 <= a < self.pairs@.len() implies (#[trigger] self.pairs@[a]).1
                        == value || exists|j: int|
                        0 <= j < old(self).pairs@.len() && old(self).pairs@[j]
                            == self.pairs@[a] by {
                        if a < self.pairs@.len() - 1 {
                            if a < i as int {
                                assert(old(self).pairs@[a] == self.pairs@[a]);
                            } else {
                                assert(old(self).pairs@[a + 1] == self.pairs@[a]);
                            }
                        }
                    }
                }
                return ;
            }
            i = i + 1;
        }
        self.pairs.push((key, value));
        proof {
            assert(self.pairs@.drop_last() =~= old(self).pairs@);
            assert(final(self)@ =~= old(self)@.insert(key@, value@));
            assert forall|a: int| 0 <= a < self.pairs@.len() implies (#[trigger] self.pairs@[a]).1
                == value || exists|j: int|
                0 <= j < old(self).pairs@.len() && old(self).pairs@[j] == self.pairs@[a] by {
                if a < self.pairs@.len() - 1 {
                    assert(old(self).pairs@[a] == self.pairs@[a]);
                }
            }
        }
    }
}

} // verus!
