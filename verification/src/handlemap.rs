//! A map from numeric handles to values, used for per-room state.
//!
//! The host asset pipeline identifies each loaded room resource by an
//! opaque handle, modeled here as a number.  The map mirrors `strmap`
//! but with handle keys; it also offers removal, which room teardown
//! needs.

use vstd::prelude::*;

verus! {

/// Association map from numeric handles to values.
pub struct HandleMap<V> {
    pub pairs: Vec<(u64, V)>,
}

/// No two pairs carry the same handle.
pub open spec fn distinct_handles<V>(pairs: Seq<(u64, V)>) -> bool {
    forall|i: int, j: int| 0 <= i < j < pairs.len() ==> pairs[i].0 != pairs[j].0
}

/// The map a pair sequence denotes; a later pair overrides an earlier one.
pub open spec fn handle_map_of<V: View>(pairs: Seq<(u64, V)>) -> Map<u64, V::V>
    decreases pairs.len(),
{
    if pairs.len() == 0 {
        Map::empty()
    } else {
        handle_map_of(pairs.drop_last()).insert(pairs.last().0, pairs.last().1@)
    }
}

/// A handle is in the map exactly when some pair carries it.
pub proof fn lemma_handle_map_of_contains<V: View>(pairs: Seq<(u64, V)>, k: u64)
    ensures
        handle_map_of(pairs).contains_key(k) <==> exists|i: int|
            0 <= i < pairs.len() && pairs[i].0 == k,
    decreases pairs.len(),
{
    if pairs.len() > 0 {
        lemma_handle_map_of_contains(pairs.drop_last(), k);
        if pairs.last().0 == k {
            assert(pairs[pairs.len() - 1].0 == k);
        } else if handle_map_of(pairs).contains_key(k) {
            let i = choose|i: int| 0 <= i < pairs.drop_last().len() && pairs.drop_last()[i].0 == k;
            assert(pairs[i].0 == k);
        } else if exists|i: int| 0 <= i < pairs.len() && pairs[i].0 == k {
            let i = choose|i: int| 0 <= i < pairs.len() && pairs[i].0 == k;
            assert(pairs.drop_last()[i].0 == k);
        }
    }
}

/// With distinct handles, the pair at any index gives the map's value there.
pub proof fn lemma_handle_map_of_index<V: View>(pairs: Seq<(u64, V)>, i: int)
    requires
        distinct_handles(pairs),
        0 <= i < pairs.len(),
    ensures
        handle_map_of(pairs).contains_key(pairs[i].0),
        handle_map_of(pairs)[pairs[i].0] == pairs[i].1@,
    decreases pairs.len(),
{
    if i < pairs.len() - 1 {
        lemma_handle_map_of_index(pairs.drop_last(), i);
        assert(pairs.drop_last()[i] == pairs[i]);
    }
}

/// Removing the pair at an index removes its handle from the map.
pub proof fn lemma_handle_map_of_remove<V: View>(pairs: Seq<(u64, V)>, i: int)
    requires
        distinct_handles(pairs),
        0 <= i < pairs.len(),
    ensures
        handle_map_of(pairs.remove(i)) == handle_map_of(pairs).remove(pairs[i].0),
    decreases pairs.len(),
{
    let k = pairs[i].0;
    if i == pairs.len() - 1 {
        assert(pairs.remove(i) =~= pairs.drop_last());
        lemma_handle_map_of_contains(pairs.drop_last(), k);
        assert(handle_map_of(pairs.remove(i)) =~= handle_map_of(pairs).remove(k));
    } else {
        lemma_handle_map_of_remove(pairs.drop_last(), i);
        assert(pairs.remove(i).drop_last() =~= pairs.drop_last().remove(i));
        assert(pairs.remove(i).last() == pairs.last());
        assert(handle_map_of(pairs.remove(i)) =~= handle_map_of(pairs).remove(k));
    }
}

impl<V: View> View for HandleMap<V> {
    type V = Map<u64, V::V>;

    open spec fn view(&self) -> Map<u64, V::V> {
        handle_map_of(self.pairs@)
    }
}

impl<V: View> HandleMap<V> {
    /// Every map built through this module keeps its handles distinct.
    pub open spec fn wf(&self) -> bool {
        distinct_handles(self.pairs@)
    }

    /// An empty map.
    pub fn new() -> (r: Self)
        ensures
            r@ == Map::<u64, V::V>::empty(),
            r.wf(),
            r.pairs@.len() == 0,
    {
        HandleMap { pairs: Vec::new() }
    }

    /// The value under a handle, if the handle is present.
    pub fn get(&self, key: u64) -> (r: Option<&V>)
        requires
            self.wf(),
        ensures
            match r {
                Some(v) => self@.contains_key(key) && v@ == self@[key],
                None => !self@.contains_key(key),
            },
    {
        let mut i: usize = 0;
        while i < self.pairs.len()
            invariant
                self.wf(),
                i <= self.pairs@.len(),
                forall|j: int| 0 <= j < i ==> self.pairs@[j].0 != key,
            decreases self.pairs@.len() - i,
        {
            if self.pairs[i].0 == key {
                proof {
                    lemma_handle_map_of_index(self.pairs@, i as int);
                }
                return Some(&self.pairs[i].1);
            }
            i = i + 1;
        }
        proof {
            lemma_handle_map_of_contains(self.pairs@, key);
        }
        None
    }

    /// Inserts a value under a handle, replacing any earlier value there.
    pub fn insert(&mut self, key: u64, value: V)
        requires
            old(self).wf(),
        ensures
            final(self).wf(),
            final(self)@ == old(self)@.insert(key, value@),
            forall|i: int|
                0 <= i < final(self).pairs@.len() ==> (#[trigger] final(self).pairs@[i]).1 == value
                    || exists|j: int|
                    0 <= j < old(self).pairs@.len() && old(self).pairs@[j]
                        == final(self).pairs@[i],
    {
        let mut i: usize = 0;
        while i < self.pairs.len()
            invariant
                self.wf(),
                self == old(self),
                i <= self.pairs@.len(),
                forall|j: int| 0 <= j < i ==> self.pairs@[j].0 != key,
            decreases self.pairs@.len() - i,
        {
            if self.pairs[i].0 == key {
                proof {
                    lemma_handle_map_of_remove(self.pairs@, i as int);
                    lemma_handle_map_of_index(self.pairs@, i as int);
                }
                let ghost removed = self.pairs@.remove(i as int);
                self.pairs.remove(i);
                self.pairs.push((key, value));
                proof {
                    assert(self.pairs@.drop_last() =~= removed);
                    assert(final(self)@ =~= old(self)@.insert(key, value@));
                    assert forall|a: int, b: int|
                        0 <= a < b < self.pairs@.len() implies self.pairs@[a].0
                        != self.pairs@[b].0 by {
                        if b < self.pairs@.len() - 1 {
                            assert(removed[a] == self.pairs@[a]);
                            assert(removed[b] == self.pairs@[b]);
                        }
                    }
                    assert forall|a: int| 0 <= a < self.pairs@.len() implies (#[trigger] self.pairs@[a]).1
                        == value || exists|j: int|
                        0 <= j < old(self).pairs@.len() && old(self).pairs@[j]
                            == self.pairs@[a] by {
                        if a < self.pairs@.len() - 1 {
                            if a < i as int {
                                assert(old(self).pairs@[a] == self.pairs@[a]);
                            } else {
                                assert(old(self).pairs@[a + 1] == self.pairs@[a]);
                            }
                        }
                    }
                }
                return ;
            }
            i = i + 1;
        }
        self.pairs.push((key, value));
        proof {
            assert(self.pairs@.drop_last() =~= old(self).pairs@);
            assert(final(self)@ =~= old(self)@.insert(key, value@));
            assert forall|a: int| 0 <= a < self.pairs@.len() implies (#[trigger] self.pairs@[a]).1
                == value || exists|j: int|
                0 <= j < old(self).pairs@.len() && old(self).pairs@[j] == self.pairs@[a] by {
                if a < self.pairs@.len() - 1 {
                    assert(old(self).pairs@[a] == self.pairs@[a]);
                }
            }
        }
    }

    /// Takes the value under a handle out of the map, if one is there.
    pub fn remove(&mut self, key: u64) -> (r: Option<V>)
        requires
            old(self).wf(),
        ensures
            final(self).wf(),
            final(self)@ == old(self)@.remove(key),
            match r {
                Some(v) => old(self)@.contains_key(key) && v@ == old(self)@[key],
                None => !old(self)@.contains_key(key),
            },
            r matches Some(v) ==> exists|i: int|
                0 <= i < old(self).pairs@.len() && old(self).pairs@[i].0 == key && (
                #[trigger] old(self).pairs@[i]).1 == v,
            forall|i: int|
                0 <= i < final(self).pairs@.len() ==> exists|j: int|
                    0 <= j < old(self).pairs@.len() && old(self).pairs@[j] == (
                    #[trigger] final(self).pairs@[i]),
    {
        let mut i: usize = 0;
        while i < self.pairs.len()
            invariant
                self.wf(),
                self == old(self),
                i <= self.pairs@.len(),
                forall|j: int| 0 <= j < i ==> self.pairs@[j].0 != key,
            decreases self.pairs@.len() - i,
        {
            if self.pairs[i].0 == key {
                proof {
                    lemma_handle_map_of_remove(self.pairs@, i as int);
                    lemma_handle_map_of_index(self.pairs@, i as int);
                }
                let ghost removed = self.pairs@.remove(i as int);
                let pair = self.pairs.remove(i);
                proof {
                    assert forall|a: int, b: int|
                        0 <= a < b < self.pairs@.len() implies self.pairs@[a].0
                        != self.pairs@[b].0 by {
                        if a < i as int {
                            assert(old(self).pairs@[a] == self.pairs@[a]);
                        } else {
                            assert(old(self).pairs@[a + 1] == self.pairs@[a]);
                        }
                        if b < i as int {
                            assert(old(self).pairs@[b] == self.pairs@[b]);
                        } else {
                            assert(old(self).pairs@[b + 1] == self.pairs@[b]);
                        }
                    }
                    assert forall|a: int|
                        0 <= a < self.pairs@.len() implies exists|j: int|
                        0 <= j < old(self).pairs@.len() && old(self).pairs@[j] == (
                        #[trigger] self.pairs@[a]) by {
                        if a < i as int {
                            assert(old(self).pairs@[a] == self.pairs@[a]);
                        } else {
                            assert(old(self).pairs@[a + 1] == self.pairs@[a]);
                        }
                    }
                    assert((#[trigger] old(self).pairs@[i as int]).1 == pair.1);
                }
                return Some(pair.1);
            }
            i = i + 1;
        }
        proof {
            lemma_handle_map_of_contains(self.pairs@, key);
            assert(final(self)@ =~= old(self)@.remove(key));
        }
        None
    }
}

} // verus!
