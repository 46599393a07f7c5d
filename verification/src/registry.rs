//! The archetype registry: a name-to-handler table populated once at
//! startup and consulted by every reconciliation pass.
//!
//! Dispatch is exact: `spawn` and `update` run the handler registered
//! under the entry's archetype name, and a name nobody registered yields
//! the unregistered-archetype error rather than a silent no-op.

use vstd::prelude::*;

use crate::data::PrefabData;
use crate::field::PrefabField;
use crate::prefab::{
    spawn_result_view, DefaultPrefab, PigParentPrefab, PlayerPrefab, Prefab, PrefabError,
};
use crate::strmap::StrMap;
use crate::world::AttrOp;

verus! {

/// The name-to-handler table.  Handlers are plain values of one handler
/// type; the crate's own archetypes combine into `DefaultPrefab`.
pub struct PrefabRegistry<H> {
    pub prefabs: Vec<(String, H)>,
}

/// No two registrations carry the same name.
pub open spec fn distinct_names<H>(pairs: Seq<(String, H)>) -> bool {
    forall|i: int, j: int| 0 <= i < j < pairs.len() ==> pairs[i].0@ != pairs[j].0@
}

/// The name-to-handler map a pair sequence denotes; a later registration
/// overrides an earlier one.
pub open spec fn registry_map_of<H>(pairs: Seq<(String, H)>) -> Map<Seq<char>, H>
    decreases pairs.len(),
{
    if pairs.len() == 0 {
        Map::empty()
    } else {
        registry_map_of(pairs.drop_last()).insert(pairs.last().0@, pairs.last().1)
    }
}

/// A name is registered exactly when some pair carries it.
pub proof fn lemma_registry_contains<H>(pairs: Seq<(String, H)>, k: Seq<char>)
    ensures
        registry_map_of(pairs).contains_key(k) <==> exists|i: int|
            0 <= i < pairs.len() && pairs[i].0@ == k,
    decreases pairs.len(),
{
    if pairs.len() > 0 {
        lemma_registry_contains(pairs.drop_last(), k);
        if pairs.last().0@ == k {
            assert(pairs[pairs.len() - 1].0@ == k);
        } else if registry_map_of(pairs).contains_key(k) {
            let i = choose|i: int| 0 <= i < pairs.drop_last().len() && pairs.drop_last()[i].0@
                == k;
            assert(pairs[i].0@ == k);
        } else if exists|i: int| 0 <= i < pairs.len() && pairs[i].0@ == k {
            let i = choose|i: int| 0 <= i < pairs.len() && pairs[i].0@ == k;
            assert(pairs.drop_last()[i].0@ == k);
        }
    }
}

/// With distinct names, the pair at any index gives the handler there.
pub proof fn lemma_registry_index<H>(pairs: Seq<(String, H)>, i: int)
    requires
        distinct_names(pairs),
        0 <= i < pairs.len(),
    ensures
        registry_map_of(pairs).contains_key(pairs[i].0@),
        registry_map_of(pairs)[pairs[i].0@] == pairs[i].1,
    decreases pairs.len(),
{
    if i < pairs.len() - 1 {
        lemma_registry_index(pairs.drop_last(), i);
        assert(pairs.drop_last()[i] == pairs[i]);
    }
}

/// Removing the pair at an index removes its name from the map.
pub proof fn lemma_registry_remove<H>(pairs: Seq<(String, H)>, i: int)
    requires
        distinct_names(pairs),
        0 <= i < pairs.len(),
    ensures
        registry_map_of(pairs.remove(i)) == registry_map_of(pairs).remove(pairs[i].0@),
    decreases pairs.len(),
{
    let k = pairs[i].0@;
    if i == pairs.len() - 1 {
        assert(pairs.remove(i) =~= pairs.drop_last());
        lemma_registry_contains(pairs.drop_last(), k);
        assert(registry_map_of(pairs.remove(i)) =~= registry_map_of(pairs).remove(k));
    } else {
        lemma_registry_remove(pairs.drop_last(), i);
        assert(pairs.remove(i).drop_last() =~= pairs.drop_last().remove(i));
        assert(pairs.remove(i).last() == pairs.last());
        assert(registry_map_of(pairs.remove(i)) =~= registry_map_of(pairs).remove(k));
    }
}

impl<H> View for PrefabRegistry<H> {
    type V = Map<Seq<char>, H>;

    open spec fn view(&self) -> Map<Seq<char>, H> {
        registry_map_of(self.prefabs@)
    }
}

impl<H> PrefabRegistry<H> {
    /// The registry keeps its names distinct.
    pub open spec fn wf(&self) -> bool {
        distinct_names(self.prefabs@)
    }

    /// A registry with nothing registered.
    pub fn new() -> (r: Self)
        ensures
            r@ == Map::<Seq<char>, H>::empty(),
            r.wf(),
    {
        PrefabRegistry { prefabs: Vec::new() }
    }

    /// Registers a handler under a name, replacing any earlier handler
    /// registered there.
    pub fn register_prefab(&mut self, name: &str, prefab: H)
        requires
            old(self).wf(),
        ensures
            final(self).wf(),
            final(self)@ == old(self)@.insert(name@, prefab),
    {
        let key: String = name.to_owned();
        let mut i: usize = 0;
        while i < self.prefabs.len()
            invariant
                self.wf(),
                self == old(self),
                key@ == name@,
                i <= self.prefabs@.len(),
                forall|j: int| 0 <= j < i ==> self.prefabs@[j].0@ != key@,
            decreases self.prefabs@.len() - i,
        {
            if self.prefabs[i].0 == key {
                proof {
                    lemma_registry_remove(self.prefabs@, i as int);
                    lemma_registry_index(self.prefabs@, i as int);
                }
                let ghost removed = self.prefabs@.remove(i as int);
                self.prefabs.remove(i);
                self.prefabs.push((key, prefab));
                proof {
                    assert(self.prefabs@.drop_last() =~= removed);
                    assert(final(self)@ =~= old(self)@.insert(name@, prefab));
                    assert forall|a: int, b: int|
                        0 <= a < b < self.prefabs@.len() implies self.prefabs@[a].0@
                        != self.prefabs@[b].0@ by {
                        if b < self.prefabs@.len() - 1 {
                            assert(removed[a] == self.prefabs@[a]);
                            assert(removed[b] == self.prefabs@[b]);
                        }
                    }
                }
                return ;
            }
            i = i + 1;
        }
        self.prefabs.push((key, prefab));
        proof {
            assert(self.prefabs@.drop_last() =~= old(self).prefabs@);
            assert(final(self)@ =~= old(self)@.insert(name@, prefab));
        }
    }

    /// The handler registered under a name, if there is one.
    pub fn get_handler(&self, name: &String) -> (r: Option<&H>)
        requires
            self.wf(),
        ensures
            match r {
                Some(h) => self@.contains_key(name@) && *h == self@[name@],
                None => !self@.contains_key(name@),
            },
    {
        let mut i: usize = 0;
        while i < self.prefabs.len()
            invariant
                self.wf(),
                i <= self.prefabs@.len(),
                forall|j: int| 0 <= j < i ==> self.prefabs@[j].0@ != name@,
            decreases self.prefabs@.len() - i,
        {
            if self.prefabs[i].0 == *name {
                proof {
                    lemma_registry_index(self.prefabs@, i as int);
                }
                return Some(&self.prefabs[i].1);
            }
            i = i + 1;
        }
        proof {
            lemma_registry_contains(self.prefabs@, name@);
        }
        None
    }
}

impl<H: Prefab> PrefabRegistry<H> {
    /// Runs the spawn operation of the handler registered under the
    /// entry's archetype name; an unregistered name is the documented
    /// error, never a silent no-op and never a different handler.
    pub fn spawn(&self, prefab_data: &PrefabData) -> (r: Result<Vec<AttrOp>, PrefabError>)
        requires
            self.wf(),
            prefab_data.wf(),
        ensures
            self@.contains_key(prefab_data@.prefab_type) ==> spawn_result_view(r)
                == self@[prefab_data@.prefab_type].spawn_spec(prefab_data@.fields),
            !self@.contains_key(prefab_data@.prefab_type) ==> r == Err::<
                Vec<AttrOp>,
                PrefabError,
            >(PrefabError::UnregisteredArchetype),
    {
        match self.get_handler(&prefab_data.prefab_type) {
            Some(handler) => handler.spawn_prfab(&prefab_data.fields),
            None => Err(PrefabError::UnregisteredArchetype),
        }
    }

    /// Runs the update operation of the handler registered under the
    /// given archetype name on the changed fields alone.
    pub fn update(&self, prefab_type: &String, changed_fields: &StrMap<PrefabField>) -> (r: Result<
        Vec<AttrOp>,
        PrefabError,
    >)
        requires
            self.wf(),
            changed_fields.wf(),
        ensures
            self@.contains_key(prefab_type@) ==> (r matches Ok(ops) && ops.deep_view()
                == self@[prefab_type@].update_spec(changed_fields@)),
            !self@.contains_key(prefab_type@) ==> r == Err::<Vec<AttrOp>, PrefabError>(
                PrefabError::UnregisteredArchetype,
            ),
    {
        match self.get_handler(prefab_type) {
            Some(handler) => Ok(handler.update_prfab(changed_fields)),
            None => Err(PrefabError::UnregisteredArchetype),
        }
    }
}

/// Registers this crate's default archetypes: "Player" and "PigParent".
pub fn register_default_prefabs(registry: &mut PrefabRegistry<DefaultPrefab>)
    requires
        old(registry).wf(),
    ensures
        final(registry).wf(),
        final(registry)@ == old(registry)@.insert(
            "Player"@,
            DefaultPrefab::Player(PlayerPrefab),
        ).insert("PigParent"@, DefaultPrefab::PigParent(PigParentPrefab)),
{
    registry.register_prefab("Player", DefaultPrefab::Player(PlayerPrefab));
    registry.register_prefab("PigParent", DefaultPrefab::PigParent(PigParentPrefab));
}

} // verus!
