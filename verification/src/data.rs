//! One prefab entry of a room document: an archetype name plus a bag of
//! named scalar fields, and the field-level diff that drives hot reload.

use vstd::prelude::*;

use crate::field::{FieldView, PrefabField};
use crate::strmap::StrMap;

verus! {

/// The mathematical value of a `PrefabData`.
pub struct PrefabDataView {
    pub prefab_type: Seq<char>,
    pub fields: Map<Seq<char>, FieldView>,
}

/// A declarative description of one scene object: which archetype
/// handles it and the named values it is built from.
pub struct PrefabData {
    pub prefab_type: String,
    pub fields: StrMap<PrefabField>,
}

impl View for PrefabData {
    type V = PrefabDataView;

    open spec fn view(&self) -> PrefabDataView {
        PrefabDataView { prefab_type: self.prefab_type@, fields: self.fields@ }
    }
}

/// Whether the value under `k` in `new_fields` is absent from or different
/// in `old_fields`.
pub open spec fn field_changed(
    old_fields: Map<Seq<char>, FieldView>,
    new_fields: Map<Seq<char>, FieldView>,
    k: Seq<char>,
) -> bool {
    new_fields.contains_key(k) && (!old_fields.contains_key(k) || old_fields[k] != new_fields[k])
}

impl PrefabData {
    /// The field map keeps its keys distinct.
    pub open spec fn wf(&self) -> bool {
        self.fields.wf()
    }

    /// The changed-field set of a reload: exactly the keys of `new_fields`
    /// whose value differs from, or is absent in, `old_fields`.
    pub open spec fn spec_changed_fields(
        old_fields: Map<Seq<char>, FieldView>,
        new_fields: Map<Seq<char>, FieldView>,
    ) -> Map<Seq<char>, FieldView> {
        Map::new(|k: Seq<char>| field_changed(old_fields, new_fields, k), |k: Seq<char>| new_fields[k])
    }

    /// Computes the changed-field set between the snapshot a prefab was
    /// last applied with and its freshly loaded data.  Two prefabs of
    /// different archetypes have no meaningful diff: the result is empty,
    /// and the caller is expected to leave the entity untouched.
    pub fn get_changed_fields(old_prefab: &PrefabData, new_prefab: &PrefabData) -> (r: StrMap<
        PrefabField,
    >)
        requires
            old_prefab.wf(),
            new_prefab.wf(),
        ensures
            r.wf(),
            old_prefab@.prefab_type != new_prefab@.prefab_type ==> r@ == Map::<
                Seq<char>,
                FieldView,
            >::empty(),
            old_prefab@.prefab_type == new_prefab@.prefab_type ==> r@
                == Self::spec_changed_fields(old_prefab@.fields, new_prefab@.fields),
    {
        let mut r: StrMap<PrefabField> = StrMap::new();
        if !(old_prefab.prefab_type == new_prefab.prefab_type) {
            return r;
        }
        let mut i: usize = 0;
        while i < new_prefab.fields.len()
            invariant
                old_prefab.wf(),
                new_prefab.wf(),
                r.wf(),
                i <= new_prefab.fields.entries().len(),
                forall|k: Seq<char>| #[trigger]
                    r@.contains_key(k) ==> field_changed(old_prefab@.fields, new_prefab@.fields, k)
                        && r@[k] == new_prefab@.fields[k],
                forall|j: int|
                    0 <= j < i ==> (field_changed(
                        old_prefab@.fields,
                        new_prefab@.fields,
                        #[trigger] new_prefab.fields.entries()[j].0@,
                    ) <==> r@.contains_key(new_prefab.fields.entries()[j].0@)),
            decreases new_prefab.fields.entries().len() - i,
        {
            let pair = new_prefab.fields.pair_at(i);
            let changed: bool = match old_prefab.fields.get(&pair.0) {
                Some(other_field) => !(*other_field == pair.1),
                None => true,
            };
            if changed {
                r.insert(pair.0.clone(), pair.1.clone());
            }
            i = i + 1;
        }
        proof {
            new_prefab.fields.lemma_entries();
            assert(r@ =~= Self::spec_changed_fields(old_prefab@.fields, new_prefab@.fields));
        }
        r
    }

    /// A copy carrying the same value, usable as a tracker snapshot.
    pub fn clone_data(&self) -> (r: PrefabData)
        requires
            self.wf(),
        ensures
            r@ == self@,
            r.wf(),
    {
        let mut fields: StrMap<PrefabField> = StrMap::new();
        let mut i: usize = 0;
        while i < self.fields.len()
            invariant
                self.wf(),
                fields.wf(),
                i <= self.fields.entries().len(),
                fields@ == crate::strmap::map_of(self.fields.entries().take(i as int)),
            decreases self.fields.entries().len() - i,
        {
            let pair = self.fields.pair_at(i);
            fields.insert(pair.0.clone(), pair.1.clone());
            proof {
                assert(self.fields.entries().take(i + 1).drop_last() =~= self.fields.entries().take(
                    i as int,
                ));
                assert(fields@ =~= crate::strmap::map_of(self.fields.entries().take(i + 1)));
            }
            i = i + 1;
        }
        proof {
            assert(self.fields.entries().take(self.fields.entries().len() as int)
                =~= self.fields.entries());
        }
        PrefabData { prefab_type: self.prefab_type.clone(), fields }
    }
}

/// Diffing a snapshot against identical data yields no changed fields:
/// an unchanged document issues no attribute mutations on reload.
pub proof fn lemma_identical_fields_unchanged(fields: Map<Seq<char>, FieldView>)
    ensures
        PrefabData::spec_changed_fields(fields, fields) =~= Map::<Seq<char>, FieldView>::empty(),
{
}

} // verus!
