//! The room tracker and the reconciliation engine.
//!
//! For every loaded room the tracker records, per prefab id, the live
//! entity that represents it and the data it was last applied with.  A
//! reconciliation pass brings that record — and, through the emitted
//! operations, the host world — into agreement with a newly loaded or
//! changed document: new ids are spawned, changed ids get only their
//! changed fields applied, vanished ids are despawned.  A failure is
//! scoped to its single entry; the rest of the room is still reconciled.

use vstd::prelude::*;

use crate::data::{lemma_identical_fields_unchanged, PrefabData, PrefabDataView};
use crate::handlemap::HandleMap;
use crate::prefab::Prefab;
use crate::registry::PrefabRegistry;
use crate::room::{Room, RoomEvent, RoomHandle};
use crate::strmap::StrMap;
use crate::world::{
    attr_mutation_count, despawned_entities, lemma_op_sets_push, mutations_before_despawns,
    spawned_entities, Entity, EntityAllocator, WorldOp, WorldOpView,
};

verus! {

/// What the tracker records for one prefab id: the live entity and the
/// snapshot the next diff is computed against.
pub struct TrackedPrefab {
    pub entity: Entity,
    pub data: PrefabData,
}

/// The mathematical value of a `TrackedPrefab`.
pub struct TrackedPrefabView {
    pub entity: Entity,
    pub data: PrefabDataView,
}

impl View for TrackedPrefab {
    type V = TrackedPrefabView;

    open spec fn view(&self) -> TrackedPrefabView {
        TrackedPrefabView { entity: self.entity, data: self.data@ }
    }
}

/// A per-room record keeps distinct ids and well-formed snapshots.
pub open spec fn record_wf(rec: StrMap<TrackedPrefab>) -> bool {
    &&& rec.wf()
    &&& forall|i: int| 0 <= i < rec.entries().len() ==> (#[trigger] rec.entries()[i]).1.data.wf()
}

/// Per loaded room, the mapping from prefab id to its live entity and
/// last-applied data.  An absent room handle means "not yet observed",
/// distinct from a room known with zero prefabs.
pub struct RoomTracker {
    pub rooms: HandleMap<StrMap<TrackedPrefab>>,
}

impl View for RoomTracker {
    type V = Map<u64, Map<Seq<char>, TrackedPrefabView>>;

    open spec fn view(&self) -> Map<u64, Map<Seq<char>, TrackedPrefabView>> {
        self.rooms@
    }
}

impl RoomTracker {
    /// Handles are distinct and every record is well formed.
    pub open spec fn wf(&self) -> bool {
        &&& self.rooms.wf()
        &&& forall|i: int|
            0 <= i < self.rooms.pairs@.len() ==> record_wf((#[trigger] self.rooms.pairs@[i]).1)
    }

    /// Every known entity was allocated before `next`, and no two
    /// known ids — in the same room or in different rooms — share an
    /// entity.
    pub open spec fn entities_ok(&self, next: u64) -> bool {
        &&& forall|h: u64, id: Seq<char>|
            self@.contains_key(h) && #[trigger] self@[h].contains_key(id) ==> self@[h][id].entity.id
                < next
        &&& forall|h1: u64, id1: Seq<char>, h2: u64, id2: Seq<char>|
            #![trigger self@[h1][id1].entity, self@[h2][id2].entity]
            self@.contains_key(h1) && self@[h1].contains_key(id1) && self@.contains_key(h2)
                && self@[h2].contains_key(id2) && self@[h1][id1].entity == self@[h2][id2].entity
                ==> h1 == h2 && id1 == id2
    }

    /// A tracker that has observed nothing.
    pub fn new() -> (r: RoomTracker)
        ensures
            r@ == Map::<u64, Map<Seq<char>, TrackedPrefabView>>::empty(),
            r.wf(),
            forall|next: u64| r.entities_ok(next),
    {
        let r = RoomTracker { rooms: HandleMap::new() };
        proof {
            assert forall|next: u64| r.entities_ok(next) by {
                assert(r@ == Map::<u64, Map<Seq<char>, TrackedPrefabView>>::empty());
            }
        }
        r
    }
}

/// A known entry whose archetype is unchanged and registered gets the
/// update dispatched; anything else known is skipped with a warning.
pub open spec fn entry_updated<H: Prefab>(
    reg: Map<Seq<char>, H>,
    orec: Map<Seq<char>, TrackedPrefabView>,
    id: Seq<char>,
    d: PrefabDataView,
) -> bool {
    orec.contains_key(id) && orec[id].data.prefab_type == d.prefab_type && reg.contains_key(
        d.prefab_type,
    )
}

/// Whether a document entry ends up in the new record: every known id
/// stays; a new id stays exactly when its archetype is registered and its
/// spawn succeeds.
pub open spec fn entry_kept<H: Prefab>(
    reg: Map<Seq<char>, H>,
    orec: Map<Seq<char>, TrackedPrefabView>,
    id: Seq<char>,
    d: PrefabDataView,
) -> bool {
    orec.contains_key(id) || (reg.contains_key(d.prefab_type) && reg[d.prefab_type].spawn_spec(
        d.fields,
    ) is Ok)
}

/// The snapshot recorded for a kept id: the new data, except that a
/// known entry that was skipped — archetype changed or unregistered —
/// keeps its old snapshot untouched.
pub open spec fn kept_data<H: Prefab>(
    reg: Map<Seq<char>, H>,
    orec: Map<Seq<char>, TrackedPrefabView>,
    id: Seq<char>,
    d: PrefabDataView,
) -> PrefabDataView {
    if !orec.contains_key(id) || entry_updated(reg, orec, id, d) {
        d
    } else {
        orec[id].data
    }
}

/// A document that matches the record's snapshots exactly: same id-set,
/// same data everywhere.
pub open spec fn doc_matches_record(
    doc: Map<Seq<char>, PrefabDataView>,
    orec: Map<Seq<char>, TrackedPrefabView>,
) -> bool {
    &&& doc.dom() == orec.dom()
    &&& forall|id: Seq<char>| #[trigger] doc.contains_key(id) ==> orec[id].data == doc[id]
}

/// The entities of known ids that vanished from the document.
pub open spec fn dropped_entities(
    orec: Map<Seq<char>, TrackedPrefabView>,
    doc: Map<Seq<char>, PrefabDataView>,
) -> Set<Entity> {
    Set::new(
        |e: Entity|
            exists|id: Seq<char>|
                orec.contains_key(id) && !doc.contains_key(id) && (#[trigger] orec[id]).entity
                    == e,
    )
}

/// All entities a record references.
pub open spec fn record_entities(rec: Map<Seq<char>, TrackedPrefabView>) -> Set<Entity> {
    Set::new(
        |e: Entity|
            exists|id: Seq<char>| rec.contains_key(id) && (#[trigger] rec[id]).entity == e,
    )
}

/// The entities of ids the pass newly spawned.
pub open spec fn fresh_entities(
    orec: Map<Seq<char>, TrackedPrefabView>,
    nrec: Map<Seq<char>, TrackedPrefabView>,
) -> Set<Entity> {
    Set::new(
        |e: Entity|
            exists|id: Seq<char>|
                nrec.contains_key(id) && !orec.contains_key(id) && (#[trigger] nrec[id]).entity
                    == e,
    )
}

/// Inserting a newly spawned id adds exactly its entity to the fresh set.
proof fn lemma_fresh_insert(
    orec: Map<Seq<char>, TrackedPrefabView>,
    nrec: Map<Seq<char>, TrackedPrefabView>,
    id: Seq<char>,
    v: TrackedPrefabView,
)
    requires
        !orec.contains_key(id),
        !nrec.contains_key(id),
    ensures
        fresh_entities(orec, nrec.insert(id, v)) =~= fresh_entities(orec, nrec).insert(v.entity),
{
    let n2 = nrec.insert(id, v);
    assert forall|e: Entity| fresh_entities(orec, n2).contains(e) implies fresh_entities(
        orec,
        nrec,
    ).insert(v.entity).contains(e) by {
        let w = choose|w: Seq<char>|
            n2.contains_key(w) && !orec.contains_key(w) && (#[trigger] n2[w]).entity == e;
        if w != id {
            assert(nrec.contains_key(w) && (#[trigger] nrec[w]).entity == e);
        }
    }
    assert forall|e: Entity|
        fresh_entities(orec, nrec).insert(v.entity).contains(e) implies fresh_entities(
        orec,
        n2,
    ).contains(e) by {
        if fresh_entities(orec, nrec).contains(e) {
            let w = choose|w: Seq<char>|
                nrec.contains_key(w) && !orec.contains_key(w) && (#[trigger] nrec[w]).entity == e;
            assert(n2.contains_key(w) && (#[trigger] n2[w]).entity == e);
        } else {
            assert(n2.contains_key(id) && (#[trigger] n2[id]).entity == e);
        }
    }
}

/// Inserting a known id never changes the fresh set.
proof fn lemma_fresh_insert_tracked(
    orec: Map<Seq<char>, TrackedPrefabView>,
    nrec: Map<Seq<char>, TrackedPrefabView>,
    id: Seq<char>,
    v: TrackedPrefabView,
)
    requires
        orec.contains_key(id),
    ensures
        fresh_entities(orec, nrec.insert(id, v)) =~= fresh_entities(orec, nrec),
{
    let n2 = nrec.insert(id, v);
    assert forall|e: Entity| fresh_entities(orec, n2).contains(e) implies fresh_entities(
        orec,
        nrec,
    ).contains(e) by {
        let w = choose|w: Seq<char>|
            n2.contains_key(w) && !orec.contains_key(w) && (#[trigger] n2[w]).entity == e;
        assert(nrec.contains_key(w) && (#[trigger] nrec[w]).entity == e);
    }
    assert forall|e: Entity| fresh_entities(orec, nrec).contains(e) implies fresh_entities(
        orec,
        n2,
    ).contains(e) by {
        let w = choose|w: Seq<char>|
            nrec.contains_key(w) && !orec.contains_key(w) && (#[trigger] nrec[w]).entity == e;
        assert(n2.contains_key(w) && (#[trigger] n2[w]).entity == e);
    }
}

/// Whether the pass asks the host to apply exactly these attribute
/// operations to this live entity.
pub open spec fn ops_has_update(
    ops: Seq<WorldOpView>,
    e: Entity,
    attrs: Seq<crate::world::AttrOpView>,
) -> bool {
    exists|k: int|
        0 <= k < ops.len() && ops[k] == (WorldOpView::UpdateView { entity: e, attrs })
}

/// The attribute operations the update of a tracked entry must carry:
/// its handler applied to exactly the changed fields.
pub open spec fn update_attrs_for<H: Prefab>(
    reg: Map<Seq<char>, H>,
    orec: Map<Seq<char>, TrackedPrefabView>,
    id: Seq<char>,
    d: PrefabDataView,
) -> Seq<crate::world::AttrOpView> {
    reg[d.prefab_type].update_spec(
        crate::data::PrefabData::spec_changed_fields(orec[id].data.fields, d.fields),
    )
}

/// The tracker's record for a handle, or the empty record if the handle
/// was never observed.
pub open spec fn record_of(
    t: Map<u64, Map<Seq<char>, TrackedPrefabView>>,
    handle: u64,
) -> Map<Seq<char>, TrackedPrefabView> {
    if t.contains_key(handle) {
        t[handle]
    } else {
        Map::empty()
    }
}

/// Everything one reconciliation pass guarantees, stated over the
/// mathematical values of the tracker, the allocator, the registry, the
/// document, and the emitted operations.
pub open spec fn reconcile_post<H: Prefab>(
    reg: Map<Seq<char>, H>,
    pre: Map<u64, Map<Seq<char>, TrackedPrefabView>>,
    post: Map<u64, Map<Seq<char>, TrackedPrefabView>>,
    pre_next: u64,
    post_next: u64,
    handle: u64,
    doc: Map<Seq<char>, PrefabDataView>,
    ops: Seq<WorldOpView>,
) -> bool {
    let orec = record_of(pre, handle);
    let nrec = record_of(post, handle);
    &&& post.contains_key(handle)
    &&& post.dom() == pre.dom().insert(handle)
    &&& (forall|h: u64|
        #[trigger] pre.contains_key(h) && h != handle ==> post.contains_key(h) && post[h] == pre[h])
    &&& pre_next <= post_next
    // which ids the new record holds
    &&& (forall|id: Seq<char>|
        #[trigger] nrec.contains_key(id) ==> doc.contains_key(id) && entry_kept(
            reg,
            orec,
            id,
            doc[id],
        ))
    &&& (forall|id: Seq<char>|
        #[trigger] doc.contains_key(id) && entry_kept(reg, orec, id, doc[id])
            ==> nrec.contains_key(id))
    // what each kept id records
    &&& (forall|id: Seq<char>| #[trigger]
        nrec.contains_key(id) ==> nrec[id].data == kept_data(reg, orec, id, doc[id]) && (
        orec.contains_key(id) ==> nrec[id].entity == orec[id].entity) && (!orec.contains_key(id)
            ==> pre_next <= nrec[id].entity.id < post_next))
    // one entity per id
    &&& (forall|id1: Seq<char>, id2: Seq<char>|
        #![trigger nrec[id1].entity, nrec[id2].entity]
        nrec.contains_key(id1) && nrec.contains_key(id2) && id1 != id2 ==> nrec[id1].entity
            != nrec[id2].entity)
    // removal and spawn completeness
    &&& despawned_entities(ops) == dropped_entities(orec, doc)
    &&& spawned_entities(ops) == fresh_entities(orec, nrec)
    // every entry due an update gets exactly its changed fields applied
    // to its live entity
    &&& (forall|id: Seq<char>|
        #[trigger] doc.contains_key(id) && entry_updated(reg, orec, id, doc[id]) ==> ops_has_update(
            ops,
            orec[id].entity,
            update_attrs_for(reg, orec, id, doc[id]),
        ))
    // and no update touches anything else
    &&& (forall|k: int|
        0 <= k < ops.len() ==> ((#[trigger] ops[k]) matches WorldOpView::UpdateView {
            entity,
            attrs,
        } ==> exists|id: Seq<char>|
            #[trigger] doc.contains_key(id) && entry_updated(reg, orec, id, doc[id])
                && orec[id].entity == entity && update_attrs_for(reg, orec, id, doc[id]) == attrs))
    // spawns and updates come before despawns
    &&& mutations_before_despawns(ops)
    // an unchanged document issues zero attribute mutations
    &&& (doc_matches_record(doc, orec) ==> attr_mutation_count(ops) == 0)
}

/// The entities of the first `k` record entries whose id vanished from
/// the document; the despawn pass accumulates exactly these.
pub open spec fn dropped_prefix(
    entries: Seq<(String, TrackedPrefab)>,
    doc: Map<Seq<char>, PrefabDataView>,
    k: int,
) -> Set<Entity> {
    Set::new(
        |e: Entity|
            exists|m: int|
                0 <= m < k && !doc.contains_key((#[trigger] entries[m]).0@) && entries[m].1.entity
                    == e,
    )
}

/// One reconciliation pass for one room document.
///
/// Every id of the document that is known keeps its entity: if its
/// archetype is unchanged and registered, the changed fields are
/// dispatched as an update and the snapshot advances; if its archetype
/// changed or is unregistered, the entry is skipped and the old entity
/// and snapshot stay untouched.  An untracked id is spawned under a fresh
/// entity when its archetype is registered and accepts the fields, and is
/// skipped otherwise.  Tracked ids missing from the document are
/// despawned, after all spawns and updates.  A pass over a handle that
/// was never observed is exactly a first (created) pass.
#[verifier::loop_isolation(false)]
#[verifier::rlimit(60)]
pub fn reconcile_room<H: Prefab>(
    tracker: &mut RoomTracker,
    alloc: &mut EntityAllocator,
    registry: &PrefabRegistry<H>,
    handle: RoomHandle,
    room: &Room,
) -> (ops: Vec<WorldOp>)
    requires
        old(tracker).wf(),
        old(tracker).entities_ok(old(alloc).next),
        registry.wf(),
        room.wf(),
        old(alloc).next + room.prefabs.entries().len() <= u64::MAX,
    ensures
        final(tracker).wf(),
        final(tracker).entities_ok(final(alloc).next),
        reconcile_post(
            registry@,
            old(tracker)@,
            final(tracker)@,
            old(alloc).next,
            final(alloc).next,
            handle.id,
            room@,
            ops.deep_view(),
        ),
{
    let ghost reg = registry@;
    let ghost doc = room@;
    let ghost pre_next = old(alloc).next;
    let ghost entries = room.prefabs.entries();

    let old_record: StrMap<TrackedPrefab> = match tracker.rooms.remove(handle.id) {
        Some(r) => r,
        None => StrMap::new(),
    };
    let ghost orec = old_record@;
    proof {
        assert(record_wf(old_record));
        if old(tracker)@.contains_key(handle.id) {
            assert(orec == old(tracker)@[handle.id]);
        } else {
            assert(orec =~= Map::<Seq<char>, TrackedPrefabView>::empty());
        }
        assert forall|id: Seq<char>| #[trigger] orec.contains_key(id) implies orec[id].entity.id
            < pre_next by {
            assert(old(tracker)@[handle.id].contains_key(id));
        }
        assert forall|id1: Seq<char>, id2: Seq<char>|
            #![trigger orec[id1].entity, orec[id2].entity]
            orec.contains_key(id1) && orec.contains_key(id2) && id1
                != id2 implies orec[id1].entity != orec[id2].entity by {
            assert(old(tracker)@[handle.id].contains_key(id1));
            assert(old(tracker)@[handle.id].contains_key(id2));
        }
    }

    let mut new_record: StrMap<TrackedPrefab> = StrMap::new();
    let mut ops: Vec<WorldOp> = Vec::new();
    let mut i: usize = 0;
    while i < room.prefabs.len()
        invariant
            i <= entries.len(),
            pre_next <= alloc.next,
            alloc.next <= pre_next + i,
            record_wf(new_record),
            forall|id: Seq<char>| #[trigger]
                new_record@.contains_key(id) ==> exists|j: int|
                    0 <= j < i && (#[trigger] entries[j]).0@ == id,
            forall|id: Seq<char>| #[trigger]
                new_record@.contains_key(id) ==> doc.contains_key(id) && entry_kept(
                    reg,
                    orec,
                    id,
                    doc[id],
                ),
            forall|j: int|
                0 <= j < i ==> (entry_kept(reg, orec, (#[trigger] entries[j]).0@, doc[entries[j].0@])
                    ==> new_record@.contains_key(entries[j].0@)),
            forall|id: Seq<char>| #[trigger]
                new_record@.contains_key(id) ==> new_record@[id].data == kept_data(
                    reg,
                    orec,
                    id,
                    doc[id],
                ) && (orec.contains_key(id) ==> new_record@[id].entity == orec[id].entity) && (
                !orec.contains_key(id) ==> pre_next <= new_record@[id].entity.id)
                    && new_record@[id].entity.id < alloc.next,
            forall|id1: Seq<char>, id2: Seq<char>|
                #![trigger new_record@[id1].entity, new_record@[id2].entity]
                new_record@.contains_key(id1) && new_record@.contains_key(id2) && id1 != id2
                    ==> new_record@[id1].entity != new_record@[id2].entity,
            forall|k: int|
                0 <= k < ops.deep_view().len() ==> !((#[trigger] ops.deep_view()[k]) is DespawnView),
            forall|j: int|
                0 <= j < i ==> (entry_updated(
                    reg,
                    orec,
                    (#[trigger] entries[j]).0@,
                    doc[entries[j].0@],
                ) ==> ops_has_update(
                    ops.deep_view(),
                    orec[entries[j].0@].entity,
                    update_attrs_for(reg, orec, entries[j].0@, doc[entries[j].0@]),
                )),
            forall|k: int|
                0 <= k < ops.deep_view().len() ==> ((#[trigger] ops.deep_view()[k]) matches WorldOpView::UpdateView {
                    entity,
                    attrs,
                } ==> exists|id: Seq<char>|
                    #[trigger] doc.contains_key(id) && entry_updated(reg, orec, id, doc[id])
                        && orec[id].entity == entity && update_attrs_for(reg, orec, id, doc[id])
                        == attrs),
            spawned_entities(ops.deep_view()) == fresh_entities(orec, new_record@),
            doc_matches_record(doc, orec) ==> attr_mutation_count(ops.deep_view()) == 0,
        decreases entries.len() - i,
    {
        let ghost pre_ops = ops.deep_view();
        let ghost pre_rec = new_record@;
        let ghost pre_alloc_next = alloc.next;
        let pair = room.prefabs.pair_at(i);
        let ghost id_v = pair.0@;
        proof {
            assert(doc.contains_key(id_v) && doc[id_v] == pair.1@);
            assert((#[trigger] entries[i as int]).1.wf());
            assert(!pre_rec.contains_key(id_v)) by {
                if pre_rec.contains_key(id_v) {
                    let j = choose|j: int| 0 <= j < i && (#[trigger] entries[j]).0@ == id_v;
                    assert(entries[j].0@ != entries[i as int].0@);
                }
            }
        }
        match old_record.get(&pair.0) {
            Some(known) => {
                proof {
                    assert(orec.contains_key(id_v) && known@ == orec[id_v]);
                    assert(known.data.wf()) by {
                        let k = choose|k: int|
                            0 <= k < old_record.entries().len() && (
                            #[trigger] old_record.entries()[k]).0@ == id_v
                                && old_record.entries()[k].1 == *known;
                        assert((#[trigger] old_record.entries()[k]).1.data.wf());
                    }
                }
                if !(known.data.prefab_type == pair.1.prefab_type) {
                    // archetype changed on reload: warn and skip, leaving
                    // the old entity and snapshot untouched
                    let kept = TrackedPrefab {
                        entity: known.entity,
                        data: known.data.clone_data(),
                    };
                    let ghost kept_v = kept@;
                    new_record.insert(pair.0.clone(), kept);
                    proof {
                        assert(!entry_updated(reg, orec, id_v, doc[id_v]));
                        assert(kept_v.data == kept_data(reg, orec, id_v, doc[id_v]));
                        lemma_fresh_insert_tracked(orec, pre_rec, id_v, kept_v);
                        assert(spawned_entities(ops.deep_view()) == fresh_entities(
                            orec,
                            new_record@,
                        ));
                        assert forall|id: Seq<char>| #[trigger]
                            new_record@.contains_key(id) implies exists|j: int|
                            0 <= j < i + 1 && (#[trigger] entries[j]).0@ == id by {
                            if id != id_v {
                                assert(pre_rec.contains_key(id));
                            } else {
                                assert((#[trigger] entries[i as int]).0@ == id);
                            }
                        }
                    }
                } else {
                    let changed = PrefabData::get_changed_fields(&known.data, &pair.1);
                    match registry.update(&pair.1.prefab_type, &changed) {
                        Ok(attrs) => {
                            let ghost attrs_dv = attrs.deep_view();
                            let ghost opv = WorldOpView::UpdateView {
                                entity: known.entity,
                                attrs: attrs_dv,
                            };
                            ops.push(WorldOp::Update { entity: known.entity, attrs });
                            let kept = TrackedPrefab {
                                entity: known.entity,
                                data: pair.1.clone_data(),
                            };
                            let ghost kept_v = kept@;
                            new_record.insert(pair.0.clone(), kept);
                            proof {
                                assert(reg.contains_key(doc[id_v].prefab_type));
                                assert(entry_updated(reg, orec, id_v, doc[id_v]));
                                assert(kept_v.data == kept_data(reg, orec, id_v, doc[id_v]));
                                assert(ops.deep_view() =~= pre_ops.push(opv));
                                lemma_op_sets_push(pre_ops, opv);
                                assert(attrs_dv == update_attrs_for(reg, orec, id_v, doc[id_v]));
                                assert forall|j: int|
                                    0 <= j < i + 1 && entry_updated(
                                        reg,
                                        orec,
                                        (#[trigger] entries[j]).0@,
                                        doc[entries[j].0@],
                                    ) implies ops_has_update(
                                    ops.deep_view(),
                                    orec[entries[j].0@].entity,
                                    update_attrs_for(reg, orec, entries[j].0@, doc[entries[j].0@]),
                                ) by {
                                    if j < i {
                                        let k = choose|k: int|
                                            0 <= k < pre_ops.len() && pre_ops[k] == (
                                            WorldOpView::UpdateView {
                                                entity: orec[entries[j].0@].entity,
                                                attrs: update_attrs_for(
                                                    reg,
                                                    orec,
                                                    entries[j].0@,
                                                    doc[entries[j].0@],
                                                ),
                                            });
                                        assert(ops.deep_view()[k] == pre_ops[k]);
                                    } else {
                                        assert(ops.deep_view()[pre_ops.len() as int] == opv);
                                    }
                                }
                                lemma_fresh_insert_tracked(orec, pre_rec, id_v, kept_v);
                                assert(spawned_entities(ops.deep_view()) == fresh_entities(
                                    orec,
                                    new_record@,
                                ));
                                if doc_matches_record(doc, orec) {
                                    assert(orec[id_v].data == doc[id_v]);
                                    assert(known@.data == pair.1@);
                                    assert(changed@ =~= Map::<
                                        Seq<char>,
                                        crate::field::FieldView,
                                    >::empty()) by {
                                        lemma_identical_fields_unchanged(pair.1@.fields);
                                    }
                                    let ghost h = reg[doc[id_v].prefab_type];
                                    h.update_empty_is_noop();
                                    assert(attrs_dv.len() == 0);
                                    assert(attr_mutation_count(ops.deep_view()) == 0);
                                }
                                assert forall|id: Seq<char>| #[trigger]
                                    new_record@.contains_key(id) implies exists|j: int|
                                    0 <= j < i + 1 && (#[trigger] entries[j]).0@ == id by {
                                    if id != id_v {
                                        assert(pre_rec.contains_key(id));
                                    } else {
                                        assert((#[trigger] entries[i as int]).0@ == id);
                                    }
                                }
                            }
                        },
                        Err(_) => {
                            // unregistered archetype: skip the entry,
                            // leaving it exactly as it was
                            let kept = TrackedPrefab {
                                entity: known.entity,
                                data: known.data.clone_data(),
                            };
                            let ghost kept_v = kept@;
                            new_record.insert(pair.0.clone(), kept);
                            proof {
                                assert(!reg.contains_key(doc[id_v].prefab_type));
                                assert(!entry_updated(reg, orec, id_v, doc[id_v]));
                                assert(kept_v.data == kept_data(reg, orec, id_v, doc[id_v]));
                                lemma_fresh_insert_tracked(orec, pre_rec, id_v, kept_v);
                                assert(spawned_entities(ops.deep_view()) == fresh_entities(
                                    orec,
                                    new_record@,
                                ));
                                assert forall|id: Seq<char>| #[trigger]
                                    new_record@.contains_key(id) implies exists|j: int|
                                    0 <= j < i + 1 && (#[trigger] entries[j]).0@ == id by {
                                    if id != id_v {
                                        assert(pre_rec.contains_key(id));
                                    } else {
                                        assert((#[trigger] entries[i as int]).0@ == id);
                                    }
                                }
                            }
                        },
                    }
                }
            },
            None => {
                proof {
                    assert(!orec.contains_key(id_v));
                    if doc_matches_record(doc, orec) {
                        assert(orec.dom().contains(id_v));
                    }
                }
                match registry.spawn(&pair.1) {
                    Ok(attrs) => {
                        let entity = alloc.fresh();
                        let ghost attrs_dv = attrs.deep_view();
                        let ghost opv = WorldOpView::SpawnView { entity, attrs: attrs_dv };
                        ops.push(WorldOp::Spawn { entity, attrs });
                        let kept = TrackedPrefab { entity, data: pair.1.clone_data() };
                        let ghost kept_v = kept@;
                        new_record.insert(pair.0.clone(), kept);
                        proof {
                            let ghost t = doc[id_v].prefab_type;
                            assert(reg.contains_key(t));
                            assert(reg[t].spawn_spec(doc[id_v].fields) is Ok);
                            assert(entry_kept(reg, orec, id_v, doc[id_v]));
                            assert(kept_v.data == kept_data(reg, orec, id_v, doc[id_v]));
                            assert(ops.deep_view() =~= pre_ops.push(opv));
                            lemma_op_sets_push(pre_ops, opv);
                            lemma_fresh_insert(orec, pre_rec, id_v, kept_v);
                            assert forall|j: int|
                                0 <= j < i + 1 && entry_updated(
                                    reg,
                                    orec,
                                    (#[trigger] entries[j]).0@,
                                    doc[entries[j].0@],
                                ) implies ops_has_update(
                                ops.deep_view(),
                                orec[entries[j].0@].entity,
                                update_attrs_for(reg, orec, entries[j].0@, doc[entries[j].0@]),
                            ) by {
                                assert(j < i);
                                let k = choose|k: int|
                                    0 <= k < pre_ops.len() && pre_ops[k] == (
                                    WorldOpView::UpdateView {
                                        entity: orec[entries[j].0@].entity,
                                        attrs: update_attrs_for(
                                            reg,
                                            orec,
                                            entries[j].0@,
                                            doc[entries[j].0@],
                                        ),
                                    });
                                assert(ops.deep_view()[k] == pre_ops[k]);
                            }
                            assert(spawned_entities(ops.deep_view()) == fresh_entities(
                                orec,
                                new_record@,
                            ));
                            assert forall|id: Seq<char>| #[trigger]
                                new_record@.contains_key(id) implies exists|j: int|
                                0 <= j < i + 1 && (#[trigger] entries[j]).0@ == id by {
                                if id != id_v {
                                    assert(pre_rec.contains_key(id));
                                } else {
                                    assert((#[trigger] entries[i as int]).0@ == id);
                                }
                            }
                        }
                    },
                    Err(_) => {
                        // unregistered archetype or rejected fields: skip
                        // this entry, keep reconciling the rest
                        proof {
                            assert(!entry_kept(reg, orec, id_v, doc[id_v]));
                        }
                    },
                }
            },
        }
        i = i + 1;
    }

    let ghost nrec = new_record@;
    proof {
        room.prefabs.lemma_entries();
        assert forall|id: Seq<char>| #[trigger]
            doc.contains_key(id) && entry_kept(reg, orec, id, doc[id]) implies nrec.contains_key(
            id,
        ) by {
            let j = choose|j: int|
                0 <= j < entries.len() && (#[trigger] entries[j]).0@ == id;
            assert(entry_kept(reg, orec, entries[j].0@, doc[entries[j].0@]));
        }
        assert forall|id: Seq<char>| #[trigger]
            doc.contains_key(id) && entry_updated(reg, orec, id, doc[id]) implies ops_has_update(
            ops.deep_view(),
            orec[id].entity,
            update_attrs_for(reg, orec, id, doc[id]),
        ) by {
            let j = choose|j: int|
                0 <= j < entries.len() && (#[trigger] entries[j]).0@ == id;
            assert(entry_updated(reg, orec, entries[j].0@, doc[entries[j].0@]));
        }
        assert(despawned_entities(ops.deep_view()) =~= dropped_prefix(
            old_record.entries(),
            doc,
            0,
        )) by {
            assert forall|e: Entity|
                !despawned_entities(ops.deep_view()).contains(e) by {
                if despawned_entities(ops.deep_view()).contains(e) {
                    let k = choose|k: int|
                        0 <= k < ops.deep_view().len() && ops.deep_view()[k] == (
                        WorldOpView::DespawnView { entity: e });
                    assert(!((#[trigger] ops.deep_view()[k]) is DespawnView));
                }
            }
        }
    }

    let mut j: usize = 0;
    while j < old_record.len()
        invariant
            j <= old_record.entries().len(),
            forall|id: Seq<char>| #[trigger]
                doc.contains_key(id) && entry_updated(reg, orec, id, doc[id]) ==> ops_has_update(
                    ops.deep_view(),
                    orec[id].entity,
                    update_attrs_for(reg, orec, id, doc[id]),
                ),
            forall|k: int|
                0 <= k < ops.deep_view().len() ==> ((#[trigger] ops.deep_view()[k]) matches WorldOpView::UpdateView {
                    entity,
                    attrs,
                } ==> exists|id: Seq<char>|
                    #[trigger] doc.contains_key(id) && entry_updated(reg, orec, id, doc[id])
                        && orec[id].entity == entity && update_attrs_for(reg, orec, id, doc[id])
                        == attrs),
            spawned_entities(ops.deep_view()) == fresh_entities(orec, nrec),
            despawned_entities(ops.deep_view()) =~= dropped_prefix(
                old_record.entries(),
                doc,
                j as int,
            ),
            mutations_before_despawns(ops.deep_view()),
            doc_matches_record(doc, orec) ==> attr_mutation_count(ops.deep_view()) == 0,
        decreases old_record.entries().len() - j,
    {
        let ghost pre_ops = ops.deep_view();
        let pair = old_record.pair_at(j);
        if !room.prefabs.contains_key(&pair.0) {
            let ghost opv = WorldOpView::DespawnView { entity: pair.1.entity };
            ops.push(WorldOp::Despawn { entity: pair.1.entity });
            proof {
                assert(ops.deep_view() =~= pre_ops.push(opv));
                lemma_op_sets_push(pre_ops, opv);
                assert(despawned_entities(ops.deep_view()) =~= dropped_prefix(
                    old_record.entries(),
                    doc,
                    j + 1,
                )) by {
                    assert forall|e: Entity|
                        dropped_prefix(old_record.entries(), doc, j + 1).contains(
                            e,
                        ) implies despawned_entities(ops.deep_view()).contains(e) by {
                        let m = choose|m: int|
                            0 <= m < j + 1 && !doc.contains_key(
                                (#[trigger] old_record.entries()[m]).0@,
                            ) && old_record.entries()[m].1.entity == e;
                        if m < j {
                            assert(dropped_prefix(old_record.entries(), doc, j as int).contains(e));
                        }
                    }
                    assert forall|e: Entity|
                        despawned_entities(ops.deep_view()).contains(e) implies dropped_prefix(
                        old_record.entries(),
                        doc,
                        j + 1,
                    ).contains(e) by {
                        if dropped_prefix(old_record.entries(), doc, j as int).contains(e) {
                            let m = choose|m: int|
                                0 <= m < j && !doc.contains_key(
                                    (#[trigger] old_record.entries()[m]).0@,
                                ) && old_record.entries()[m].1.entity == e;
                            assert(!doc.contains_key(
                                (#[trigger] old_record.entries()[m]).0@,
                            ) && old_record.entries()[m].1.entity == e);
                        } else {
                            assert(!doc.contains_key(
                                (#[trigger] old_record.entries()[j as int]).0@,
                            ) && old_record.entries()[j as int].1.entity == e);
                        }
                    }
                }
                assert(mutations_before_despawns(ops.deep_view())) by {
                    assert forall|a: int, b: int|
                        0 <= a < b < ops.deep_view().len() && ops.deep_view()[a]
                            is DespawnView implies ops.deep_view()[b] is DespawnView by {
                        if b < ops.deep_view().len() - 1 {
                            assert(pre_ops[a] is DespawnView);
                        }
                    }
                }
                assert forall|id: Seq<char>| #[trigger]
                    doc.contains_key(id) && entry_updated(
                        reg,
                        orec,
                        id,
                        doc[id],
                    ) implies ops_has_update(
                    ops.deep_view(),
                    orec[id].entity,
                    update_attrs_for(reg, orec, id, doc[id]),
                ) by {
                    let k = choose|k: int|
                        0 <= k < pre_ops.len() && pre_ops[k] == (WorldOpView::UpdateView {
                            entity: orec[id].entity,
                            attrs: update_attrs_for(reg, orec, id, doc[id]),
                        });
                    assert(ops.deep_view()[k] == pre_ops[k]);
                }
                assert forall|k: int|
                    0 <= k < ops.deep_view().len() implies ((#[trigger] ops.deep_view()[k]) matches WorldOpView::UpdateView {
                    entity,
                    attrs,
                } ==> exists|id: Seq<char>|
                    #[trigger] doc.contains_key(id) && entry_updated(reg, orec, id, doc[id])
                        && orec[id].entity == entity && update_attrs_for(reg, orec, id, doc[id])
                        == attrs) by {
                    if k < pre_ops.len() {
                        assert(ops.deep_view()[k] == pre_ops[k]);
                    } else {
                        assert(ops.deep_view()[k] == opv);
                    }
                }
            }
        } else {
            proof {
                assert(dropped_prefix(old_record.entries(), doc, j + 1) =~= dropped_prefix(
                    old_record.entries(),
                    doc,
                    j as int,
                )) by {
                    assert(doc.contains_key((#[trigger] old_record.entries()[j as int]).0@));
                    assert forall|e: Entity|
                        dropped_prefix(old_record.entries(), doc, j + 1).contains(
                            e,
                        ) implies dropped_prefix(old_record.entries(), doc, j as int).contains(
                        e,
                    ) by {
                        let m = choose|m: int|
                            0 <= m < j + 1 && !doc.contains_key(
                                (#[trigger] old_record.entries()[m]).0@,
                            ) && old_record.entries()[m].1.entity == e;
                        assert(m < j);
                    }
                }
            }
        }
        j = j + 1;
    }

    proof {
        old_record.lemma_entries();
        assert(despawned_entities(ops.deep_view()) =~= dropped_entities(orec, doc)) by {
            assert forall|e: Entity|
                despawned_entities(ops.deep_view()).contains(e) implies dropped_entities(
                orec,
                doc,
            ).contains(e) by {
                let m = choose|m: int|
                    0 <= m < old_record.entries().len() && !doc.contains_key(
                        (#[trigger] old_record.entries()[m]).0@,
                    ) && old_record.entries()[m].1.entity == e;
                assert(orec.contains_key(old_record.entries()[m].0@));
                assert((#[trigger] orec[old_record.entries()[m].0@]).entity == e);
            }
            assert forall|e: Entity|
                dropped_entities(orec, doc).contains(e) implies despawned_entities(
                ops.deep_view(),
            ).contains(e) by {
                let id = choose|id: Seq<char>|
                    orec.contains_key(id) && !doc.contains_key(id) && (#[trigger] orec[id]).entity
                        == e;
                let m = choose|m: int|
                    0 <= m < old_record.entries().len() && (#[trigger] old_record.entries()[m]).0@
                        == id;
                assert(!doc.contains_key((#[trigger] old_record.entries()[m]).0@)
                    && old_record.entries()[m].1.entity == e);
                assert(dropped_prefix(
                    old_record.entries(),
                    doc,
                    old_record.entries().len() as int,
                ).contains(e));
            }
        }
    }

    tracker.rooms.insert(handle.id, new_record);

    proof {
        // the tracker is well formed again
        assert forall|k: int|
            0 <= k < tracker.rooms.pairs@.len() implies record_wf(
            (#[trigger] tracker.rooms.pairs@[k]).1,
        ) by {
            if !(tracker.rooms.pairs@[k].1 == new_record) {
                let j2 = choose|j2: int|
                    0 <= j2 < old(tracker).rooms.pairs@.len() && old(tracker).rooms.pairs@[j2]
                        == tracker.rooms.pairs@[k];
                assert(record_wf((#[trigger] old(tracker).rooms.pairs@[j2]).1));
            }
        }
        // the tracker's domain gained exactly this handle
        assert(tracker@.dom() =~= old(tracker)@.dom().insert(handle.id));
        // entity references stay bounded and globally distinct
        assert forall|h: u64, id: Seq<char>|
            tracker@.contains_key(h) && #[trigger] tracker@[h].contains_key(
                id,
            ) implies tracker@[h][id].entity.id < alloc.next by {
            if h != handle.id {
                assert(old(tracker)@[h].contains_key(id));
            }
        }
        assert forall|h1: u64, id1: Seq<char>, h2: u64, id2: Seq<char>|
            #![trigger tracker@[h1][id1].entity, tracker@[h2][id2].entity]
            tracker@.contains_key(h1) && tracker@[h1].contains_key(id1) && tracker@.contains_key(
                h2,
            ) && tracker@[h2].contains_key(id2) && tracker@[h1][id1].entity
                == tracker@[h2][id2].entity implies h1 == h2 && id1 == id2 by {
            let e1 = tracker@[h1][id1].entity;
            if h1 == handle.id && h2 == handle.id {
                assert(nrec[id1].entity == nrec[id2].entity);
            } else if h1 == handle.id {
                assert(old(tracker)@[h2].contains_key(id2));
                assert(old(tracker)@[h2][id2].entity.id < pre_next);
                if orec.contains_key(id1) {
                    assert(nrec[id1].entity == orec[id1].entity);
                    assert(old(tracker)@.contains_key(handle.id));
                    assert(old(tracker)@[handle.id].contains_key(id1));
                    assert(old(tracker)@[handle.id][id1].entity == old(tracker)@[h2][id2].entity);
                } else {
                    assert(pre_next <= nrec[id1].entity.id);
                }
            } else if h2 == handle.id {
                assert(old(tracker)@[h1].contains_key(id1));
                assert(old(tracker)@[h1][id1].entity.id < pre_next);
                if orec.contains_key(id2) {
                    assert(nrec[id2].entity == orec[id2].entity);
                    assert(old(tracker)@.contains_key(handle.id));
                    assert(old(tracker)@[handle.id].contains_key(id2));
                    assert(old(tracker)@[h1][id1].entity == old(tracker)@[handle.id][id2].entity);
                } else {
                    assert(pre_next <= nrec[id2].entity.id);
                }
            } else {
                assert(old(tracker)@[h1].contains_key(id1));
                assert(old(tracker)@[h2].contains_key(id2));
            }
        }
    }
    ops
}

/// What tearing a room down guarantees: the handle is forgotten and
/// exactly its recorded entities are despawned.
pub open spec fn remove_post(
    pre: Map<u64, Map<Seq<char>, TrackedPrefabView>>,
    post: Map<u64, Map<Seq<char>, TrackedPrefabView>>,
    handle: u64,
    ops: Seq<WorldOpView>,
) -> bool {
    let orec = record_of(pre, handle);
    &&& post == pre.remove(handle)
    &&& despawned_entities(ops) == record_entities(orec)
    &&& (forall|k: int| 0 <= k < ops.len() ==> (#[trigger] ops[k]) is DespawnView)
    &&& spawned_entities(ops) == Set::<Entity>::empty()
    &&& attr_mutation_count(ops) == 0
}


/// Tears a room down on its Removed notification: the tracker forgets
/// the handle and every entity the record referenced is despawned.
#[verifier::loop_isolation(false)]
pub fn remove_room(tracker: &mut RoomTracker, handle: RoomHandle) -> (ops: Vec<WorldOp>)
    requires
        old(tracker).wf(),
    ensures
        final(tracker).wf(),
        remove_post(old(tracker)@, final(tracker)@, handle.id, ops.deep_view()),
        forall|n: u64| old(tracker).entities_ok(n) ==> final(tracker).entities_ok(n),
{
    let record: StrMap<TrackedPrefab> = match tracker.rooms.remove(handle.id) {
        Some(r) => r,
        None => StrMap::new(),
    };
    let ghost orec = record@;
    let mut ops: Vec<WorldOp> = Vec::new();
    proof {
        assert(record_wf(record));
        assert(final(tracker)@ =~= old(tracker)@.remove(handle.id));
        if !old(tracker)@.contains_key(handle.id) {
            assert(orec =~= Map::<Seq<char>, TrackedPrefabView>::empty());
        }
        assert(despawned_entities(ops.deep_view()) =~= dropped_prefix(
            record.entries(),
            Map::empty(),
            0,
        ));
        assert(spawned_entities(ops.deep_view()) =~= Set::<Entity>::empty());
    }
    let mut j: usize = 0;
    while j < record.len()
        invariant
            j <= record.entries().len(),
            despawned_entities(ops.deep_view()) =~= dropped_prefix(
                record.entries(),
                Map::<Seq<char>, PrefabDataView>::empty(),
                j as int,
            ),
            forall|k: int|
                0 <= k < ops.deep_view().len() ==> (#[trigger] ops.deep_view()[k]) is DespawnView,
            spawned_entities(ops.deep_view()) =~= Set::<Entity>::empty(),
            attr_mutation_count(ops.deep_view()) == 0,
        decreases record.entries().len() - j,
    {
        let ghost pre_ops = ops.deep_view();
        let pair = record.pair_at(j);
        let ghost opv = WorldOpView::DespawnView { entity: pair.1.entity };
        ops.push(WorldOp::Despawn { entity: pair.1.entity });
        proof {
            let ghost doc0 = Map::<Seq<char>, PrefabDataView>::empty();
            assert(ops.deep_view() =~= pre_ops.push(opv));
            lemma_op_sets_push(pre_ops, opv);
            assert(despawned_entities(ops.deep_view()) =~= dropped_prefix(
                record.entries(),
                doc0,
                j + 1,
            )) by {
                assert forall|e: Entity|
                    dropped_prefix(record.entries(), doc0, j + 1).contains(
                        e,
                    ) implies despawned_entities(ops.deep_view()).contains(e) by {
                    let m = choose|m: int|
                        0 <= m < j + 1 && !doc0.contains_key((#[trigger] record.entries()[m]).0@)
                            && record.entries()[m].1.entity == e;
                    if m < j {
                        assert(dropped_prefix(record.entries(), doc0, j as int).contains(e));
                    }
                }
                assert forall|e: Entity|
                    despawned_entities(ops.deep_view()).contains(e) implies dropped_prefix(
                    record.entries(),
                    doc0,
                    j + 1,
                ).contains(e) by {
                    if dropped_prefix(record.entries(), doc0, j as int).contains(e) {
                        let m = choose|m: int|
                            0 <= m < j && !doc0.contains_key((#[trigger] record.entries()[m]).0@)
                                && record.entries()[m].1.entity == e;
                        assert(!doc0.contains_key((#[trigger] record.entries()[m]).0@)
                            && record.entries()[m].1.entity == e);
                    } else {
                        assert(!doc0.contains_key((#[trigger] record.entries()[j as int]).0@)
                            && record.entries()[j as int].1.entity == e);
                    }
                }
            }
        }
        j = j + 1;
    }
    proof {
        record.lemma_entries();
        let ghost doc0 = Map::<Seq<char>, PrefabDataView>::empty();
        assert(despawned_entities(ops.deep_view()) =~= record_entities(orec)) by {
            assert forall|e: Entity|
                despawned_entities(ops.deep_view()).contains(e) implies record_entities(
                orec,
            ).contains(e) by {
                let m = choose|m: int|
                    0 <= m < record.entries().len() && !doc0.contains_key(
                        (#[trigger] record.entries()[m]).0@,
                    ) && record.entries()[m].1.entity == e;
                assert(orec.contains_key(record.entries()[m].0@));
                assert((#[trigger] orec[record.entries()[m].0@]).entity == e);
            }
            assert forall|e: Entity|
                record_entities(orec).contains(e) implies despawned_entities(
                ops.deep_view(),
            ).contains(e) by {
                let id = choose|id: Seq<char>|
                    orec.contains_key(id) && (#[trigger] orec[id]).entity == e;
                let m = choose|m: int|
                    0 <= m < record.entries().len() && (#[trigger] record.entries()[m]).0@ == id;
                assert(!doc0.contains_key((#[trigger] record.entries()[m]).0@)
                    && record.entries()[m].1.entity == e);
                assert(dropped_prefix(
                    record.entries(),
                    doc0,
                    record.entries().len() as int,
                ).contains(e));
            }
        }
        assert forall|n: u64| old(tracker).entities_ok(n) implies final(tracker).entities_ok(
            n,
        ) by {
            assert forall|h: u64, id: Seq<char>|
                tracker@.contains_key(h) && #[trigger] tracker@[h].contains_key(
                    id,
                ) implies tracker@[h][id].entity.id < n by {
                assert(old(tracker)@[h].contains_key(id));
            }
            assert forall|h1: u64, id1: Seq<char>, h2: u64, id2: Seq<char>|
                #![trigger tracker@[h1][id1].entity, tracker@[h2][id2].entity]
                tracker@.contains_key(h1) && tracker@[h1].contains_key(id1)
                    && tracker@.contains_key(h2) && tracker@[h2].contains_key(id2)
                    && tracker@[h1][id1].entity == tracker@[h2][id2].entity implies h1 == h2 && id1
                == id2 by {
                assert(old(tracker)@[h1].contains_key(id1));
                assert(old(tracker)@[h2].contains_key(id2));
                assert(old(tracker)@[h1][id1].entity == old(tracker)@[h2][id2].entity);
            }
        }
    }
    ops
}

/// One step of the per-tick notification drain: dispatches a single
/// asset-pipeline event to the reconciliation it calls for.  A Created
/// or Modified notification reconciles the handle against the currently
/// loaded document; a Modified for a handle that was never observed is
/// handled exactly like a Created.  A Removed notification tears the
/// room down.
pub fn parse_room_system<H: Prefab>(
    tracker: &mut RoomTracker,
    alloc: &mut EntityAllocator,
    registry: &PrefabRegistry<H>,
    event: &RoomEvent,
    room: Option<&Room>,
) -> (ops: Vec<WorldOp>)
    requires
        old(tracker).wf(),
        old(tracker).entities_ok(old(alloc).next),
        registry.wf(),
        !(event is Removed) ==> (room matches Some(r) && r.wf() && old(alloc).next
            + r.prefabs.entries().len() <= u64::MAX),
        event matches RoomEvent::Created { handle } ==> !old(tracker)@.contains_key(handle.id),
    ensures
        final(tracker).wf(),
        final(tracker).entities_ok(final(alloc).next),
        match *event {
            RoomEvent::Created { handle } | RoomEvent::Modified { handle } => room matches Some(r)
                && reconcile_post(
                registry@,
                old(tracker)@,
                final(tracker)@,
                old(alloc).next,
                final(alloc).next,
                handle.id,
                r@,
                ops.deep_view(),
            ),
            RoomEvent::Removed { handle } => remove_post(
                old(tracker)@,
                final(tracker)@,
                handle.id,
                ops.deep_view(),
            ) && final(alloc).next == old(alloc).next,
        },
{
    match event {
        RoomEvent::Created { handle } => {
            let r = room.unwrap();
            reconcile_room(tracker, alloc, registry, *handle, r)
        },
        RoomEvent::Modified { handle } => {
            let r = room.unwrap();
            reconcile_room(tracker, alloc, registry, *handle, r)
        },
        RoomEvent::Removed { handle } => remove_room(tracker, *handle),
    }
}

/// Spawn completeness: after a first pass over a document whose entries
/// are all registered and accepted by their archetypes, the tracker's
/// id-set for the room equals exactly the document's id-set, each id
/// records the document's data, and no two ids share an entity.
pub proof fn lemma_spawn_completeness<H: Prefab>(
    reg: Map<Seq<char>, H>,
    pre: Map<u64, Map<Seq<char>, TrackedPrefabView>>,
    post: Map<u64, Map<Seq<char>, TrackedPrefabView>>,
    pre_next: u64,
    post_next: u64,
    handle: u64,
    doc: Map<Seq<char>, PrefabDataView>,
    ops: Seq<WorldOpView>,
)
    requires
        reconcile_post(reg, pre, post, pre_next, post_next, handle, doc, ops),
        !pre.contains_key(handle),
        forall|id: Seq<char>| #[trigger]
            doc.contains_key(id) ==> reg.contains_key(doc[id].prefab_type)
                && reg[doc[id].prefab_type].spawn_spec(doc[id].fields) is Ok,
    ensures
        post[handle].dom() =~= doc.dom(),
        forall|id: Seq<char>| #[trigger]
            post[handle].contains_key(id) ==> post[handle][id].data == doc[id],
        forall|id1: Seq<char>, id2: Seq<char>|
            #![trigger post[handle][id1].entity, post[handle][id2].entity]
            post[handle].contains_key(id1) && post[handle].contains_key(id2) && id1 != id2
                ==> post[handle][id1].entity != post[handle][id2].entity,
{
    let orec = record_of(pre, handle);
    let nrec = record_of(post, handle);
    assert(orec =~= Map::<Seq<char>, TrackedPrefabView>::empty());
    assert(nrec == post[handle]);
    assert forall|id: Seq<char>| #[trigger] doc.contains_key(id) implies nrec.contains_key(id) by {
        assert(entry_kept(reg, orec, id, doc[id]));
    }
    assert forall|id: Seq<char>| #[trigger] nrec.contains_key(id) implies nrec[id].data
        == doc[id] by {
        assert(doc.contains_key(id));
        assert(kept_data(reg, orec, id, doc[id]) == doc[id]);
    }
    assert(post[handle].dom() =~= doc.dom());
}

/// Idempotent reload: reconciling a document identical in content to the
/// room's current snapshots issues zero attribute mutations, spawns
/// nothing and despawns nothing.
pub proof fn lemma_idempotent_reload<H: Prefab>(
    reg: Map<Seq<char>, H>,
    pre: Map<u64, Map<Seq<char>, TrackedPrefabView>>,
    post: Map<u64, Map<Seq<char>, TrackedPrefabView>>,
    pre_next: u64,
    post_next: u64,
    handle: u64,
    doc: Map<Seq<char>, PrefabDataView>,
    ops: Seq<WorldOpView>,
)
    requires
        reconcile_post(reg, pre, post, pre_next, post_next, handle, doc, ops),
        pre.contains_key(handle),
        doc_matches_record(doc, pre[handle]),
    ensures
        attr_mutation_count(ops) == 0,
        despawned_entities(ops) =~= Set::<Entity>::empty(),
        spawned_entities(ops) =~= Set::<Entity>::empty(),
{
    let orec = record_of(pre, handle);
    let nrec = record_of(post, handle);
    assert(orec == pre[handle]);
    assert(despawned_entities(ops) =~= Set::<Entity>::empty()) by {
        assert forall|e: Entity| !dropped_entities(orec, doc).contains(e) by {
            if dropped_entities(orec, doc).contains(e) {
                let id = choose|id: Seq<char>|
                    orec.contains_key(id) && !doc.contains_key(id) && (#[trigger] orec[id]).entity
                        == e;
                assert(doc.dom().contains(id));
            }
        }
    }
    assert(spawned_entities(ops) =~= Set::<Entity>::empty()) by {
        assert forall|e: Entity| !fresh_entities(orec, nrec).contains(e) by {
            if fresh_entities(orec, nrec).contains(e) {
                let id = choose|id: Seq<char>|
                    nrec.contains_key(id) && !orec.contains_key(id) && (#[trigger] nrec[id]).entity
                        == e;
                assert(doc.contains_key(id));
                assert(doc.dom().contains(id));
            }
        }
    }
}

} // verus!
