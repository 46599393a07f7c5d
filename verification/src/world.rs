//! The narrow entity-world interface the reconciliation core drives.
//!
//! The core never touches a live entity world itself.  It allocates
//! entity references, and it emits operations — spawn an entity with
//! attributes, update attributes on an entity, despawn an entity — that
//! the host applies to its world in order.

use vstd::prelude::*;

use crate::num::Number;

verus! {

/// A non-owning reference to a live entity of the host world.
#[derive(Clone, Copy, PartialEq, Eq, Structural, Debug, Hash)]
pub struct Entity {
    pub id: u64,
}

/// Hands out entity references that were never handed out before.
pub struct EntityAllocator {
    pub next: u64,
}

impl EntityAllocator {
    /// An allocator that has handed out nothing yet.
    pub fn new() -> (r: EntityAllocator)
        ensures
            r.next == 0,
    {
        EntityAllocator { next: 0 }
    }

    /// A reference distinct from every reference handed out so far.
    pub fn fresh(&mut self) -> (e: Entity)
        requires
            old(self).next < u64::MAX,
        ensures
            e.id == old(self).next,
            final(self).next == old(self).next + 1,
    {
        let e = Entity { id: self.next };
        self.next = self.next + 1;
        e
    }
}

/// One attribute operation on a single entity, the unit of work an
/// archetype handler emits.
#[derive(Debug, PartialEq, Clone)]
pub enum AttrOp {
    /// Attach a human-readable name.
    SetName(String),
    /// Attach or replace the movement-speed attribute.
    SetSpeed(Number),
    /// Attach or replace the visual, loading the asset at a path.
    SetSprite(String),
    /// Place the entity at a coordinate.
    SetPosition(Number, Number),
    /// Mark the entity as the anchor that spawned pigs are parented to.
    MarkPigParent,
}

/// The mathematical value of an `AttrOp`.
pub enum AttrOpView {
    SetNameView(Seq<char>),
    SetSpeedView(Number),
    SetSpriteView(Seq<char>),
    SetPositionView(Number, Number),
    MarkPigParentView,
}

impl DeepView for AttrOp {
    type V = AttrOpView;

    open spec fn deep_view(&self) -> AttrOpView {
        match self {
            AttrOp::SetName(s) => AttrOpView::SetNameView(s@),
            AttrOp::SetSpeed(n) => AttrOpView::SetSpeedView(*n),
            AttrOp::SetSprite(s) => AttrOpView::SetSpriteView(s@),
            AttrOp::SetPosition(x, y) => AttrOpView::SetPositionView(*x, *y),
            AttrOp::MarkPigParent => AttrOpView::MarkPigParentView,
        }
    }
}

/// One step the host world is asked to perform during reconciliation.
#[derive(Debug, PartialEq)]
pub enum WorldOp {
    /// Create the entity, then apply the attribute operations to it.
    Spawn { entity: Entity, attrs: Vec<AttrOp> },
    /// Apply the attribute operations to the live entity.
    Update { entity: Entity, attrs: Vec<AttrOp> },
    /// Remove the entity from the world.
    Despawn { entity: Entity },
}

/// The mathematical value of a `WorldOp`.
pub enum WorldOpView {
    SpawnView { entity: Entity, attrs: Seq<AttrOpView> },
    UpdateView { entity: Entity, attrs: Seq<AttrOpView> },
    DespawnView { entity: Entity },
}

impl DeepView for WorldOp {
    type V = WorldOpView;

    open spec fn deep_view(&self) -> WorldOpView {
        match self {
            WorldOp::Spawn { entity, attrs } => WorldOpView::SpawnView {
                entity: *entity,
                attrs: attrs.deep_view(),
            },
            WorldOp::Update { entity, attrs } => WorldOpView::UpdateView {
                entity: *entity,
                attrs: attrs.deep_view(),
            },
            WorldOp::Despawn { entity } => WorldOpView::DespawnView { entity: *entity },
        }
    }
}

/// How many attribute mutations a reconciliation pass issues.
pub open spec fn attr_mutation_count(ops: Seq<WorldOpView>) -> nat
    decreases ops.len(),
{
    if ops.len() == 0 {
        0
    } else {
        attr_mutation_count(ops.drop_last()) + match ops.last() {
            WorldOpView::SpawnView { attrs, .. } => attrs.len(),
            WorldOpView::UpdateView { attrs, .. } => attrs.len(),
            WorldOpView::DespawnView { .. } => 0,
        }
    }
}

/// The entities the pass asks the host to despawn.
pub open spec fn despawned_entities(ops: Seq<WorldOpView>) -> Set<Entity> {
    Set::new(
        |e: Entity|
            exists|i: int|
                0 <= i < ops.len() && ops[i] == (WorldOpView::DespawnView { entity: e }),
    )
}

/// Whether an operation spawns the given entity.
pub open spec fn op_spawns(op: WorldOpView, e: Entity) -> bool {
    op matches WorldOpView::SpawnView { entity, .. } && entity == e
}

/// The entities the pass asks the host to create.
pub open spec fn spawned_entities(ops: Seq<WorldOpView>) -> Set<Entity> {
    Set::new(
        |e: Entity| exists|i: int| 0 <= i < ops.len() && #[trigger] op_spawns(ops[i], e),
    )
}

/// Within one pass every spawn and update comes before every despawn, so
/// a replacement is live before anything stale is removed.
pub open spec fn mutations_before_despawns(ops: Seq<WorldOpView>) -> bool {
    forall|i: int, j: int|
        0 <= i < j < ops.len() && ops[i] is DespawnView ==> ops[j] is DespawnView
}

/// How appending one operation changes the despawned and spawned sets.
pub proof fn lemma_op_sets_push(ops: Seq<WorldOpView>, op: WorldOpView)
    ensures
        op matches WorldOpView::DespawnView { entity } ==> despawned_entities(ops.push(op))
            =~= despawned_entities(ops).insert(entity),
        !(op is DespawnView) ==> despawned_entities(ops.push(op)) =~= despawned_entities(ops),
        op matches WorldOpView::SpawnView { entity, .. } ==> spawned_entities(ops.push(op))
            =~= spawned_entities(ops).insert(entity),
        !(op is SpawnView) ==> spawned_entities(ops.push(op)) =~= spawned_entities(ops),
        attr_mutation_count(ops.push(op)) == attr_mutation_count(ops) + match op {
            WorldOpView::SpawnView { attrs, .. } => attrs.len(),
            WorldOpView::UpdateView { attrs, .. } => attrs.len(),
            WorldOpView::DespawnView { .. } => 0,
        },
{
    let p = ops.push(op);
    assert(p.drop_last() =~= ops);
    assert(p.last() == op);
    assert forall|e: Entity| despawned_entities(p).contains(e) implies despawned_entities(
        ops,
    ).contains(e) || op == (WorldOpView::DespawnView { entity: e }) by {
        let i = choose|i: int| 0 <= i < p.len() && p[i] == (WorldOpView::DespawnView { entity: e });
        if i < ops.len() {
            assert(ops[i] == (WorldOpView::DespawnView { entity: e }));
        }
    }
    assert forall|e: Entity|
        despawned_entities(ops).contains(e) || op == (WorldOpView::DespawnView {
            entity: e,
        }) implies despawned_entities(p).contains(e) by {
        if despawned_entities(ops).contains(e) {
            let i = choose|i: int|
                0 <= i < ops.len() && ops[i] == (WorldOpView::DespawnView { entity: e });
            assert(p[i] == (WorldOpView::DespawnView { entity: e }));
        } else {
            assert(p[ops.len() as int] == (WorldOpView::DespawnView { entity: e }));
        }
    }
    assert forall|e: Entity| spawned_entities(p).contains(e) implies spawned_entities(ops).contains(
        e,
    ) || op_spawns(op, e) by {
        let i = choose|i: int| 0 <= i < p.len() && #[trigger] op_spawns(p[i], e);
        if i < ops.len() {
            assert(op_spawns(ops[i], e));
        }
    }
    assert forall|e: Entity|
        spawned_entities(ops).contains(e) || op_spawns(op, e) implies spawned_entities(p).contains(
        e,
    ) by {
        if spawned_entities(ops).contains(e) {
            let i = choose|i: int| 0 <= i < ops.len() && #[trigger] op_spawns(ops[i], e);
            assert(op_spawns(p[i], e));
        } else {
            assert(op_spawns(p[ops.len() as int], e));
        }
    }
    match op {
        WorldOpView::DespawnView { entity } => {
            assert(despawned_entities(p) =~= despawned_entities(ops).insert(entity));
            assert(spawned_entities(p) =~= spawned_entities(ops));
        },
        WorldOpView::SpawnView { entity, .. } => {
            assert(spawned_entities(p) =~= spawned_entities(ops).insert(entity)) by {
                assert(op_spawns(op, entity));
            }
            assert(despawned_entities(p) =~= despawned_entities(ops));
        },
        WorldOpView::UpdateView { .. } => {
            assert(despawned_entities(p) =~= despawned_entities(ops));
            assert(spawned_entities(p) =~= spawned_entities(ops));
        },
    }
}

} // verus!
