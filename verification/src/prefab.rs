//! The archetype capability contract and the archetypes this crate ships.
//!
//! A `Prefab` turns a named-field bag into attribute operations: `spawn`
//! builds a fresh entity's attributes, `update` receives only the fields
//! that changed since the last snapshot and leaves everything else
//! untouched.  Each archetype fixes its own field policy: which names it
//! requires, which value kinds they must carry.

use vstd::prelude::*;
use vstd::string::is_ascii_spec_bytes;
use vstd::string::StringSliceAdditionalSpecFns;
use vstd::utf8::is_ascii_chars;

use crate::field::{FieldView, PrefabField};
use crate::num::Number;
use crate::parse::{parse_position, spec_position, MAX_INPUT_LEN};
use crate::strmap::StrMap;
use crate::world::{AttrOp, AttrOpView};

verus! {

/// Why one prefab entry could not be handled.  A failure is always scoped
/// to the single entry that carries it, never to the rest of the room.
#[derive(Clone, Copy, PartialEq, Eq, Structural, Debug)]
pub enum PrefabError {
    /// No handler is registered under the entry's archetype name.
    UnregisteredArchetype,
    /// A field the archetype requires is absent.
    MissingField,
    /// A field carries the wrong value kind, or a malformed encoding.
    InvalidField,
}

/// The bytes of an ASCII character sequence.
pub open spec fn ascii_bytes(s: Seq<char>) -> Seq<u8> {
    Seq::new(s.len(), |i: int| s[i] as u8)
}

/// What a spawn attempt denotes: the emitted operations, or the error.
pub open spec fn spawn_result_view(r: Result<Vec<AttrOp>, PrefabError>) -> Result<
    Seq<AttrOpView>,
    PrefabError,
> {
    match r {
        Ok(v) => Ok(v.deep_view()),
        Err(e) => Err(e),
    }
}

/// The capability an archetype implements: turning field bags into
/// attribute operations, for a fresh entity or for a live one.
pub trait Prefab: Sized {
    /// The operations spawning emits for a field bag, or the error.
    spec fn spawn_spec(&self, fields: Map<Seq<char>, FieldView>) -> Result<
        Seq<AttrOpView>,
        PrefabError,
    >;

    /// The operations updating emits for a changed-field bag.
    spec fn update_spec(&self, changed: Map<Seq<char>, FieldView>) -> Seq<AttrOpView>;

    /// Fields not present in the changed set are left untouched; with no
    /// changed fields at all, an update mutates nothing.
    proof fn update_empty_is_noop(&self)
        ensures
            self.update_spec(Map::<Seq<char>, FieldView>::empty()) == Seq::<AttrOpView>::empty(),
    ;

    /// Builds the attribute operations for a fresh entity.
    fn spawn_prfab(&self, fields: &StrMap<PrefabField>) -> (r: Result<Vec<AttrOp>, PrefabError>)
        requires
            fields.wf(),
        ensures
            spawn_result_view(r) == self.spawn_spec(fields@),
    ;

    /// Builds the attribute operations that apply the changed fields to a
    /// live entity.
    fn update_prfab(&self, changed_fields: &StrMap<PrefabField>) -> (r: Vec<AttrOp>)
        requires
            changed_fields.wf(),
        ensures
            r.deep_view() == self.update_spec(changed_fields@),
    ;
}

/// The archetype of the player-controlled sprite.  It requires a `speed`
/// number, a `sprite` asset path, and a `position` field encoded as an
/// ASCII coordinate pair `(x, y)`.
pub struct PlayerPrefab;

/// What spawning a Player emits for a field bag.
pub open spec fn player_spawn_spec(fields: Map<Seq<char>, FieldView>) -> Result<
    Seq<AttrOpView>,
    PrefabError,
> {
    if !(fields.contains_key("speed"@) && fields.contains_key("sprite"@) && fields.contains_key(
        "position"@,
    )) {
        Err(PrefabError::MissingField)
    } else {
        match (fields["speed"@], fields["sprite"@], fields["position"@]) {
            (
                FieldView::NumberView(speed),
                FieldView::StringView(sprite),
                FieldView::StringView(pos),
            ) => {
                if !is_ascii_chars(pos) || pos.len() > MAX_INPUT_LEN {
                    Err(PrefabError::InvalidField)
                } else {
                    match spec_position(ascii_bytes(pos)) {
                        Some((x, y)) => Ok(
                            seq![
                                AttrOpView::SetNameView("Player"@),
                                AttrOpView::SetSpeedView(speed),
                                AttrOpView::SetSpriteView(sprite),
                                AttrOpView::SetPositionView(x, y),
                            ],
                        ),
                        None => Err(PrefabError::InvalidField),
                    }
                }
            },
            _ => Err(PrefabError::InvalidField),
        }
    }
}

/// What updating a Player emits: a speed replacement if `speed` changed
/// to a number, then a sprite replacement if `sprite` changed to a path.
/// Other fields — `position` included — are not updatable and are
/// ignored, as the archetype's policy has it.
pub open spec fn player_update_spec(changed: Map<Seq<char>, FieldView>) -> Seq<AttrOpView> {
    (if changed.contains_key("speed"@) {
        match changed["speed"@] {
            FieldView::NumberView(n) => seq![AttrOpView::SetSpeedView(n)],
            _ => Seq::<AttrOpView>::empty(),
        }
    } else {
        Seq::<AttrOpView>::empty()
    }) + (if changed.contains_key("sprite"@) {
        match changed["sprite"@] {
            FieldView::StringView(p) => seq![AttrOpView::SetSpriteView(p)],
            _ => Seq::<AttrOpView>::empty(),
        }
    } else {
        Seq::<AttrOpView>::empty()
    })
}

impl Prefab for PlayerPrefab {
    open spec fn spawn_spec(&self, fields: Map<Seq<char>, FieldView>) -> Result<
        Seq<AttrOpView>,
        PrefabError,
    > {
        player_spawn_spec(fields)
    }

    open spec fn update_spec(&self, changed: Map<Seq<char>, FieldView>) -> Seq<AttrOpView> {
        player_update_spec(changed)
    }

    proof fn update_empty_is_noop(&self) {
        assert(player_update_spec(Map::<Seq<char>, FieldView>::empty()) =~= Seq::<
            AttrOpView,
        >::empty());
    }

    fn spawn_prfab(&self, fields: &StrMap<PrefabField>) -> (r: Result<Vec<AttrOp>, PrefabError>) {
        let speed_key: String = "speed".to_owned();
        let sprite_key: String = "sprite".to_owned();
        let position_key: String = "position".to_owned();
        let speed_field = fields.get(&speed_key);
        let sprite_field = fields.get(&sprite_key);
        let position_field = fields.get(&position_key);
        if speed_field.is_none() || sprite_field.is_none() || position_field.is_none() {
            return Err(PrefabError::MissingField);
        }
        match (speed_field.unwrap(), sprite_field.unwrap(), position_field.unwrap()) {
            (
                PrefabField::NumberValue(speed),
                PrefabField::StringValue(sprite),
                PrefabField::StringValue(pos),
            ) => {
                let pos_str: &str = pos.as_str();
                let bytes: &[u8] = pos_str.as_bytes();
                let ok_ascii: bool = pos_str.is_ascii();
                proof {
                    if vstd::string::is_ascii(pos_str) {
                        is_ascii_spec_bytes(pos_str);
                        assert(pos_str.spec_bytes() =~= ascii_bytes(pos@));
                    }
                }
                if !ok_ascii || bytes.len() as u64 > MAX_INPUT_LEN {
                    return Err(PrefabError::InvalidField);
                }
                match parse_position(bytes) {
                    Some((x, y)) => {
                        let mut ops: Vec<AttrOp> = Vec::new();
                        ops.push(AttrOp::SetName("Player".to_owned()));
                        ops.push(AttrOp::SetSpeed(*speed));
                        ops.push(AttrOp::SetSprite(sprite.clone()));
                        ops.push(AttrOp::SetPosition(x, y));
                        proof {
                            assert(ops.deep_view() =~= seq![
                                AttrOpView::SetNameView("Player"@),
                                AttrOpView::SetSpeedView(*speed),
                                AttrOpView::SetSpriteView(sprite@),
                                AttrOpView::SetPositionView(x, y),
                            ]);
                        }
                        Ok(ops)
                    },
                    None => Err(PrefabError::InvalidField),
                }
            },
            _ => Err(PrefabError::InvalidField),
        }
    }

    fn update_prfab(&self, changed_fields: &StrMap<PrefabField>) -> (r: Vec<AttrOp>) {
        let speed_key: String = "speed".to_owned();
        let sprite_key: String = "sprite".to_owned();
        let mut ops: Vec<AttrOp> = Vec::new();
        match changed_fields.get(&speed_key) {
            Some(PrefabField::NumberValue(n)) => {
                ops.push(AttrOp::SetSpeed(*n));
            },
            _ => {},
        }
        match changed_fields.get(&sprite_key) {
            Some(PrefabField::StringValue(p)) => {
                ops.push(AttrOp::SetSprite(p.clone()));
            },
            _ => {},
        }
        proof {
            assert(ops.deep_view() =~= player_update_spec(changed_fields@));
        }
        ops
    }
}

/// The archetype of the anchor entity spawned pigs are parented to.  It
/// has no fields: spawning attaches a name and the anchor marker, and
/// there is nothing to update after spawn.
pub struct PigParentPrefab;

impl Prefab for PigParentPrefab {
    open spec fn spawn_spec(&self, fields: Map<Seq<char>, FieldView>) -> Result<
        Seq<AttrOpView>,
        PrefabError,
    > {
        Ok(seq![AttrOpView::SetNameView("PigParent"@), AttrOpView::MarkPigParentView])
    }

    open spec fn update_spec(&self, changed: Map<Seq<char>, FieldView>) -> Seq<AttrOpView> {
        Seq::empty()
    }

    proof fn update_empty_is_noop(&self) {
    }

    fn spawn_prfab(&self, fields: &StrMap<PrefabField>) -> (r: Result<Vec<AttrOp>, PrefabError>) {
        let mut ops: Vec<AttrOp> = Vec::new();
        ops.push(AttrOp::SetName("PigParent".to_owned()));
        ops.push(AttrOp::MarkPigParent);
        proof {
            assert(ops.deep_view() =~= seq![
                AttrOpView::SetNameView("PigParent"@),
                AttrOpView::MarkPigParentView,
            ]);
        }
        Ok(ops)
    }

    fn update_prfab(&self, changed_fields: &StrMap<PrefabField>) -> (r: Vec<AttrOp>) {
        let ops: Vec<AttrOp> = Vec::new();
        proof {
            assert(ops.deep_view() =~= Seq::<AttrOpView>::empty());
        }
        ops
    }
}

/// The closed set of archetypes this crate registers by default, usable
/// as one handler type in a registry.
pub enum DefaultPrefab {
    Player(PlayerPrefab),
    PigParent(PigParentPrefab),
}

impl Prefab for DefaultPrefab {
    open spec fn spawn_spec(&self, fields: Map<Seq<char>, FieldView>) -> Result<
        Seq<AttrOpView>,
        PrefabError,
    > {
        match self {
            DefaultPrefab::Player(p) => p.spawn_spec(fields),
            DefaultPrefab::PigParent(p) => p.spawn_spec(fields),
        }
    }

    open spec fn update_spec(&self, changed: Map<Seq<char>, FieldView>) -> Seq<AttrOpView> {
        match self {
            DefaultPrefab::Player(p) => p.update_spec(changed),
            DefaultPrefab::PigParent(p) => p.update_spec(changed),
        }
    }

    proof fn update_empty_is_noop(&self) {
        match self {
            DefaultPrefab::Player(p) => p.update_empty_is_noop(),
            DefaultPrefab::PigParent(p) => p.update_empty_is_noop(),
        }
    }

    fn spawn_prfab(&self, fields: &StrMap<PrefabField>) -> (r: Result<Vec<AttrOp>, PrefabError>) {
        match self {
            DefaultPrefab::Player(p) => p.spawn_prfab(fields),
            DefaultPrefab::PigParent(p) => p.spawn_prfab(fields),
        }
    }

    fn update_prfab(&self, changed_fields: &StrMap<PrefabField>) -> (r: Vec<AttrOp>) {
        match self {
            DefaultPrefab::Player(p) => p.update_prfab(changed_fields),
            DefaultPrefab::PigParent(p) => p.update_prfab(changed_fields),
        }
    }
}

} // verus!
