use rustiant::data::PrefabData;
use rustiant::field::PrefabField;
use rustiant::num::Number;
use rustiant::prefab::{DefaultPrefab, PigParentPrefab, PlayerPrefab, Prefab, PrefabError};
use rustiant::registry::{register_default_prefabs, PrefabRegistry};
use rustiant::strmap::StrMap;
use rustiant::world::AttrOp;

fn player_fields(speed: u64, sprite: &str, position: &str) -> StrMap<PrefabField> {
    let mut fields: StrMap<PrefabField> = StrMap::new();
    fields.insert(
        "speed".to_string(),
        PrefabField::NumberValue(Number::from_parts(false, speed, 0)),
    );
    fields.insert("sprite".to_string(), PrefabField::StringValue(sprite.to_string()));
    fields.insert(
        "position".to_string(),
        PrefabField::StringValue(position.to_string()),
    );
    fields
}

#[test]
fn spawn_dispatches_to_the_handler_under_the_exact_name() {
    let mut registry = PrefabRegistry::new();
    register_default_prefabs(&mut registry);

    let data = PrefabData {
        prefab_type: "PigParent".to_string(),
        fields: StrMap::new(),
    };
    let attrs = registry.spawn(&data).expect("registered archetype");
    assert_eq!(
        attrs,
        vec![AttrOp::SetName("PigParent".to_string()), AttrOp::MarkPigParent]
    );

    let data = PrefabData {
        prefab_type: "Player".to_string(),
        fields: player_fields(300, "sprites/bevy-icon.png", "(4.0, -2.5)"),
    };
    let attrs = registry.spawn(&data).expect("registered archetype");
    assert_eq!(attrs.len(), 4);
    assert_eq!(
        attrs[3],
        AttrOp::SetPosition(
            Number::from_parts(false, 4, 0),
            Number::from_parts(true, 25, -1)
        )
    );
}

#[test]
fn unregistered_archetype_yields_the_documented_error() {
    let mut registry: PrefabRegistry<DefaultPrefab> = PrefabRegistry::new();
    register_default_prefabs(&mut registry);

    let data = PrefabData {
        prefab_type: "Ghost".to_string(),
        fields: StrMap::new(),
    };
    assert_eq!(registry.spawn(&data), Err(PrefabError::UnregisteredArchetype));
    assert_eq!(
        registry.update(&"Ghost".to_string(), &StrMap::new()),
        Err(PrefabError::UnregisteredArchetype)
    );
}

#[test]
fn registering_again_overwrites_the_handler() {
    let mut registry: PrefabRegistry<DefaultPrefab> = PrefabRegistry::new();
    registry.register_prefab("X", DefaultPrefab::Player(PlayerPrefab));
    registry.register_prefab("X", DefaultPrefab::PigParent(PigParentPrefab));

    let data = PrefabData {
        prefab_type: "X".to_string(),
        fields: StrMap::new(),
    };
    // the Player handler would reject the empty field bag
    let attrs = registry.spawn(&data).expect("pig parent handler");
    assert_eq!(
        attrs,
        vec![AttrOp::SetName("PigParent".to_string()), AttrOp::MarkPigParent]
    );
}

#[test]
fn player_spawn_requires_its_fields() {
    let player = PlayerPrefab;
    assert_eq!(
        player.spawn_prfab(&StrMap::new()),
        Err(PrefabError::MissingField)
    );

    let mut missing_sprite: StrMap<PrefabField> = StrMap::new();
    missing_sprite.insert(
        "speed".to_string(),
        PrefabField::NumberValue(Number::from_parts(false, 1, 0)),
    );
    missing_sprite.insert(
        "position".to_string(),
        PrefabField::StringValue("(0.0, 0.0)".to_string()),
    );
    assert_eq!(
        player.spawn_prfab(&missing_sprite),
        Err(PrefabError::MissingField)
    );

    // wrong field kind
    let mut wrong_kind = player_fields(1, "s.png", "(0.0, 0.0)");
    wrong_kind.insert("speed".to_string(), PrefabField::BoolValue(true));
    assert_eq!(player.spawn_prfab(&wrong_kind), Err(PrefabError::InvalidField));

    // malformed coordinate pair
    let bad_position = player_fields(1, "s.png", "(0.0 0.0)");
    assert_eq!(
        player.spawn_prfab(&bad_position),
        Err(PrefabError::InvalidField)
    );
}

#[test]
fn player_update_applies_speed_then_sprite_and_ignores_the_rest() {
    let player = PlayerPrefab;
    let mut changed: StrMap<PrefabField> = StrMap::new();
    changed.insert("sprite".to_string(), PrefabField::StringValue("new.png".to_string()));
    changed.insert(
        "speed".to_string(),
        PrefabField::NumberValue(Number::from_parts(false, 450, 0)),
    );
    changed.insert(
        "position".to_string(),
        PrefabField::StringValue("(1.0, 1.0)".to_string()),
    );
    changed.insert("mystery".to_string(), PrefabField::BoolValue(true));

    let ops = player.update_prfab(&changed);
    assert_eq!(
        ops,
        vec![
            AttrOp::SetSpeed(Number::from_parts(false, 450, 0)),
            AttrOp::SetSprite("new.png".to_string()),
        ]
    );
    assert_eq!(player.update_prfab(&StrMap::new()), Vec::<AttrOp>::new());
}

#[test]
fn pig_parent_never_updates() {
    let pig = PigParentPrefab;
    let mut changed: StrMap<PrefabField> = StrMap::new();
    changed.insert("anything".to_string(), PrefabField::BoolValue(true));
    assert_eq!(pig.update_prfab(&changed), Vec::<AttrOp>::new());
}
