use rustiant::data::PrefabData;
use rustiant::field::PrefabField;
use rustiant::num::Number;
use rustiant::parse::RoomLoader;
use rustiant::strmap::StrMap;

const SCENARIO_DOC: &str = r#"(
    prefabs: {
        "p1": (
            type: "Player",
            fields: {
                "speed": Number(300.0),
                "sprite": String("sprites/bevy-icon.png"),
                "position": String("(0.0, 0.0)"),
            },
        ),
        "p2": (
            type: "PigParent",
            fields: {},
        ),
    },
)"#;

fn field_of<'a>(data: &'a PrefabData, key: &str) -> &'a PrefabField {
    data.fields.get(&key.to_string()).expect("field present")
}

#[test]
fn loader_parses_the_scenario_document() {
    let loader = RoomLoader;
    let room = loader.load(SCENARIO_DOC.as_bytes()).expect("well-formed document");

    assert_eq!(room.prefabs.len(), 2);
    let p1 = room.prefabs.get(&"p1".to_string()).expect("p1 present");
    assert_eq!(p1.prefab_type, "Player".to_string());
    assert_eq!(
        *field_of(p1, "speed"),
        PrefabField::NumberValue(Number::from_parts(false, 300, 0))
    );
    assert_eq!(
        *field_of(p1, "sprite"),
        PrefabField::StringValue("sprites/bevy-icon.png".to_string())
    );
    assert_eq!(
        *field_of(p1, "position"),
        PrefabField::StringValue("(0.0, 0.0)".to_string())
    );

    let p2 = room.prefabs.get(&"p2".to_string()).expect("p2 present");
    assert_eq!(p2.prefab_type, "PigParent".to_string());
    assert_eq!(p2.fields.len(), 0);
}

#[test]
fn loader_accepts_booleans_and_compact_layout() {
    let loader = RoomLoader;
    let doc = r#"(prefabs:{"a":(type:"T",fields:{"on":Bool(true),"off":Bool(false)})})"#;
    let room = loader.load(doc.as_bytes()).expect("well-formed document");
    let a = room.prefabs.get(&"a".to_string()).unwrap();
    assert_eq!(*field_of(a, "on"), PrefabField::BoolValue(true));
    assert_eq!(*field_of(a, "off"), PrefabField::BoolValue(false));
}

#[test]
fn loader_rejects_malformed_documents() {
    let loader = RoomLoader;
    assert!(loader.load(b"").is_err());
    assert!(loader.load(b"(prefabs: {").is_err());
    assert!(loader.load(b"(rooms: {})").is_err());
    assert!(loader.load(b"(prefabs: {\"a\": (type: \"T\")})").is_err());
    // a repeated id is malformed, not last-wins
    assert!(loader
        .load(b"(prefabs: {\"a\": (type: \"T\", fields: {}), \"a\": (type: \"T\", fields: {})})")
        .is_err());
    // trailing bytes after the document are malformed
    assert!(loader.load(b"(prefabs: {}) x").is_err());
}

#[test]
fn loader_reports_the_two_extensions() {
    let loader = RoomLoader;
    let exts = loader.extensions();
    assert_eq!(exts, vec!["ron", "room"]);
}

#[test]
fn number_literals_with_equal_value_parse_equal() {
    let loader = RoomLoader;
    let doc = r#"(prefabs:{"a":(type:"T",fields:{
        "w": Number(300.0), "x": Number(300), "y": Number(3e2), "z": Number(30.0e1),
        "neg": Number(-4.5), "zero": Number(0.000)
    })})"#;
    let room = loader.load(doc.as_bytes()).expect("well-formed document");
    let a = room.prefabs.get(&"a".to_string()).unwrap();
    let expected = PrefabField::NumberValue(Number::from_parts(false, 300, 0));
    assert_eq!(*field_of(a, "w"), expected);
    assert_eq!(*field_of(a, "x"), expected);
    assert_eq!(*field_of(a, "y"), expected);
    assert_eq!(*field_of(a, "z"), expected);
    assert_eq!(
        *field_of(a, "neg"),
        PrefabField::NumberValue(Number::from_parts(true, 45, -1))
    );
    assert_eq!(
        *field_of(a, "zero"),
        PrefabField::NumberValue(Number::from_parts(false, 0, 0))
    );
}

#[test]
fn numbers_normalize_to_one_representation() {
    assert_eq!(
        Number::from_parts(false, 300, 0),
        Number::from_parts(false, 3, 2)
    );
    assert_eq!(
        Number::from_parts(false, 4500, -2),
        Number::from_parts(false, 45, 0)
    );
    // zero forgets sign and exponent
    assert_eq!(
        Number::from_parts(true, 0, 5),
        Number::from_parts(false, 0, 0)
    );
    assert_ne!(
        Number::from_parts(false, 3, 2),
        Number::from_parts(true, 3, 2)
    );
}

#[test]
fn field_equality_is_structural() {
    let a = PrefabField::StringValue("abc".to_string());
    let b = PrefabField::StringValue("abc".to_string());
    let c = PrefabField::StringValue("abd".to_string());
    assert_eq!(a, b);
    assert_ne!(a, c);
    assert_ne!(a, PrefabField::BoolValue(true));
    assert_eq!(
        PrefabField::NumberValue(Number::from_parts(false, 1, 0)),
        PrefabField::NumberValue(Number::from_parts(false, 10, -1))
    );
}

#[test]
fn changed_fields_are_exactly_the_differing_keys() {
    let mut old_fields: StrMap<PrefabField> = StrMap::new();
    old_fields.insert("kept".to_string(), PrefabField::BoolValue(true));
    old_fields.insert(
        "changed".to_string(),
        PrefabField::NumberValue(Number::from_parts(false, 1, 0)),
    );
    old_fields.insert("gone".to_string(), PrefabField::BoolValue(false));
    let old_data = PrefabData {
        prefab_type: "T".to_string(),
        fields: old_fields,
    };

    let mut new_fields: StrMap<PrefabField> = StrMap::new();
    new_fields.insert("kept".to_string(), PrefabField::BoolValue(true));
    new_fields.insert(
        "changed".to_string(),
        PrefabField::NumberValue(Number::from_parts(false, 2, 0)),
    );
    new_fields.insert("added".to_string(), PrefabField::StringValue("x".to_string()));
    let new_data = PrefabData {
        prefab_type: "T".to_string(),
        fields: new_fields,
    };

    let diff = PrefabData::get_changed_fields(&old_data, &new_data);
    assert_eq!(diff.len(), 2);
    assert!(!diff.contains_key(&"kept".to_string()));
    // a field removed in the new data is not part of the diff
    assert!(!diff.contains_key(&"gone".to_string()));
    assert_eq!(
        *diff.get(&"changed".to_string()).unwrap(),
        PrefabField::NumberValue(Number::from_parts(false, 2, 0))
    );
    assert_eq!(
        *diff.get(&"added".to_string()).unwrap(),
        PrefabField::StringValue("x".to_string())
    );
}

#[test]
fn diff_of_identical_data_is_empty() {
    let mut fields: StrMap<PrefabField> = StrMap::new();
    fields.insert(
        "speed".to_string(),
        PrefabField::NumberValue(Number::from_parts(false, 300, 0)),
    );
    let a = PrefabData {
        prefab_type: "Player".to_string(),
        fields,
    };
    let b = a.clone_data();
    let diff = PrefabData::get_changed_fields(&a, &b);
    assert_eq!(diff.len(), 0);
}

#[test]
fn diff_across_archetypes_is_empty() {
    let a = PrefabData {
        prefab_type: "Player".to_string(),
        fields: StrMap::new(),
    };
    let mut fields: StrMap<PrefabField> = StrMap::new();
    fields.insert("x".to_string(), PrefabField::BoolValue(true));
    let b = PrefabData {
        prefab_type: "PigParent".to_string(),
        fields,
    };
    let diff = PrefabData::get_changed_fields(&a, &b);
    assert_eq!(diff.len(), 0);
}
