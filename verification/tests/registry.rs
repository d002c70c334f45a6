use prefab::component::ComponentDescriptorRegistry;
use prefab::graph::Node;
use prefab::overrides::{
    FieldOverride, OverrideForm, OverrideRegistry, OverrideValue, StructOverride, Vec3Override,
};
use prefab::prefab::PrefabDescriptorRegistry;
use prefab::mapped::EntityMap;
use prefab::registry::{shorten_name, Registry, RegistryError};
use prefab::values::{Field, FieldSchema, Kind, Record, Schema, Value, Vec3};

fn schema_of(fields: Vec<(&str, Kind)>) -> Schema {
    Schema {
        fields: fields
            .into_iter()
            .map(|(n, k)| FieldSchema { name: n.to_string(), kind: k })
            .collect(),
    }
}

#[test]
fn registration_is_keyed_three_ways() {
    let mut reg: Registry<u8> = Registry::empty();
    reg.register_internal("A".to_string(), 1, 100, 7).unwrap();
    assert_eq!(reg.find_by_name(&"A".to_string()), Some(&7));
    assert_eq!(reg.find_by_type(1), Some(&7));
    assert_eq!(reg.find_by_name(&"B".to_string()), None);
    assert_eq!(reg.find_by_type(2), None);
}

#[test]
fn registration_collisions_fail_without_partial_state() {
    let mut reg: Registry<u8> = Registry::empty();
    reg.register_internal("A".to_string(), 1, 100, 7).unwrap();
    // Each key has its own error, and nothing is half registered.
    assert_eq!(
        reg.register_internal("A".to_string(), 2, 200, 8),
        Err(RegistryError::AliasAlreadyRegistered("A".to_string()))
    );
    assert_eq!(
        reg.register_internal("B".to_string(), 1, 200, 8),
        Err(RegistryError::TypeAlreadyRegistered(1))
    );
    assert_eq!(
        reg.register_internal("B".to_string(), 2, 100, 8),
        Err(RegistryError::UuidAlreadyRegistered(100))
    );
    assert_eq!(reg.reg.len(), 1);
    assert_eq!(reg.find_by_name(&"B".to_string()), None);
    assert_eq!(reg.find_by_type(2), None);
}

#[test]
fn component_registration_generates_fresh_uuids() {
    let mut reg = ComponentDescriptorRegistry::empty();
    reg.register("A".to_string(), 1, schema_of(vec![])).unwrap();
    reg.register("B".to_string(), 2, schema_of(vec![])).unwrap();
    assert!(reg.reg[0].uuid != reg.reg[1].uuid);
}

#[test]
fn stock_prefab_alias_is_registered() {
    let reg = PrefabDescriptorRegistry::default();
    let d = reg.find_by_name(&"Prefab".to_string()).unwrap();
    assert!(d.source_prefab_required);
    assert_eq!(d.schema.fields.len(), 0);
    assert!(reg.find_by_name(&"Lamp".to_string()).is_none());
}

#[test]
fn override_derivation_reports_unsupported_fields() {
    // Text fields have no registered override form: they are skipped and
    // reported, not refused.
    let mut reg = PrefabDescriptorRegistry::default();
    let skipped = reg
        .register_aliased(
            "Sign".to_string(),
            50,
            500,
            schema_of(vec![("label", Kind::Text), ("brightness", Kind::Int)]),
            true,
        )
        .unwrap();
    assert_eq!(skipped, vec!["label".to_string()]);
    let d = reg.find_by_name(&"Sign".to_string()).unwrap();
    match &d.overrides {
        prefab::overrides::OverrideDescriptor::Struct(sd) => {
            assert_eq!(sd.fields.len(), 1);
            assert_eq!(sd.fields[0].name, "brightness".to_string());
            assert_eq!(sd.fields[0].descriptor.form, OverrideForm::Whole);
        },
        _ => panic!("derived descriptor should cover the struct"),
    }
}

#[test]
fn override_precedence_on_records() {
    // {a: Some(v)} onto {a: d, b: d2} yields {a: v, b: d2}.
    let mut record = Record {
        type_tag: 1,
        fields: vec![
            Field { name: "a".to_string(), value: Value::Int(1) },
            Field { name: "b".to_string(), value: Value::Int(2) },
        ],
    };
    let patch = StructOverride {
        fields: vec![FieldOverride {
            name: "a".to_string(),
            value: OverrideValue::Whole(Value::Int(5)),
        }],
    };
    patch.apply_override(&mut record);
    assert_eq!(record.fields[0].value, Value::Int(5));
    assert_eq!(record.fields[1].value, Value::Int(2));
}

#[test]
fn vector_override_touches_only_supplied_axes() {
    let mut record = Record {
        type_tag: 1,
        fields: vec![Field { name: "pos".to_string(), value: Value::Vec3(Vec3 { x: 1, y: 2, z: 3 }) }],
    };
    let patch = StructOverride {
        fields: vec![FieldOverride {
            name: "pos".to_string(),
            value: OverrideValue::Axes(Vec3Override { x: Some(9), y: None, z: Some(7) }),
        }],
    };
    patch.apply_override(&mut record);
    assert_eq!(record.fields[0].value, Value::Vec3(Vec3 { x: 9, y: 2, z: 7 }));
}

#[test]
fn mismatched_override_kind_is_ignored() {
    // A whole-value override of another kind leaves the base untouched: the
    // mismatch is a caller bug, not a decode error, and must not corrupt.
    let mut record = Record {
        type_tag: 1,
        fields: vec![Field { name: "a".to_string(), value: Value::Int(1) }],
    };
    let patch = StructOverride {
        fields: vec![FieldOverride {
            name: "a".to_string(),
            value: OverrideValue::Whole(Value::Bool(true)),
        }],
    };
    patch.apply_override(&mut record);
    assert_eq!(record.fields[0].value, Value::Int(1));
}

#[test]
fn stock_override_registry_covers_the_plain_kinds() {
    let reg = OverrideRegistry::default();
    assert_eq!(reg.find(Kind::Int), Some(OverrideForm::Whole));
    assert_eq!(reg.find(Kind::Vec3), Some(OverrideForm::Axes));
    assert_eq!(reg.find(Kind::Quat), Some(OverrideForm::Whole));
    assert_eq!(reg.find(Kind::Text), None);
}

#[test]
fn registration_by_type_path_uses_the_shortened_alias() {
    let mut reg = ComponentDescriptorRegistry::empty();
    reg.registry("my_game::characters::Hero", 3, schema_of(vec![])).unwrap();
    assert!(reg.find_by_name(&"Hero".to_string()).is_some());
    assert!(reg.find_by_name(&"my_game::characters::Hero".to_string()).is_none());
}

#[test]
fn shorten_name_trims_path_segments() {
    assert_eq!(shorten_name("module::Foo<module::Bar>"), "Foo<Bar>".to_string());
    assert_eq!(shorten_name("Foo"), "Foo".to_string());
    assert_eq!(shorten_name("a::b::Widget"), "Widget".to_string());
    assert_eq!(
        shorten_name("core::option::Option<alloc::string::String>"),
        "Option<String>".to_string()
    );
}

#[test]
fn records_attach_one_per_type() {
    let mut node = Node::blank();
    node.insert_record(Record { type_tag: 1, fields: vec![] });
    node.insert_record(Record {
        type_tag: 1,
        fields: vec![Field { name: "a".to_string(), value: Value::Int(4) }],
    });
    assert_eq!(node.records.len(), 1);
    assert_eq!(node.records[0].fields.len(), 1);
    node.insert_record_if_absent(Record { type_tag: 1, fields: vec![] });
    assert_eq!(node.records[0].fields.len(), 1);
    node.insert_record_if_absent(Record { type_tag: 2, fields: vec![] });
    assert_eq!(node.records.len(), 2);
}

#[test]
fn entity_map_keeps_first_translation() {
    let mut map = EntityMap::empty();
    map.insert(5, 1);
    map.insert(5, 2);
    map.insert(6, 3);
    assert_eq!(map.get(5), Some(1));
    assert_eq!(map.get(6), Some(3));
    assert_eq!(map.get(7), None);
}
