use prefab::component::{ComponentDescriptorRegistry, DecodeMode};
use prefab::de::{decode_component, decode_override, DecodeError, PrefabDeserializer};
use prefab::ids::IdValidation;
use prefab::document::{DocEntry, DocValue};
use prefab::graph::Node;
use prefab::mapped::ComponentEntityMapperRegistry;
use prefab::overrides::{OverrideDescriptor, OverrideValue, StructOverride};
use prefab::prefab::PrefabDescriptorRegistry;
use prefab::values::{Field, FieldSchema, Kind, Schema, Value, Vec3};

fn txt(s: &str) -> DocValue {
    DocValue::Text(s.to_string())
}

fn ent(k: &str, v: DocValue) -> DocEntry {
    DocEntry { key: k.to_string(), value: v }
}

fn tagv(name: &str, v: DocValue) -> DocValue {
    DocValue::Tagged(name.to_string(), Box::new(v))
}

fn some(v: DocValue) -> DocValue {
    DocValue::Opt(Some(Box::new(v)))
}

const NAME_TAG: u64 = 10;
const LAMP_TAG: u64 = 20;
const LAMP_UUID: u128 = 99;

fn name_schema() -> Schema {
    Schema { fields: vec![FieldSchema { name: "0".to_string(), kind: Kind::Text }] }
}

fn lamp_schema() -> Schema {
    Schema { fields: vec![FieldSchema { name: "light_strength".to_string(), kind: Kind::Int }] }
}

fn setup() -> PrefabDeserializer {
    let mut component_registry = ComponentDescriptorRegistry::empty();
    component_registry
        .register("Name".to_string(), NAME_TAG, name_schema())
        .unwrap();

    let mut prefab_registry = PrefabDescriptorRegistry::default();
    prefab_registry
        .register_aliased("Lamp".to_string(), LAMP_TAG, LAMP_UUID, lamp_schema(), true)
        .unwrap();

    let component_entity_mapper = ComponentEntityMapperRegistry::empty();
    PrefabDeserializer::new(component_entity_mapper, component_registry, prefab_registry)
}

#[test]
fn component_read() {
    let de = setup();
    let mut node = Node::blank();
    let input = tagv("Name", DocValue::List(vec![txt("Root")]));
    decode_component(&de.component_registry, &input, &mut node).unwrap();
    assert_eq!(node.records.len(), 1);
    assert_eq!(node.records[0].type_tag, NAME_TAG);
    assert_eq!(
        node.records[0].fields[0],
        Field { name: "0".to_string(), value: Value::Text("Root".to_string()) }
    );
}

#[test]
fn de_read() {
    // A whole document holding one plain element with a Name component.
    let de = setup();
    let doc = tagv(
        "Prefab",
        DocValue::Dict(vec![ent(
            "scene",
            DocValue::List(vec![tagv(
                "Entity",
                DocValue::Dict(vec![ent(
                    "components",
                    DocValue::List(vec![tagv("Name", DocValue::List(vec![txt("Root")]))]),
                )]),
            )]),
        )]),
    );
    let prefab = de.deserialize(&doc).unwrap();
    assert_eq!(prefab.root_entity, 0);
    assert_eq!(prefab.world.nodes.len(), 2);
    let node = &prefab.world.nodes[1];
    assert_eq!(node.records.len(), 1);
    assert_eq!(node.records[0].fields[0].value, Value::Text("Root".to_string()));
}

#[test]
fn instance_read() {
    // A template instance and a plain element side by side, as one document.
    let de = setup();
    let doc = tagv(
        "Prefab",
        DocValue::Dict(vec![ent(
            "scene",
            DocValue::List(vec![
                tagv(
                    "Lamp",
                    DocValue::Dict(vec![
                        ent("id", DocValue::Int(95649)),
                        ent("source", tagv("External", txt("prefabs/lamp.prefab"))),
                        ent(
                            "transform",
                            DocValue::Dict(vec![
                                ent(
                                    "translation",
                                    some(DocValue::List(vec![
                                        DocValue::Int(0),
                                        DocValue::Int(0),
                                        DocValue::Int(0),
                                    ])),
                                ),
                                ent(
                                    "rotation",
                                    some(DocValue::List(vec![
                                        DocValue::Int(0),
                                        DocValue::Int(0),
                                        DocValue::Int(0),
                                        DocValue::Int(1),
                                    ])),
                                ),
                                ent("scale", DocValue::Opt(None)),
                            ]),
                        ),
                        ent("parent", some(DocValue::Int(67234))),
                        ent("overrides", DocValue::Dict(vec![ent("light_strength", DocValue::Int(2))])),
                    ]),
                ),
                tagv(
                    "Entity",
                    DocValue::Dict(vec![
                        ent("id", DocValue::Int(67234)),
                        ent(
                            "components",
                            DocValue::List(vec![tagv("Name", DocValue::List(vec![txt("Root")]))]),
                        ),
                    ]),
                ),
            ]),
        )]),
    );
    let prefab = de.deserialize(&doc).unwrap();
    assert_eq!(prefab.world.nodes.len(), 3);
    let lamp = &prefab.world.nodes[1];
    assert!(lamp.not_instantiated.is_some());
    assert_eq!(lamp.source.as_ref().unwrap().path, "prefabs/lamp.prefab".to_string());
    // The parent author id resolved to the node of the element declaring it.
    assert_eq!(lamp.parent, Some(2));
    let overrides = lamp.overrides.as_ref().unwrap();
    assert_eq!(overrides.fields.len(), 1);
    assert_eq!(overrides.fields[0].name, "light_strength".to_string());
    assert_eq!(overrides.fields[0].value, OverrideValue::Whole(Value::Int(2)));
}

#[test]
fn prefab_instance_read() {
    // A single template instance, inspected field by field.
    let de = setup();
    let doc = tagv(
        "Prefab",
        DocValue::Dict(vec![ent(
            "scene",
            DocValue::List(vec![tagv(
                "Lamp",
                DocValue::Dict(vec![
                    ent("id", DocValue::Int(95649)),
                    ent("source", txt("prefabs/lamp.prefab")),
                    ent("overrides", DocValue::Dict(vec![ent("light_strength", DocValue::Int(2))])),
                ]),
            )]),
        )]),
    );
    let prefab = de.deserialize(&doc).unwrap();
    assert_eq!(prefab.world.nodes.len(), 2);
    let lamp = &prefab.world.nodes[1];
    assert!(lamp.not_instantiated.is_some());
    assert!(lamp.construct.is_none());
    assert_eq!(lamp.expected_type.as_ref().unwrap().0, LAMP_UUID);
    assert!(lamp.transform_override.is_some());
    assert!(lamp.parent.is_none());
}

#[test]
fn duplicate_author_id_is_rejected() {
    let de = setup();
    let element = |id: i64| {
        tagv(
            "Entity",
            DocValue::Dict(vec![ent("id", DocValue::Int(id))]),
        )
    };
    let doc = tagv(
        "Prefab",
        DocValue::Dict(vec![ent("scene", DocValue::List(vec![element(5), element(5)]))]),
    );
    assert_eq!(de.deserialize(&doc), Err(DecodeError::DuplicateId(5)));
}

#[test]
fn unknown_prefab_alias_is_rejected() {
    let de = setup();
    let doc = tagv("Missing", DocValue::Dict(vec![]));
    assert_eq!(
        de.deserialize(&doc),
        Err(DecodeError::UnknownPrefab("Missing".to_string()))
    );
}

#[test]
fn unknown_component_alias_is_rejected() {
    let de = setup();
    let doc = tagv(
        "Prefab",
        DocValue::Dict(vec![ent(
            "scene",
            DocValue::List(vec![tagv(
                "Entity",
                DocValue::Dict(vec![ent(
                    "components",
                    DocValue::List(vec![tagv("Rotor", DocValue::List(vec![]))]),
                )]),
            )]),
        )]),
    );
    assert_eq!(
        de.deserialize(&doc),
        Err(DecodeError::UnknownComponent("Rotor".to_string()))
    );
}

#[test]
fn unknown_scene_tag_is_rejected() {
    let de = setup();
    let doc = tagv(
        "Prefab",
        DocValue::Dict(vec![ent(
            "scene",
            DocValue::List(vec![tagv("Rotor", DocValue::Dict(vec![]))]),
        )]),
    );
    assert_eq!(
        de.deserialize(&doc),
        Err(DecodeError::UnknownInstanceTag("Rotor".to_string()))
    );
}

#[test]
fn procedural_template_rejects_source() {
    // The stock alias `Prefab` is procedural-compatible only when document
    // backed; register a procedural template and hand it a source.
    let mut de = setup();
    de.prefab_registry
        .register_aliased("Bot".to_string(), 30, 77, Schema { fields: vec![] }, false)
        .unwrap();
    let doc = tagv(
        "Prefab",
        DocValue::Dict(vec![ent(
            "scene",
            DocValue::List(vec![tagv(
                "Bot",
                DocValue::Dict(vec![ent("source", txt("bot.prefab"))]),
            )]),
        )]),
    );
    assert_eq!(de.deserialize(&doc), Err(DecodeError::UnusedSource));
}

#[test]
fn document_backed_template_requires_source() {
    let de = setup();
    let doc = tagv(
        "Prefab",
        DocValue::Dict(vec![ent(
            "scene",
            DocValue::List(vec![tagv("Lamp", DocValue::Dict(vec![]))]),
        )]),
    );
    assert_eq!(
        de.deserialize(&doc),
        Err(DecodeError::MissingField("source".to_string()))
    );
}

#[test]
fn unknown_parent_is_rejected() {
    let de = setup();
    let doc = tagv(
        "Prefab",
        DocValue::Dict(vec![ent(
            "scene",
            DocValue::List(vec![tagv(
                "Lamp",
                DocValue::Dict(vec![
                    ent("source", txt("prefabs/lamp.prefab")),
                    ent("parent", some(DocValue::Int(42))),
                ]),
            )]),
        )]),
    );
    assert_eq!(de.deserialize(&doc), Err(DecodeError::UnknownParent(42)));
}

#[test]
fn dangling_reference_is_rejected() {
    // A component with a reference field naming an undeclared author id.
    let mut de = setup();
    de.component_registry
        .register(
            "Link".to_string(),
            11,
            Schema { fields: vec![FieldSchema { name: "target".to_string(), kind: Kind::Ref }] },
        )
        .unwrap();
    de.component_entity_mapper.register(11);
    let doc = tagv(
        "Prefab",
        DocValue::Dict(vec![ent(
            "scene",
            DocValue::List(vec![tagv(
                "Entity",
                DocValue::Dict(vec![ent(
                    "components",
                    DocValue::List(vec![tagv(
                        "Link",
                        DocValue::Dict(vec![ent("target", DocValue::Int(9))]),
                    )]),
                )]),
            )]),
        )]),
    );
    assert_eq!(de.deserialize(&doc), Err(DecodeError::DanglingReference(9)));
}

#[test]
fn reference_is_rewritten_to_template_space() {
    let mut de = setup();
    de.component_registry
        .register(
            "Link".to_string(),
            11,
            Schema { fields: vec![FieldSchema { name: "target".to_string(), kind: Kind::Ref }] },
        )
        .unwrap();
    de.component_entity_mapper.register(11);
    let doc = tagv(
        "Prefab",
        DocValue::Dict(vec![ent(
            "scene",
            DocValue::List(vec![
                tagv(
                    "Entity",
                    DocValue::Dict(vec![
                        ent("id", DocValue::Int(7)),
                        ent(
                            "components",
                            DocValue::List(vec![tagv(
                                "Link",
                                DocValue::Dict(vec![ent("target", DocValue::Int(9))]),
                            )]),
                        ),
                    ]),
                ),
                tagv("Entity", DocValue::Dict(vec![ent("id", DocValue::Int(9))])),
            ]),
        )]),
    );
    let prefab = de.deserialize(&doc).unwrap();
    // Author id 9 is the second element, hence node handle 2.
    assert_eq!(prefab.world.nodes[1].records[0].fields[0].value, Value::Ref(2));
}

#[test]
fn unknown_document_key_is_rejected() {
    let de = setup();
    let doc = tagv(
        "Prefab",
        DocValue::Dict(vec![ent("magic", DocValue::Int(1))]),
    );
    assert_eq!(
        de.deserialize(&doc),
        Err(DecodeError::UnknownField("magic".to_string()))
    );
}

#[test]
fn duplicate_document_key_is_rejected() {
    let de = setup();
    let doc = tagv(
        "Prefab",
        DocValue::Dict(vec![
            ent("data", DocValue::Dict(vec![])),
            ent("data", DocValue::Dict(vec![])),
        ]),
    );
    assert_eq!(
        de.deserialize(&doc),
        Err(DecodeError::DuplicateField("data".to_string()))
    );
}

#[test]
fn bad_field_value_is_rejected() {
    let de = setup();
    let doc = tagv(
        "Prefab",
        DocValue::Dict(vec![ent(
            "scene",
            DocValue::List(vec![tagv(
                "Entity",
                DocValue::Dict(vec![ent(
                    "components",
                    DocValue::List(vec![tagv(
                        "Name",
                        DocValue::List(vec![DocValue::Int(3)]),
                    )]),
                )]),
            )]),
        )]),
    );
    assert_eq!(de.deserialize(&doc), Err(DecodeError::BadValue("0".to_string())));
}

#[test]
fn wrong_document_shape_is_rejected() {
    let de = setup();
    assert_eq!(de.deserialize(&DocValue::Int(3)), Err(DecodeError::WrongShape));
}

#[test]
fn prefab_data_type_cannot_be_a_component() {
    let mut de = setup();
    de.component_registry
        .register_prefab_data("LampData".to_string(), 21, lamp_schema())
        .unwrap();
    let mut node = Node::blank();
    let input = tagv("LampData", DocValue::Dict(vec![]));
    assert_eq!(
        decode_component(&de.component_registry, &input, &mut node),
        Err(DecodeError::ForbiddenComponent("LampData".to_string()))
    );
    assert_eq!(node.records.len(), 0);
}

#[test]
fn document_data_overrides_registered_default() {
    let de = setup();
    let doc = tagv(
        "Lamp",
        DocValue::Dict(vec![ent(
            "data",
            DocValue::Dict(vec![ent("light_strength", DocValue::Int(7))]),
        )]),
    );
    let prefab = de.deserialize(&doc).unwrap();
    assert_eq!(prefab.defaults.type_tag, LAMP_TAG);
    assert_eq!(prefab.defaults.fields[0].value, Value::Int(7));
    // Without a data key the registered default is used.
    let doc2 = tagv("Lamp", DocValue::Dict(vec![]));
    let prefab2 = de.deserialize(&doc2).unwrap();
    assert_eq!(prefab2.defaults.fields[0].value, Value::Int(0));
}

#[test]
fn duplicate_element_key_is_rejected() {
    let de = setup();
    let doc = tagv(
        "Prefab",
        DocValue::Dict(vec![ent(
            "scene",
            DocValue::List(vec![tagv(
                "Lamp",
                DocValue::Dict(vec![
                    ent("source", txt("a.prefab")),
                    ent("source", txt("b.prefab")),
                ]),
            )]),
        )]),
    );
    assert_eq!(
        de.deserialize(&doc),
        Err(DecodeError::DuplicateField("source".to_string()))
    );
}

#[test]
fn per_axis_override_decodes_from_documents() {
    // A template whose data holds a vector: its override patch may supply
    // single axes, positionally or by name.
    let mut de = setup();
    de.prefab_registry
        .register_aliased(
            "Mover".to_string(),
            31,
            88,
            Schema { fields: vec![FieldSchema { name: "velocity".to_string(), kind: Kind::Vec3 }] },
            true,
        )
        .unwrap();
    let doc = tagv(
        "Prefab",
        DocValue::Dict(vec![ent(
            "scene",
            DocValue::List(vec![tagv(
                "Mover",
                DocValue::Dict(vec![
                    ent("source", txt("mover.prefab")),
                    ent(
                        "overrides",
                        DocValue::Dict(vec![ent(
                            "velocity",
                            DocValue::Dict(vec![ent("x", DocValue::Int(4)), ent("z", DocValue::Int(6))]),
                        )]),
                    ),
                ]),
            )]),
        )]),
    );
    let prefab = de.deserialize(&doc).unwrap();
    let patch = prefab.world.nodes[1].overrides.as_ref().unwrap();
    assert_eq!(
        patch.fields[0].value,
        OverrideValue::Axes(prefab::overrides::Vec3Override { x: Some(4), y: None, z: Some(6) })
    );
}

#[test]
fn top_level_transform_decodes_with_identity_defaults() {
    let de = setup();
    let doc = tagv(
        "Lamp",
        DocValue::Dict(vec![ent(
            "transform",
            DocValue::Dict(vec![ent(
                "translation",
                DocValue::List(vec![DocValue::Int(5), DocValue::Int(6), DocValue::Int(7)]),
            )]),
        )]),
    );
    let prefab = de.deserialize(&doc).unwrap();
    assert_eq!(prefab.transform.translation, Vec3 { x: 5, y: 6, z: 7 });
    assert_eq!(prefab.transform.scale, Vec3 { x: 1, y: 1, z: 1 });
}

#[test]
fn auto_ids_never_collide_with_declared_ids() {
    let mut ids = IdValidation::empty();
    assert!(ids.validate(0));
    assert!(ids.validate(1));
    assert!(ids.validate(2));
    assert!(!ids.validate(1));
    let generated = ids.generate_unique();
    assert!(generated != 0 && generated != 1 && generated != 2);
    let again = ids.generate_unique();
    assert!(again != generated);
    assert!(again != 0 && again != 1 && again != 2);
}

#[test]
fn decode_mode_marker_types() {
    let mut creg = ComponentDescriptorRegistry::empty();
    creg.register_private("Tag".to_string(), 40, Schema { fields: vec![] })
        .unwrap();
    creg.register_non_serializable(
        "Counter".to_string(),
        41,
        Schema { fields: vec![FieldSchema { name: "n".to_string(), kind: Kind::Int }] },
    )
    .unwrap();
    assert_eq!(creg.find_by_name(&"Tag".to_string()).unwrap().mode, DecodeMode::Private);

    let mut node = Node::blank();
    // A private marker decodes to nothing.
    decode_component(&creg, &tagv("Tag", DocValue::Unit), &mut node).unwrap();
    assert_eq!(node.records.len(), 0);
    // A non-serialized type decodes to its default record.
    decode_component(&creg, &tagv("Counter", DocValue::Unit), &mut node).unwrap();
    assert_eq!(node.records.len(), 1);
    assert_eq!(node.records[0].fields[0].value, Value::Int(0));
}

#[test]
fn blank_override_descriptor_accepts_anything() {
    let patch = decode_override(&OverrideDescriptor::blank(), &DocValue::Int(5)).unwrap();
    assert_eq!(patch, StructOverride { fields: vec![] });
}
