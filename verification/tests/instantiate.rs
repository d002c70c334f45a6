use prefab::component::ComponentDescriptorRegistry;
use prefab::de::PrefabDeserializer;
use prefab::document::{DocEntry, DocValue};
use prefab::graph::{Graph, PrefabSource};
use prefab::manager::{enqueue_prefab_not_instantiated, prefab_managing_system, Assets};
use prefab::mapped::ComponentEntityMapperRegistry;
use prefab::prefab::PrefabDescriptorRegistry;
use prefab::values::{FieldSchema, Kind, Quat, Schema, Transform, Value, Vec3};
use prefab::{PrefabError, PrefabTransformOverride};

fn txt(s: &str) -> DocValue {
    DocValue::Text(s.to_string())
}

fn ent(k: &str, v: DocValue) -> DocEntry {
    DocEntry { key: k.to_string(), value: v }
}

fn tagv(name: &str, v: DocValue) -> DocValue {
    DocValue::Tagged(name.to_string(), Box::new(v))
}

fn some(v: DocValue) -> DocValue {
    DocValue::Opt(Some(Box::new(v)))
}

const NAME_TAG: u64 = 10;
const LAMP_TAG: u64 = 20;
const LAMP_UUID: u128 = 99;

fn setup() -> PrefabDeserializer {
    let mut component_registry = ComponentDescriptorRegistry::empty();
    component_registry
        .register(
            "Name".to_string(),
            NAME_TAG,
            Schema { fields: vec![FieldSchema { name: "0".to_string(), kind: Kind::Text }] },
        )
        .unwrap();
    let mut prefab_registry = PrefabDescriptorRegistry::default();
    prefab_registry
        .register_aliased(
            "Lamp".to_string(),
            LAMP_TAG,
            LAMP_UUID,
            Schema {
                fields: vec![FieldSchema { name: "light_strength".to_string(), kind: Kind::Int }],
            },
            true,
        )
        .unwrap();
    PrefabDeserializer::new(
        ComponentEntityMapperRegistry::empty(),
        component_registry,
        prefab_registry,
    )
}

fn scenario_document() -> DocValue {
    tagv(
        "Prefab",
        DocValue::Dict(vec![ent(
            "scene",
            DocValue::List(vec![
                tagv(
                    "Entity",
                    DocValue::Dict(vec![
                        ent("id", DocValue::Int(1)),
                        ent(
                            "components",
                            DocValue::List(vec![tagv("Name", DocValue::List(vec![txt("Root")]))]),
                        ),
                    ]),
                ),
                tagv(
                    "Lamp",
                    DocValue::Dict(vec![
                        ent("id", DocValue::Int(2)),
                        ent("source", txt("prefabs/lamp.prefab")),
                        ent("parent", some(DocValue::Int(1))),
                        ent("overrides", DocValue::Dict(vec![ent("light_strength", DocValue::Int(2))])),
                    ]),
                ),
            ]),
        )]),
    )
}

fn lamp_document() -> DocValue {
    tagv(
        "Lamp",
        DocValue::Dict(vec![ent(
            "data",
            DocValue::Dict(vec![ent("light_strength", DocValue::Int(7))]),
        )]),
    )
}

#[test]
fn scenario_document_decodes_into_template() {
    let de = setup();
    let prefab = de.deserialize(&scenario_document()).unwrap();
    // Two scene elements and the designated root.
    assert_eq!(prefab.world.nodes.len(), 3);
    let entity = &prefab.world.nodes[1];
    assert_eq!(entity.records[0].fields[0].value, Value::Text("Root".to_string()));
    let lamp = &prefab.world.nodes[2];
    assert!(lamp.not_instantiated.is_some());
    assert_eq!(lamp.parent, Some(1));
    let patch = lamp.overrides.as_ref().unwrap();
    assert_eq!(patch.fields.len(), 1);
    assert_eq!(patch.fields[0].name, "light_strength".to_string());
}

#[test]
fn scenario_instantiates_with_override_precedence() {
    let de = setup();
    let template = de.deserialize(&scenario_document()).unwrap();
    let lamp_asset = de.deserialize(&lamp_document()).unwrap();

    let mut assets = Assets::empty();
    assets.add("doc.prefab".to_string(), template);
    assets.add("prefabs/lamp.prefab".to_string(), lamp_asset);

    let mut target = Graph::empty();
    let root = target.spawn_prefab(Some(PrefabSource { path: "doc.prefab".to_string() }), None);
    assert_eq!(root, 0);

    let requests = prefab_managing_system(&mut target, &assets, &de, 4);

    // The document's two elements joined the target graph.
    assert_eq!(target.nodes.len(), 3);
    let entity = &target.nodes[1];
    assert_eq!(entity.records[0].fields[0].value, Value::Text("Root".to_string()));
    assert_eq!(entity.parent, Some(0));
    let lamp = &target.nodes[2];
    // The lamp hangs under the node its parent author id named.
    assert_eq!(lamp.parent, Some(1));
    assert!(lamp.not_instantiated.is_none());
    // Override precedence: the effective strength is the instance's 2,
    // regardless of the lamp asset's own default of 7.
    let data = lamp.data.as_ref().unwrap();
    assert_eq!(data.type_tag, LAMP_TAG);
    assert_eq!(data.fields[0].value, Value::Int(2));
    // One construct invocation per expansion: the outer root and the lamp.
    assert_eq!(requests.len(), 2);
    assert!(requests.iter().any(|r| r.entity == 0));
    assert!(requests.iter().any(|r| r.entity == 2 && r.uuid == LAMP_UUID));
}

#[test]
fn unresolved_asset_is_retried_untouched() {
    let de = setup();
    let template = de.deserialize(&scenario_document()).unwrap();

    let mut assets = Assets::empty();
    let mut target = Graph::empty();
    target.spawn_prefab(Some(PrefabSource { path: "doc.prefab".to_string() }), None);
    let before = target.clone();

    // While the asset is unresolved, pass after pass changes nothing.
    let requests = prefab_managing_system(&mut target, &assets, &de, 4);
    assert_eq!(requests.len(), 0);
    assert_eq!(target, before);
    let requests = prefab_managing_system(&mut target, &assets, &de, 4);
    assert_eq!(requests.len(), 0);
    assert_eq!(target, before);

    // Once it resolves, exactly one expansion occurs.
    assets.add("doc.prefab".to_string(), template);
    let requests = prefab_managing_system(&mut target, &assets, &de, 4);
    assert_eq!(requests.len(), 1);
    assert_eq!(requests[0].entity, 0);
    assert!(target.nodes[0].not_instantiated.is_none());
    let after_first = target.clone();

    // A later pass does not expand it again.  The nested lamp node stays
    // pending, untouched, because its own asset never loads.
    let requests = prefab_managing_system(&mut target, &assets, &de, 4);
    assert_eq!(requests.len(), 0);
    assert_eq!(target, after_first);
    assert!(target.nodes[2].not_instantiated.is_some());
}

#[test]
fn type_mismatch_is_terminal() {
    let de = setup();
    let template = de.deserialize(&scenario_document()).unwrap();
    // A lamp slot fed with a template of another type: the plain document
    // decodes under the stock alias, whose type is not the lamp's.
    let wrong = de.deserialize(&tagv("Prefab", DocValue::Dict(vec![]))).unwrap();

    let mut assets = Assets::empty();
    assets.add("doc.prefab".to_string(), template);
    assets.add("prefabs/lamp.prefab".to_string(), wrong);

    let mut target = Graph::empty();
    target.spawn_prefab(Some(PrefabSource { path: "doc.prefab".to_string() }), None);
    let requests = prefab_managing_system(&mut target, &assets, &de, 4);

    // The outer template expanded; the lamp node failed for good.
    assert_eq!(requests.len(), 1);
    let lamp = &target.nodes[2];
    assert!(lamp.not_instantiated.is_none());
    assert_eq!(lamp.error.as_ref().unwrap().error(), PrefabError::WrongExpectedSourcePrefab);

    // A later pass leaves the failed node alone.
    let after = target.clone();
    let requests = prefab_managing_system(&mut target, &assets, &de, 4);
    assert_eq!(requests.len(), 0);
    assert_eq!(target, after);
}

#[test]
fn procedural_node_expands_without_source() {
    let de = setup();
    let assets = Assets::empty();
    let mut target = Graph::empty();
    let root = target.spawn_prefab(None, None);
    let requests = prefab_managing_system(&mut target, &assets, &de, 4);
    assert_eq!(requests.len(), 1);
    assert_eq!(requests[0].entity, root);
    assert!(target.nodes[0].not_instantiated.is_none());
}

#[test]
fn default_record_references_are_rewritten_to_instance_space() {
    // A template whose default record names one of its own nodes, and whose
    // root carries a reference-bearing record: on expansion both must point
    // at the instance node, not at the template-space handle.
    let mut de = setup();
    de.component_registry
        .register(
            "Link".to_string(),
            11,
            Schema { fields: vec![FieldSchema { name: "target".to_string(), kind: Kind::Ref }] },
        )
        .unwrap();
    de.component_entity_mapper.register(11);
    de.prefab_registry
        .register_aliased(
            "Rig".to_string(),
            21,
            98,
            Schema { fields: vec![FieldSchema { name: "anchor".to_string(), kind: Kind::Ref }] },
            true,
        )
        .unwrap();
    let rig_doc = tagv(
        "Rig",
        DocValue::Dict(vec![
            ent("data", DocValue::Dict(vec![ent("anchor", DocValue::Int(4))])),
            ent(
                "components",
                DocValue::List(vec![tagv(
                    "Link",
                    DocValue::Dict(vec![ent("target", DocValue::Int(4))]),
                )]),
            ),
            ent(
                "scene",
                DocValue::List(vec![tagv("Entity", DocValue::Dict(vec![ent("id", DocValue::Int(4))]))]),
            ),
        ]),
    );
    let rig = de.deserialize(&rig_doc).unwrap();
    // In template space the declared id 4 became node handle 1.
    assert_eq!(rig.defaults.fields[0].value, Value::Ref(1));
    assert_eq!(rig.world.nodes[0].records[0].fields[0].value, Value::Ref(1));

    let mut assets = Assets::empty();
    assets.add("rig.prefab".to_string(), rig);

    let mut target = Graph::empty();
    // A bystander node shifts the base, so template and instance handles
    // cannot coincide by accident.
    target.spawn();
    let root = target.spawn_prefab(Some(PrefabSource { path: "rig.prefab".to_string() }), None);
    assert_eq!(root, 1);
    let requests = prefab_managing_system(&mut target, &assets, &de, 4);
    assert_eq!(requests.len(), 1);

    // Template node 1 landed at instance handle 2; the default record and
    // the root's merged record both follow it there.
    assert_eq!(target.nodes.len(), 3);
    let rig_root = &target.nodes[1];
    assert!(rig_root.not_instantiated.is_none());
    let data = rig_root.data.as_ref().unwrap();
    assert_eq!(data.fields[0].value, Value::Ref(2));
    assert_eq!(rig_root.records[0].fields[0].value, Value::Ref(2));
}

#[test]
fn transform_override_composes_onto_base() {
    let base = Transform {
        translation: Vec3 { x: 1, y: 2, z: 3 },
        rotation: Quat { x: 0, y: 0, z: 0, w: 1 },
        scale: Vec3 { x: 1, y: 1, z: 1 },
    };
    let over = PrefabTransformOverride {
        translation: Some(Vec3 { x: 9, y: 9, z: 9 }),
        rotation: None,
        scale: None,
    };
    let composed = over.overlay(&base);
    assert_eq!(composed.translation, Vec3 { x: 9, y: 9, z: 9 });
    assert_eq!(composed.rotation, base.rotation);
    assert_eq!(composed.scale, base.scale);
    let identity = PrefabTransformOverride::default().overlay(&base);
    assert_eq!(identity, base);
}

#[test]
fn enqueue_collects_exactly_the_pending_nodes() {
    let mut target = Graph::empty();
    target.spawn();
    target.spawn_prefab(Some(PrefabSource { path: "a.prefab".to_string() }), None);
    target.spawn();
    target.spawn_prefab(None, None);
    let mut queue = Vec::new();
    enqueue_prefab_not_instantiated(&target, &mut queue);
    assert_eq!(queue.len(), 2);
    assert_eq!(queue[0].0, 1);
    assert_eq!(queue[0].1.as_ref().unwrap().path, "a.prefab".to_string());
    assert_eq!(queue[1].0, 3);
    assert!(queue[1].1.is_none());
}
