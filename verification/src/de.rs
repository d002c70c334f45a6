//! The document decoder: turns a document tree into a [`Prefab`], driven by
//! the registries.  The whole decode fails on the first offence — an unknown
//! alias, a conflicting author id, a malformed value, a dangling reference —
//! and no partial template is ever handed out.

use vstd::prelude::*;

use crate::component::{ComponentDescriptorRegistry, DecodeMode};
use crate::document::{DocEntry, DocValue};
use crate::graph::{spec_insert_record, Node, NodeV};
use crate::values::{Field, FieldV, Kind, Record, RecordV, Schema, SchemaV, Value, ValueV, Vec3,
    Quat};

verus! {

/// Why a document was rejected.
#[derive(Debug, Clone, PartialEq, Eq)]
pub enum DecodeError {
    /// The document's outer tag names no registered template type.
    UnknownPrefab(String),
    /// A component carries an alias that names no registered record type.
    UnknownComponent(String),
    /// A scene element is tagged neither `Entity` nor a template alias.
    UnknownInstanceTag(String),
    /// A table carries a key the format does not recognize.
    UnknownField(String),
    /// A recognized key appears twice in one table.
    DuplicateField(String),
    /// Two elements declare the same author id.
    DuplicateId(u32),
    /// A required field is missing.
    MissingField(String),
    /// A procedural template instance supplies a source it cannot use.
    UnusedSource,
    /// A record registered as template data appears as a plain component.
    ForbiddenComponent(String),
    /// A parent names an author id that no element declares.
    UnknownParent(u32),
    /// A reference-bearing field names an author id that no element declares.
    DanglingReference(u32),
    /// A value does not fit the declared kind of the named field.
    BadValue(String),
    /// A value has a shape the format does not recognize.
    WrongShape,
}

/// Whether the two strings hold the same characters.
pub fn str_is(s: &String, lit: &str) -> (r: bool)
    ensures
        r == (s@ == lit@),
{
    *s == lit.to_owned()
}

/// What a document value denotes under a field kind, if anything: plain
/// values for the plain kinds, an author id for a reference, a list of
/// components for a vector or a rotation.
pub open spec fn spec_value(kind: Kind, dv: DocValue) -> Option<ValueV> {
    match kind {
        Kind::Bool => match dv {
            DocValue::Bool(b) => Some(ValueV::Bool(b)),
            _ => None,
        },
        Kind::Int => match dv {
            DocValue::Int(i) => Some(ValueV::Int(i)),
            _ => None,
        },
        Kind::Text => match dv {
            DocValue::Text(s) => Some(ValueV::Text(s@)),
            _ => None,
        },
        Kind::Ref => match dv {
            DocValue::Int(i) => if 0 <= i <= u32::MAX {
                Some(ValueV::Ref(i as u32))
            } else {
                None
            },
            _ => None,
        },
        Kind::Vec3 => match spec_vec3(dv) {
            Some(v) => Some(ValueV::Vec3(v)),
            None => None,
        },
        Kind::Quat => match spec_quat(dv) {
            Some(q) => Some(ValueV::Quat(q)),
            None => None,
        },
    }
}

/// A vector is a list of exactly three integer components.
pub open spec fn spec_vec3(dv: DocValue) -> Option<Vec3> {
    match dv {
        DocValue::List(items) => if items@.len() == 3 && items@[0] is Int && items@[1] is Int
            && items@[2] is Int {
            Some(Vec3 { x: items@[0]->Int_0, y: items@[1]->Int_0, z: items@[2]->Int_0 })
        } else {
            None
        },
        _ => None,
    }
}

/// A rotation is a list of exactly four integer components.
pub open spec fn spec_quat(dv: DocValue) -> Option<Quat> {
    match dv {
        DocValue::List(items) => if items@.len() == 4 && items@[0] is Int && items@[1] is Int
            && items@[2] is Int && items@[3] is Int {
            Some(
                Quat {
                    x: items@[0]->Int_0,
                    y: items@[1]->Int_0,
                    z: items@[2]->Int_0,
                    w: items@[3]->Int_0,
                },
            )
        } else {
            None
        },
        _ => None,
    }
}

/// Decodes one field value against its declared kind.
pub fn decode_value(kind: Kind, dv: &DocValue) -> (r: Option<Value>)
    ensures
        match r {
            Some(v) => spec_value(kind, *dv) == Some(v@),
            None => spec_value(kind, *dv) is None,
        },
{
    match kind {
        Kind::Bool => match dv {
            DocValue::Bool(b) => Some(Value::Bool(*b)),
            _ => None,
        },
        Kind::Int => match dv {
            DocValue::Int(i) => Some(Value::Int(*i)),
            _ => None,
        },
        Kind::Text => match dv {
            DocValue::Text(s) => Some(Value::Text(s.clone())),
            _ => None,
        },
        Kind::Ref => match dv {
            DocValue::Int(i) => if 0 <= *i && *i <= u32::MAX as i64 {
                Some(Value::Ref(*i as u32))
            } else {
                None
            },
            _ => None,
        },
        Kind::Vec3 => match decode_vec3(dv) {
            Some(v) => Some(Value::Vec3(v)),
            None => None,
        },
        Kind::Quat => match decode_quat(dv) {
            Some(q) => Some(Value::Quat(q)),
            None => None,
        },
    }
}

/// Decodes a vector.
pub fn decode_vec3(dv: &DocValue) -> (r: Option<Vec3>)
    ensures
        r == spec_vec3(*dv),
{
    match dv {
        DocValue::List(items) => {
            if items.len() != 3 {
                return None;
            }
            let x = match &items[0] {
                DocValue::Int(x) => *x,
                _ => {
                    return None;
                },
            };
            let y = match &items[1] {
                DocValue::Int(y) => *y,
                _ => {
                    return None;
                },
            };
            let z = match &items[2] {
                DocValue::Int(z) => *z,
                _ => {
                    return None;
                },
            };
            Some(Vec3 { x, y, z })
        },
        _ => None,
    }
}

/// Decodes a rotation.
pub fn decode_quat(dv: &DocValue) -> (r: Option<Quat>)
    ensures
        r == spec_quat(*dv),
{
    match dv {
        DocValue::List(items) => {
            if items.len() != 4 {
                return None;
            }
            let x = match &items[0] {
                DocValue::Int(x) => *x,
                _ => {
                    return None;
                },
            };
            let y = match &items[1] {
                DocValue::Int(y) => *y,
                _ => {
                    return None;
                },
            };
            let z = match &items[2] {
                DocValue::Int(z) => *z,
                _ => {
                    return None;
                },
            };
            let w = match &items[3] {
                DocValue::Int(w) => *w,
                _ => {
                    return None;
                },
            };
            Some(Quat { x, y, z, w })
        },
        _ => None,
    }
}

/// How often a key occurs among the entries.
pub open spec fn count_key(entries: Seq<DocEntry>, key: Seq<char>) -> int
    decreases entries.len(),
{
    if entries.len() == 0 {
        0
    } else {
        count_key(entries.drop_last(), key) + if entries.last().key@ == key {
            1int
        } else {
            0int
        }
    }
}

/// The count never exceeds the number of entries, and a key occurs exactly
/// when its count is positive.
pub proof fn lemma_count_key_bounds(entries: Seq<DocEntry>, key: Seq<char>)
    ensures
        0 <= count_key(entries, key) <= entries.len(),
        DocValue::dict_has_key(entries, key) <==> count_key(entries, key) > 0,
    decreases entries.len(),
{
    if entries.len() > 0 {
        lemma_count_key_bounds(entries.drop_last(), key);
        if DocValue::dict_has_key(entries, key) && entries.last().key@ != key {
            let w = choose|i: int| 0 <= i < entries.len() && #[trigger] entries[i].key@ == key;
            assert(entries.drop_last()[w].key@ == key);
            assert(DocValue::dict_has_key(entries.drop_last(), key));
        }
        if DocValue::dict_has_key(entries.drop_last(), key) {
            let w = choose|i: int|
                0 <= i < entries.drop_last().len() && #[trigger] entries.drop_last()[i].key@ == key;
            assert(entries[w].key@ == key);
        }
    }
}

/// Counts how often a key occurs among the entries.
pub fn dict_count(entries: &Vec<DocEntry>, key: &String) -> (r: usize)
    ensures
        r as int == count_key(entries@, key@),
{
    let n = entries.len();
    let mut count: usize = 0;
    let mut i: usize = 0;
    while i < n
        invariant
            n == entries@.len(),
            i <= n,
            count as int == count_key(entries@.take(i as int), key@),
            count <= i,
        decreases n - i,
    {
        proof {
            assert(entries@.take(i as int + 1).drop_last() =~= entries@.take(i as int));
            assert(entries@.take(i as int + 1).last() == entries@[i as int]);
        }
        if entries[i].key == *key {
            count = count + 1;
        }
        i = i + 1;
    }
    proof {
        assert(entries@.take(n as int) =~= entries@);
    }
    count
}

/// Whether the entries spell a record of the given layout, one named field
/// each: every declared field occurs exactly once with a value of its kind;
/// unrecognized keys are ignored.
pub open spec fn named_fields_valid(schema: SchemaV, entries: Seq<DocEntry>) -> bool {
    forall|i: int|
        0 <= i < schema.fields.len() ==> count_key(entries, (#[trigger] schema.fields[i]).name)
            == 1 && spec_value(
            schema.fields[i].kind,
            DocValue::dict_value(entries, schema.fields[i].name),
        ) is Some
}

/// The record the named entries spell, field for field in layout order.
pub open spec fn spec_named_record(type_tag: u64, schema: SchemaV, entries: Seq<DocEntry>) -> RecordV {
    RecordV {
        type_tag,
        fields: Seq::new(
            schema.fields.len(),
            |i: int|
                FieldV {
                    name: schema.fields[i].name,
                    value: spec_value(
                        schema.fields[i].kind,
                        DocValue::dict_value(entries, schema.fields[i].name),
                    )->0,
                },
        ),
    }
}

/// Whether the items spell a record of the given layout positionally: one
/// value per declared field, in layout order.
pub open spec fn positional_fields_valid(schema: SchemaV, items: Seq<DocValue>) -> bool {
    items.len() == schema.fields.len() && forall|i: int|
        0 <= i < schema.fields.len() ==> spec_value((#[trigger] schema.fields[i]).kind, items[i]) is Some
}

/// The record the items spell positionally.
pub open spec fn spec_positional_record(type_tag: u64, schema: SchemaV, items: Seq<DocValue>) -> RecordV {
    RecordV {
        type_tag,
        fields: Seq::new(
            schema.fields.len(),
            |i: int|
                FieldV {
                    name: schema.fields[i].name,
                    value: spec_value(schema.fields[i].kind, items[i])->0,
                },
        ),
    }
}

/// Whether the payload spells a record of the given layout, by name or
/// positionally.
pub open spec fn record_payload_valid(schema: SchemaV, dv: DocValue) -> bool {
    match dv {
        DocValue::Dict(entries) => named_fields_valid(schema, entries@),
        DocValue::List(items) => positional_fields_valid(schema, items@),
        _ => false,
    }
}

/// The record a valid payload spells.
pub open spec fn spec_record_of(type_tag: u64, schema: SchemaV, dv: DocValue) -> RecordV {
    match dv {
        DocValue::Dict(entries) => spec_named_record(type_tag, schema, entries@),
        DocValue::List(items) => spec_positional_record(type_tag, schema, items@),
        _ => RecordV { type_tag, fields: Seq::empty() },
    }
}

/// Decodes a record fragment against its declared layout.  The error names
/// the first offending field.
#[verifier::loop_isolation(false)]
pub fn decode_record(type_tag: u64, schema: &Schema, dv: &DocValue) -> (r: Result<
    Record,
    DecodeError,
>)
    ensures
        match r {
            Ok(rec) => record_payload_valid(schema@, *dv) && rec@ == spec_record_of(
                type_tag,
                schema@,
                *dv,
            ),
            Err(e) => !record_payload_valid(schema@, *dv) && !(e is DuplicateId),
        },
{
    match dv {
        DocValue::Dict(entries) => {
            let n = schema.fields.len();
            let mut fields: Vec<Field> = Vec::new();
            let mut i: usize = 0;
            while i < n
                invariant
                    n == schema.fields@.len(),
                    i <= n,
                    fields@.len() == i as int,
                    forall|j: int| #![auto]
                        0 <= j < i as int ==> fields@[j]@ == spec_named_record(
                            type_tag,
                            schema@,
                            entries@,
                        ).fields[j],
                    forall|j: int|
                        0 <= j < i as int ==> count_key(
                            entries@,
                            (#[trigger] schema@.fields[j]).name,
                        ) == 1 && spec_value(
                            schema@.fields[j].kind,
                            DocValue::dict_value(entries@, schema@.fields[j].name),
                        ) is Some,
                decreases n - i,
            {
                let fs = &schema.fields[i];
                let occurrences = dict_count(entries, &fs.name);
                if occurrences == 0 {
                    proof {
                        assert(count_key(entries@, schema@.fields[i as int].name) == 0);
                        assert(!named_fields_valid(schema@, entries@));
                    }
                    return Err(DecodeError::MissingField(fs.name.clone()));
                }
                if occurrences > 1 {
                    proof {
                        assert(count_key(entries@, schema@.fields[i as int].name) != 1);
                        assert(!named_fields_valid(schema@, entries@));
                    }
                    return Err(DecodeError::DuplicateField(fs.name.clone()));
                }
                let value = match crate::document::dict_find(entries, &fs.name) {
                    Some(v) => v,
                    None => {
                        proof {
                            lemma_count_key_bounds(entries@, fs.name@);
                            assert(false);
                        }
                        return Err(DecodeError::MissingField(fs.name.clone()));
                    },
                };
                match decode_value(fs.kind, value) {
                    Some(v) => {
                        fields.push(Field { name: fs.name.clone(), value: v });
                    },
                    None => {
                        proof {
                            assert(spec_value(
                                schema@.fields[i as int].kind,
                                DocValue::dict_value(entries@, schema@.fields[i as int].name),
                            ) is None);
                            assert(!named_fields_valid(schema@, entries@));
                        }
                        return Err(DecodeError::BadValue(fs.name.clone()));
                    },
                }
                i = i + 1;
            }
            let rec = Record { type_tag, fields };
            proof {
                assert(rec@.fields =~= spec_named_record(type_tag, schema@, entries@).fields);
            }
            Ok(rec)
        },
        DocValue::List(items) => {
            let n = schema.fields.len();
            if items.len() != n {
                if items.len() < n {
                    return Err(DecodeError::MissingField(schema.fields[items.len()].name.clone()));
                }
                return Err(DecodeError::WrongShape);
            }
            let mut fields: Vec<Field> = Vec::new();
            let mut i: usize = 0;
            while i < n
                invariant
                    n == schema.fields@.len(),
                    n == items@.len(),
                    i <= n,
                    fields@.len() == i as int,
                    forall|j: int| #![auto]
                        0 <= j < i as int ==> fields@[j]@ == spec_positional_record(
                            type_tag,
                            schema@,
                            items@,
                        ).fields[j],
                    forall|j: int|
                        0 <= j < i as int ==> spec_value(
                            (#[trigger] schema@.fields[j]).kind,
                            items@[j],
                        ) is Some,
                decreases n - i,
            {
                let fs = &schema.fields[i];
                match decode_value(fs.kind, &items[i]) {
                    Some(v) => {
                        fields.push(Field { name: fs.name.clone(), value: v });
                    },
                    None => {
                        proof {
                            assert(spec_value(
                                (schema@.fields[i as int]).kind,
                                items@[i as int],
                            ) is None);
                            assert(!positional_fields_valid(schema@, items@));
                        }
                        return Err(DecodeError::BadValue(fs.name.clone()));
                    },
                }
                i = i + 1;
            }
            let rec = Record { type_tag, fields };
            proof {
                assert(rec@.fields =~= spec_positional_record(type_tag, schema@, items@).fields);
            }
            Ok(rec)
        },
        _ => Err(DecodeError::WrongShape),
    }
}

/// Whether a tagged value spells a component a registered record type can
/// decode: its alias must be registered, its payload must fit that type's
/// layout, and a type registered as template data is refused.
pub open spec fn component_valid(creg: ComponentDescriptorRegistry, dv: DocValue) -> bool {
    match dv {
        DocValue::Tagged(alias, payload) => creg.has_alias(alias@) && (match creg.at_alias(
            alias@,
        ).mode {
            DecodeMode::Serialized => record_payload_valid(creg.at_alias(alias@).schema@, *payload),
            DecodeMode::NonSerializable => true,
            DecodeMode::Private => true,
            DecodeMode::PrefabData => false,
        }),
        _ => false,
    }
}

/// What decoding a component does to the node it is attached to: a
/// spelled-out record is decoded and attached; a non-serialized type
/// attaches its default; a private marker type attaches nothing.
pub open spec fn spec_component_effect(
    creg: ComponentDescriptorRegistry,
    dv: DocValue,
    node: NodeV,
) -> NodeV {
    match dv {
        DocValue::Tagged(alias, payload) => {
            let d = creg.at_alias(alias@);
            match d.mode {
                DecodeMode::Serialized => spec_insert_record(
                    node,
                    spec_record_of(d.type_tag, d.schema@, *payload),
                ),
                DecodeMode::NonSerializable => spec_insert_record(
                    node,
                    d.schema@.default_record(d.type_tag),
                ),
                DecodeMode::Private => node,
                DecodeMode::PrefabData => node,
            }
        },
        _ => node,
    }
}

/// Decodes one component and attaches it to the node.  On failure the node
/// is untouched.
pub fn decode_component(
    creg: &ComponentDescriptorRegistry,
    dv: &DocValue,
    node: &mut Node,
) -> (r: Result<(), DecodeError>)
    ensures
        match r {
            Ok(_) => component_valid(*creg, *dv) && final(node)@ == spec_component_effect(
                *creg,
                *dv,
                old(node)@,
            ),
            Err(e) => !component_valid(*creg, *dv) && final(node)@ == old(node)@ && !(e
                is DuplicateId),
        },
{
    match dv {
        DocValue::Tagged(alias, payload) => {
            let descriptor = match creg.find_by_name(alias) {
                Some(d) => d,
                None => {
                    return Err(DecodeError::UnknownComponent(alias.clone()));
                },
            };
            match descriptor.mode {
                DecodeMode::Serialized => {
                    match decode_record(descriptor.type_tag, &descriptor.schema, payload) {
                        Ok(rec) => {
                            node.insert_record(rec);
                            Ok(())
                        },
                        Err(e) => Err(e),
                    }
                },
                DecodeMode::NonSerializable => {
                    let rec = descriptor.schema.default_record(descriptor.type_tag);
                    node.insert_record(rec);
                    Ok(())
                },
                DecodeMode::Private => Ok(()),
                DecodeMode::PrefabData => Err(DecodeError::ForbiddenComponent(alias.clone())),
            }
        },
        _ => Err(DecodeError::WrongShape),
    }
}

/// Whether every item of the sequence is a decodable component.
pub open spec fn components_valid(creg: ComponentDescriptorRegistry, items: Seq<DocValue>) -> bool {
    forall|i: int| 0 <= i < items.len() ==> component_valid(creg, #[trigger] items[i])
}

/// What decoding a component sequence does to a node, in order.
pub open spec fn spec_components_effect(
    creg: ComponentDescriptorRegistry,
    items: Seq<DocValue>,
    node: NodeV,
) -> NodeV
    decreases items.len(),
{
    if items.len() == 0 {
        node
    } else {
        spec_component_effect(
            creg,
            items.last(),
            spec_components_effect(creg, items.drop_last(), node),
        )
    }
}

/// Decodes a component sequence onto a node, in document order.  On failure
/// the node is untouched.
#[verifier::loop_isolation(false)]
pub fn decode_components(
    creg: &ComponentDescriptorRegistry,
    items: &Vec<DocValue>,
    node: &mut Node,
) -> (r: Result<(), DecodeError>)
    ensures
        match r {
            Ok(_) => components_valid(*creg, items@) && final(node)@ == spec_components_effect(
                *creg,
                items@,
                old(node)@,
            ),
            Err(e) => !components_valid(*creg, items@) && final(node)@ == old(node)@ && !(e
                is DuplicateId),
        },
{
    let n = items.len();
    let mut tmp = node.duplicate();
    let mut i: usize = 0;
    while i < n
        invariant
            i <= n,
            tmp@ == spec_components_effect(*creg, items@.take(i as int), old(node)@),
            node == old(node),
            forall|j: int| 0 <= j < i as int ==> component_valid(*creg, #[trigger] items@[j]),
        decreases n - i,
    {
        proof {
            assert(items@.take(i as int + 1).drop_last() =~= items@.take(i as int));
            assert(items@.take(i as int + 1).last() == items@[i as int]);
        }
        match decode_component(creg, &items[i], &mut tmp) {
            Ok(_) => {},
            Err(e) => {
                return Err(e);
            },
        }
        i = i + 1;
    }
    proof {
        assert(items@.take(n as int) =~= items@);
    }
    *node = tmp;
    Ok(())
}

/// Whether an optional vector is spelled as an explicit option.
pub open spec fn opt_vec3_valid(dv: DocValue) -> bool {
    match dv {
        DocValue::Opt(None) => true,
        DocValue::Opt(Some(inner)) => spec_vec3(*inner) is Some,
        _ => false,
    }
}

/// The optional vector spelled.
pub open spec fn spec_opt_vec3_of(dv: DocValue) -> Option<Vec3> {
    match dv {
        DocValue::Opt(Some(inner)) => spec_vec3(*inner),
        _ => None,
    }
}

/// Whether an optional rotation is spelled as an explicit option.
pub open spec fn opt_quat_valid(dv: DocValue) -> bool {
    match dv {
        DocValue::Opt(None) => true,
        DocValue::Opt(Some(inner)) => spec_quat(*inner) is Some,
        _ => false,
    }
}

/// The optional rotation spelled.
pub open spec fn spec_opt_quat_of(dv: DocValue) -> Option<Quat> {
    match dv {
        DocValue::Opt(Some(inner)) => spec_quat(*inner),
        _ => None,
    }
}

/// Whether the entries spell a full transform: the three part names each at
/// most once, plain vector values; unrecognized keys are ignored and absent
/// parts keep the identity.
pub open spec fn transform_fields_valid(entries: Seq<DocEntry>) -> bool {
    &&& count_key(entries, "translation"@) <= 1
    &&& count_key(entries, "rotation"@) <= 1
    &&& count_key(entries, "scale"@) <= 1
    &&& count_key(entries, "translation"@) == 1 ==> spec_vec3(
        DocValue::dict_value(entries, "translation"@),
    ) is Some
    &&& count_key(entries, "rotation"@) == 1 ==> spec_quat(
        DocValue::dict_value(entries, "rotation"@),
    ) is Some
    &&& count_key(entries, "scale"@) == 1 ==> spec_vec3(
        DocValue::dict_value(entries, "scale"@),
    ) is Some
}

/// The transform the entries spell, absent parts at the identity.
pub open spec fn spec_transform_of(entries: Seq<DocEntry>) -> crate::values::Transform {
    crate::values::Transform {
        translation: if count_key(entries, "translation"@) == 1 {
            spec_vec3(DocValue::dict_value(entries, "translation"@))->0
        } else {
            Vec3::zero_spec()
        },
        rotation: if count_key(entries, "rotation"@) == 1 {
            spec_quat(DocValue::dict_value(entries, "rotation"@))->0
        } else {
            Quat::identity_spec()
        },
        scale: if count_key(entries, "scale"@) == 1 {
            spec_vec3(DocValue::dict_value(entries, "scale"@))->0
        } else {
            Vec3::one_spec()
        },
    }
}

/// Decodes a full transform table.
pub fn decode_transform(entries: &Vec<DocEntry>) -> (r: Result<
    crate::values::Transform,
    DecodeError,
>)
    ensures
        match r {
            Ok(t) => transform_fields_valid(entries@) && t == spec_transform_of(entries@),
            Err(e) => !transform_fields_valid(entries@) && !(e is DuplicateId),
        },
{
    let translation_key = "translation".to_owned();
    let rotation_key = "rotation".to_owned();
    let scale_key = "scale".to_owned();
    if dict_count(entries, &translation_key) > 1 {
        return Err(DecodeError::DuplicateField(translation_key));
    }
    if dict_count(entries, &rotation_key) > 1 {
        return Err(DecodeError::DuplicateField(rotation_key));
    }
    if dict_count(entries, &scale_key) > 1 {
        return Err(DecodeError::DuplicateField(scale_key));
    }
    let translation = match crate::document::dict_find(entries, &translation_key) {
        Some(v) => {
            proof {
                lemma_count_key_bounds(entries@, translation_key@);
            }
            match decode_vec3(v) {
                Some(t) => t,
                None => {
                    return Err(DecodeError::BadValue(translation_key));
                },
            }
        },
        None => {
            proof {
                lemma_count_key_bounds(entries@, translation_key@);
            }
            Vec3::zero()
        },
    };
    let rotation = match crate::document::dict_find(entries, &rotation_key) {
        Some(v) => {
            proof {
                lemma_count_key_bounds(entries@, rotation_key@);
            }
            match decode_quat(v) {
                Some(q) => q,
                None => {
                    return Err(DecodeError::BadValue(rotation_key));
                },
            }
        },
        None => {
            proof {
                lemma_count_key_bounds(entries@, rotation_key@);
            }
            Quat::identity()
        },
    };
    let scale = match crate::document::dict_find(entries, &scale_key) {
        Some(v) => {
            proof {
                lemma_count_key_bounds(entries@, scale_key@);
            }
            match decode_vec3(v) {
                Some(s) => s,
                None => {
                    return Err(DecodeError::BadValue(scale_key));
                },
            }
        },
        None => {
            proof {
                lemma_count_key_bounds(entries@, scale_key@);
            }
            Vec3::one()
        },
    };
    Ok(crate::values::Transform { translation, rotation, scale })
}

/// Whether the entries spell a partial transform: the three part names each
/// at most once, each an explicit option; unrecognized keys are ignored.
pub open spec fn transform_override_fields_valid(entries: Seq<DocEntry>) -> bool {
    &&& count_key(entries, "translation"@) <= 1
    &&& count_key(entries, "rotation"@) <= 1
    &&& count_key(entries, "scale"@) <= 1
    &&& count_key(entries, "translation"@) == 1 ==> opt_vec3_valid(
        DocValue::dict_value(entries, "translation"@),
    )
    &&& count_key(entries, "rotation"@) == 1 ==> opt_quat_valid(
        DocValue::dict_value(entries, "rotation"@),
    )
    &&& count_key(entries, "scale"@) == 1 ==> opt_vec3_valid(
        DocValue::dict_value(entries, "scale"@),
    )
}

/// The partial transform the entries spell.
pub open spec fn spec_transform_override_of(entries: Seq<DocEntry>) -> crate::PrefabTransformOverride {
    crate::PrefabTransformOverride {
        translation: if count_key(entries, "translation"@) == 1 {
            spec_opt_vec3_of(DocValue::dict_value(entries, "translation"@))
        } else {
            None
        },
        rotation: if count_key(entries, "rotation"@) == 1 {
            spec_opt_quat_of(DocValue::dict_value(entries, "rotation"@))
        } else {
            None
        },
        scale: if count_key(entries, "scale"@) == 1 {
            spec_opt_vec3_of(DocValue::dict_value(entries, "scale"@))
        } else {
            None
        },
    }
}

/// Decodes a partial transform table.
pub fn decode_transform_override(entries: &Vec<DocEntry>) -> (r: Result<
    crate::PrefabTransformOverride,
    DecodeError,
>)
    ensures
        match r {
            Ok(t) => transform_override_fields_valid(entries@) && t == spec_transform_override_of(
                entries@,
            ),
            Err(e) => !transform_override_fields_valid(entries@) && !(e is DuplicateId),
        },
{
    let translation_key = "translation".to_owned();
    let rotation_key = "rotation".to_owned();
    let scale_key = "scale".to_owned();
    if dict_count(entries, &translation_key) > 1 {
        return Err(DecodeError::DuplicateField(translation_key));
    }
    if dict_count(entries, &rotation_key) > 1 {
        return Err(DecodeError::DuplicateField(rotation_key));
    }
    if dict_count(entries, &scale_key) > 1 {
        return Err(DecodeError::DuplicateField(scale_key));
    }
    let translation = match crate::document::dict_find(entries, &translation_key) {
        Some(v) => {
            proof {
                lemma_count_key_bounds(entries@, translation_key@);
            }
            match v {
                DocValue::Opt(None) => None,
                DocValue::Opt(Some(inner)) => match decode_vec3(inner) {
                    Some(t) => Some(t),
                    None => {
                        return Err(DecodeError::BadValue(translation_key));
                    },
                },
                _ => {
                    return Err(DecodeError::BadValue(translation_key));
                },
            }
        },
        None => {
            proof {
                lemma_count_key_bounds(entries@, translation_key@);
            }
            None
        },
    };
    let rotation = match crate::document::dict_find(entries, &rotation_key) {
        Some(v) => {
            proof {
                lemma_count_key_bounds(entries@, rotation_key@);
            }
            match v {
                DocValue::Opt(None) => None,
                DocValue::Opt(Some(inner)) => match decode_quat(inner) {
                    Some(q) => Some(q),
                    None => {
                        return Err(DecodeError::BadValue(rotation_key));
                    },
                },
                _ => {
                    return Err(DecodeError::BadValue(rotation_key));
                },
            }
        },
        None => {
            proof {
                lemma_count_key_bounds(entries@, rotation_key@);
            }
            None
        },
    };
    let scale = match crate::document::dict_find(entries, &scale_key) {
        Some(v) => {
            proof {
                lemma_count_key_bounds(entries@, scale_key@);
            }
            match v {
                DocValue::Opt(None) => None,
                DocValue::Opt(Some(inner)) => match decode_vec3(inner) {
                    Some(s) => Some(s),
                    None => {
                        return Err(DecodeError::BadValue(scale_key));
                    },
                },
                _ => {
                    return Err(DecodeError::BadValue(scale_key));
                },
            }
        },
        None => {
            proof {
                lemma_count_key_bounds(entries@, scale_key@);
            }
            None
        },
    };
    Ok(crate::PrefabTransformOverride { translation, rotation, scale })
}

/// Whether a value spells a per-axis vector patch: a positional list of up
/// to three components, or a table of axis names, each at most once.
pub open spec fn axes_valid(dv: DocValue) -> bool {
    match dv {
        DocValue::List(items) => items@.len() <= 3 && (forall|i: int|
            0 <= i < items@.len() ==> (#[trigger] items@[i]) is Int),
        DocValue::Dict(entries) => {
            &&& forall|i: int|
                0 <= i < entries@.len() ==> ((#[trigger] entries@[i]).key@ == "x"@
                    || entries@[i].key@ == "y"@ || entries@[i].key@ == "z"@)
                    && entries@[i].value is Int
            &&& count_key(entries@, "x"@) <= 1
            &&& count_key(entries@, "y"@) <= 1
            &&& count_key(entries@, "z"@) <= 1
        },
        _ => false,
    }
}

/// The per-axis patch a value spells.
pub open spec fn spec_axes_of(dv: DocValue) -> crate::overrides::Vec3Override {
    match dv {
        DocValue::List(items) => crate::overrides::Vec3Override {
            x: if items@.len() > 0 {
                Some(items@[0]->Int_0)
            } else {
                None
            },
            y: if items@.len() > 1 {
                Some(items@[1]->Int_0)
            } else {
                None
            },
            z: if items@.len() > 2 {
                Some(items@[2]->Int_0)
            } else {
                None
            },
        },
        DocValue::Dict(entries) => crate::overrides::Vec3Override {
            x: if count_key(entries@, "x"@) == 1 {
                Some(DocValue::dict_value(entries@, "x"@)->Int_0)
            } else {
                None
            },
            y: if count_key(entries@, "y"@) == 1 {
                Some(DocValue::dict_value(entries@, "y"@)->Int_0)
            } else {
                None
            },
            z: if count_key(entries@, "z"@) == 1 {
                Some(DocValue::dict_value(entries@, "z"@)->Int_0)
            } else {
                None
            },
        },
        _ => crate::overrides::Vec3Override { x: None, y: None, z: None },
    }
}

/// Decodes a per-axis vector patch.
#[verifier::loop_isolation(false)]
pub fn decode_axes(dv: &DocValue) -> (r: Result<crate::overrides::Vec3Override, DecodeError>)
    ensures
        match r {
            Ok(a) => axes_valid(*dv) && a == spec_axes_of(*dv),
            Err(e) => !axes_valid(*dv) && !(e is DuplicateId),
        },
{
    match dv {
        DocValue::List(items) => {
            if items.len() > 3 {
                return Err(DecodeError::WrongShape);
            }
            let n = items.len();
            let mut i: usize = 0;
            while i < n
                invariant
                    i <= n,
                    forall|j: int| 0 <= j < i as int ==> (#[trigger] items@[j]) is Int,
                decreases n - i,
            {
                match &items[i] {
                    DocValue::Int(_) => {},
                    _ => {
                        return Err(DecodeError::WrongShape);
                    },
                }
                i = i + 1;
            }
            let x = if items.len() > 0 {
                match &items[0] {
                    DocValue::Int(v) => Some(*v),
                    _ => None,
                }
            } else {
                None
            };
            let y = if items.len() > 1 {
                match &items[1] {
                    DocValue::Int(v) => Some(*v),
                    _ => None,
                }
            } else {
                None
            };
            let z = if items.len() > 2 {
                match &items[2] {
                    DocValue::Int(v) => Some(*v),
                    _ => None,
                }
            } else {
                None
            };
            Ok(crate::overrides::Vec3Override { x, y, z })
        },
        DocValue::Dict(entries) => {
            let x_key = "x".to_owned();
            let y_key = "y".to_owned();
            let z_key = "z".to_owned();
            let n = entries.len();
            let mut i: usize = 0;
            while i < n
                invariant
                    i <= n,
                    forall|j: int|
                        0 <= j < i as int ==> ((#[trigger] entries@[j]).key@ == "x"@
                            || entries@[j].key@ == "y"@ || entries@[j].key@ == "z"@)
                            && entries@[j].value is Int,
                decreases n - i,
            {
                let e = &entries[i];
                let known = str_is(&e.key, "x") || str_is(&e.key, "y") || str_is(&e.key, "z");
                if !known {
                    return Err(DecodeError::UnknownField(e.key.clone()));
                }
                match &e.value {
                    DocValue::Int(_) => {},
                    _ => {
                        return Err(DecodeError::BadValue(e.key.clone()));
                    },
                }
                i = i + 1;
            }
            if dict_count(entries, &x_key) > 1 {
                return Err(DecodeError::DuplicateField(x_key));
            }
            if dict_count(entries, &y_key) > 1 {
                return Err(DecodeError::DuplicateField(y_key));
            }
            if dict_count(entries, &z_key) > 1 {
                return Err(DecodeError::DuplicateField(z_key));
            }
            let x = match crate::document::dict_find(entries, &x_key) {
                Some(DocValue::Int(v)) => {
                    proof {
                        lemma_count_key_bounds(entries@, x_key@);
                    }
                    Some(*v)
                },
                Some(_) => {
                    proof {
                        lemma_count_key_bounds(entries@, x_key@);
                        let w = DocValue::dict_key_index(entries@, x_key@);
                        crate::document::lemma_dict_key_index_holds(entries@, x_key@);
                        assert(entries@[w].value is Int);
                        assert(false);
                    }
                    None
                },
                None => {
                    proof {
                        lemma_count_key_bounds(entries@, x_key@);
                    }
                    None
                },
            };
            let y = match crate::document::dict_find(entries, &y_key) {
                Some(DocValue::Int(v)) => {
                    proof {
                        lemma_count_key_bounds(entries@, y_key@);
                    }
                    Some(*v)
                },
                Some(_) => {
                    proof {
                        lemma_count_key_bounds(entries@, y_key@);
                        let w = DocValue::dict_key_index(entries@, y_key@);
                        crate::document::lemma_dict_key_index_holds(entries@, y_key@);
                        assert(entries@[w].value is Int);
                        assert(false);
                    }
                    None
                },
                None => {
                    proof {
                        lemma_count_key_bounds(entries@, y_key@);
                    }
                    None
                },
            };
            let z = match crate::document::dict_find(entries, &z_key) {
                Some(DocValue::Int(v)) => {
                    proof {
                        lemma_count_key_bounds(entries@, z_key@);
                    }
                    Some(*v)
                },
                Some(_) => {
                    proof {
                        lemma_count_key_bounds(entries@, z_key@);
                        let w = DocValue::dict_key_index(entries@, z_key@);
                        crate::document::lemma_dict_key_index_holds(entries@, z_key@);
                        assert(entries@[w].value is Int);
                        assert(false);
                    }
                    None
                },
                None => {
                    proof {
                        lemma_count_key_bounds(entries@, z_key@);
                    }
                    None
                },
            };
            Ok(crate::overrides::Vec3Override { x, y, z })
        },
        _ => Err(DecodeError::WrongShape),
    }
}

/// Whether a value spells one field override under its descriptor.
pub open spec fn override_value_valid(
    fd: crate::overrides::FieldOverrideDescriptor,
    dv: DocValue,
) -> bool {
    match fd.form {
        crate::overrides::OverrideForm::Whole => spec_value(fd.kind, dv) is Some,
        crate::overrides::OverrideForm::Axes => axes_valid(dv),
    }
}

/// The field override a value spells.
pub open spec fn spec_override_value_of(
    fd: crate::overrides::FieldOverrideDescriptor,
    dv: DocValue,
) -> crate::overrides::OverrideValueV {
    match fd.form {
        crate::overrides::OverrideForm::Whole => crate::overrides::OverrideValueV::Whole(
            spec_value(fd.kind, dv)->0,
        ),
        crate::overrides::OverrideForm::Axes => crate::overrides::OverrideValueV::Axes(
            spec_axes_of(dv),
        ),
    }
}

/// Whether the entries spell an override patch under a derived struct
/// descriptor: every key must name an overridable field, no key twice, and
/// every value must fit its field's descriptor.
pub open spec fn override_entries_valid(
    sd: crate::overrides::StructOverrideDescriptorV,
    entries: Seq<DocEntry>,
) -> bool {
    &&& forall|i: int| 0 <= i < entries.len() ==> sd.has_field((#[trigger] entries[i]).key@)
    &&& forall|i: int, j: int|
        0 <= i < j < entries.len() ==> (#[trigger] entries[i]).key@ != (#[trigger] entries[j]).key@
    &&& forall|i: int|
        0 <= i < entries.len() ==> override_value_valid(
            sd.field_descriptor((#[trigger] entries[i]).key@),
            entries[i].value,
        )
}

/// The override patch the entries spell, in document order.
pub open spec fn spec_override_patch_of(
    sd: crate::overrides::StructOverrideDescriptorV,
    entries: Seq<DocEntry>,
) -> crate::overrides::StructOverrideV {
    crate::overrides::StructOverrideV {
        fields: Seq::new(
            entries.len(),
            |i: int|
                crate::overrides::FieldOverrideV {
                    name: entries[i].key@,
                    value: spec_override_value_of(sd.field_descriptor(entries[i].key@), entries[i].value),
                },
        ),
    }
}

/// Whether a value spells an override patch under a descriptor: a blank
/// descriptor accepts anything and overrides nothing.
pub open spec fn override_payload_valid(
    od: crate::overrides::OverrideDescriptor,
    dv: DocValue,
) -> bool {
    match od {
        crate::overrides::OverrideDescriptor::Blank => true,
        crate::overrides::OverrideDescriptor::Struct(sd) => match dv {
            DocValue::Dict(entries) => override_entries_valid(sd@, entries@),
            _ => false,
        },
    }
}

/// The override patch a value spells under a descriptor.
pub open spec fn spec_override_payload_of(
    od: crate::overrides::OverrideDescriptor,
    dv: DocValue,
) -> crate::overrides::StructOverrideV {
    match od {
        crate::overrides::OverrideDescriptor::Blank => crate::overrides::StructOverrideV {
            fields: Seq::empty(),
        },
        crate::overrides::OverrideDescriptor::Struct(sd) => match dv {
            DocValue::Dict(entries) => spec_override_patch_of(sd@, entries@),
            _ => crate::overrides::StructOverrideV { fields: Seq::empty() },
        },
    }
}

/// Decodes an override patch under a descriptor.
#[verifier::loop_isolation(false)]
pub fn decode_override(od: &crate::overrides::OverrideDescriptor, dv: &DocValue) -> (r: Result<
    crate::overrides::StructOverride,
    DecodeError,
>)
    ensures
        match r {
            Ok(p) => override_payload_valid(*od, *dv) && p@ == spec_override_payload_of(*od, *dv),
            Err(e) => !override_payload_valid(*od, *dv) && !(e is DuplicateId),
        },
{
    match od {
        crate::overrides::OverrideDescriptor::Blank => {
            let r = crate::overrides::StructOverride::blank();
            proof {
                assert(r@.fields =~= spec_override_payload_of(*od, *dv).fields);
            }
            Ok(r)
        },
        crate::overrides::OverrideDescriptor::Struct(sd) => {
            match dv {
                DocValue::Dict(entries) => {
                    let n = entries.len();
                    let mut fields: Vec<crate::overrides::FieldOverride> = Vec::new();
                    let mut i: usize = 0;
                    while i < n
                        invariant
                            i <= n,
                            fields@.len() == i as int,
                            forall|j: int| #![auto]
                                0 <= j < i as int ==> fields@[j]@ == spec_override_patch_of(
                                    sd@,
                                    entries@,
                                ).fields[j],
                            forall|j: int|
                                0 <= j < i as int ==> sd@.has_field(
                                    (#[trigger] entries@[j]).key@,
                                ) && override_value_valid(
                                    sd@.field_descriptor(entries@[j].key@),
                                    entries@[j].value,
                                ) && count_key(entries@, entries@[j].key@) == 1,
                        decreases n - i,
                    {
                        let e = &entries[i];
                        let fd = match sd.find_field(&e.key) {
                            Some(d) => d,
                            None => {
                                return Err(DecodeError::UnknownField(e.key.clone()));
                            },
                        };
                        let occurrences = dict_count(entries, &e.key);
                        if occurrences > 1 {
                            proof {
                                lemma_dup_key_pair(entries@, i as int);
                            }
                            return Err(DecodeError::DuplicateField(e.key.clone()));
                        }
                        proof {
                            lemma_count_key_pos(entries@, entries@[i as int].key@, i as int);
                        }
                        let value = match fd.form {
                            crate::overrides::OverrideForm::Whole => {
                                match decode_value(fd.kind, &e.value) {
                                    Some(v) => crate::overrides::OverrideValue::Whole(v),
                                    None => {
                                        return Err(DecodeError::BadValue(e.key.clone()));
                                    },
                                }
                            },
                            crate::overrides::OverrideForm::Axes => {
                                match decode_axes(&e.value) {
                                    Ok(a) => crate::overrides::OverrideValue::Axes(a),
                                    Err(err) => {
                                        return Err(err);
                                    },
                                }
                            },
                        };
                        fields.push(crate::overrides::FieldOverride { name: e.key.clone(), value });
                        i = i + 1;
                    }
                    let r = crate::overrides::StructOverride { fields };
                    proof {
                        assert(r@.fields =~= spec_override_patch_of(sd@, entries@).fields);
                        assert forall|a: int, b: int|
                            0 <= a < b < entries@.len() implies (#[trigger] entries@[a]).key@
                            != (#[trigger] entries@[b]).key@ by {
                            if entries@[a].key@ == entries@[b].key@ {
                                lemma_two_keys_count(entries@, a, b);
                            }
                        }
                    }
                    Ok(r)
                },
                _ => Err(DecodeError::WrongShape),
            }
        },
    }
}

/// If two entries share a key, the key's count is at least two.
proof fn lemma_two_keys_count(entries: Seq<DocEntry>, a: int, b: int)
    requires
        0 <= a < b < entries.len(),
        entries[a].key@ == entries[b].key@,
    ensures
        count_key(entries, entries[a].key@) >= 2,
    decreases entries.len(),
{
    if b == entries.len() - 1 {
        lemma_count_key_pos(entries.drop_last(), entries[a].key@, a);
    } else {
        lemma_two_keys_count(entries.drop_last(), a, b);
    }
}

/// An entry's key has a positive count.
proof fn lemma_count_key_pos(entries: Seq<DocEntry>, key: Seq<char>, i: int)
    requires
        0 <= i < entries.len(),
        entries[i].key@ == key,
    ensures
        count_key(entries, key) >= 1,
    decreases entries.len(),
{
    lemma_count_key_bounds(entries, key);
}

/// If the key of entry `i` counts at least two, some other entry shares it.
proof fn lemma_dup_key_pair(entries: Seq<DocEntry>, i: int)
    requires
        0 <= i < entries.len(),
        count_key(entries, entries[i].key@) > 1,
    ensures
        exists|a: int, b: int|
            0 <= a < b < entries.len() && (#[trigger] entries[a]).key@ == (#[trigger] entries[b]).key@,
    decreases entries.len(),
{
    lemma_count_occurrence_pair(entries, entries[i].key@);
}

/// A key counting at least two occurs at two distinct positions.
proof fn lemma_count_occurrence_pair(entries: Seq<DocEntry>, key: Seq<char>)
    requires
        count_key(entries, key) > 1,
    ensures
        exists|a: int, b: int|
            0 <= a < b < entries.len() && (#[trigger] entries[a]).key@ == (#[trigger] entries[b]).key@,
    decreases entries.len(),
{
    let rest = entries.drop_last();
    if entries.last().key@ == key {
        lemma_count_key_bounds(rest, key);
        let a = choose|a: int| 0 <= a < rest.len() && #[trigger] rest[a].key@ == key;
        assert(entries[a].key@ == entries[entries.len() - 1].key@);
    } else {
        lemma_count_occurrence_pair(rest, key);
        let (a, b) = choose|a: int, b: int|
            0 <= a < b < rest.len() && (#[trigger] rest[a]).key@ == (#[trigger] rest[b]).key@;
        assert(entries[a].key@ == entries[b].key@);
    }
}

/// Whether a value names a source asset: a plain path, or a path under an
/// explicit external tag.
pub open spec fn source_valid(dv: DocValue) -> bool {
    match dv {
        DocValue::Text(_) => true,
        DocValue::Tagged(tag, payload) => tag@ == "External"@ && *payload is Text,
        _ => false,
    }
}

/// The source path a value names.
pub open spec fn spec_source_of(dv: DocValue) -> Seq<char> {
    match dv {
        DocValue::Text(path) => path@,
        DocValue::Tagged(_, payload) => match *payload {
            DocValue::Text(path) => path@,
            _ => Seq::empty(),
        },
        _ => Seq::empty(),
    }
}

/// Decodes a source asset reference.
pub fn decode_source(dv: &DocValue) -> (r: Result<crate::graph::PrefabSource, DecodeError>)
    ensures
        match r {
            Ok(s) => source_valid(*dv) && s.path@ == spec_source_of(*dv),
            Err(e) => !source_valid(*dv) && !(e is DuplicateId),
        },
{
    match dv {
        DocValue::Text(path) => Ok(crate::graph::PrefabSource { path: path.clone() }),
        DocValue::Tagged(tag, payload) => {
            if !str_is(tag, "External") {
                return Err(DecodeError::BadValue(tag.clone()));
            }
            match &**payload {
                DocValue::Text(path) => Ok(crate::graph::PrefabSource { path: path.clone() }),
                _ => Err(DecodeError::WrongShape),
            }
        },
        _ => Err(DecodeError::WrongShape),
    }
}

/// Whether a value spells an optional parent author id.
pub open spec fn parent_valid(dv: DocValue) -> bool {
    match dv {
        DocValue::Opt(None) => true,
        DocValue::Opt(Some(inner)) => *inner matches DocValue::Int(i) && 0 <= i <= u32::MAX,
        _ => false,
    }
}

/// The parent author id a value spells.
pub open spec fn spec_parent_of(dv: DocValue) -> Option<u32> {
    match dv {
        DocValue::Opt(Some(inner)) => match *inner {
            DocValue::Int(i) => Some(i as u32),
            _ => None,
        },
        _ => None,
    }
}

/// Decodes an optional parent author id.
pub fn decode_parent(dv: &DocValue) -> (r: Result<Option<u32>, DecodeError>)
    ensures
        match r {
            Ok(p) => parent_valid(*dv) && p == spec_parent_of(*dv),
            Err(e) => !parent_valid(*dv) && !(e is DuplicateId),
        },
{
    match dv {
        DocValue::Opt(None) => Ok(None),
        DocValue::Opt(Some(inner)) => {
            match &**inner {
                DocValue::Int(i) => {
                    if 0 <= *i && *i <= u32::MAX as i64 {
                        Ok(Some(*i as u32))
                    } else {
                        Err(DecodeError::WrongShape)
                    }
                },
                _ => Err(DecodeError::WrongShape),
            }
        },
        _ => Err(DecodeError::WrongShape),
    }
}

/// Attaching components changes only the attached records: every marker
/// field keeps its value.
pub proof fn lemma_components_effect_markers(
    creg: ComponentDescriptorRegistry,
    items: Seq<DocValue>,
    node: NodeV,
)
    ensures
        ({
            let out = spec_components_effect(creg, items, node);
            &&& out.parent == node.parent
            &&& out.transform == node.transform
            &&& out.source == node.source
            &&& out.not_instantiated == node.not_instantiated
            &&& out.error == node.error
            &&& out.transform_override == node.transform_override
            &&& out.construct == node.construct
            &&& out.expected_type == node.expected_type
            &&& out.overrides == node.overrides
            &&& out.data == node.data
        }),
    decreases items.len(),
{
    if items.len() > 0 {
        lemma_components_effect_markers(creg, items.drop_last(), node);
    }
}

/// The recognized key names are pairwise distinct.
pub proof fn lemma_key_literals()
    ensures
        "id"@ != "source"@,
        "id"@ != "transform"@,
        "id"@ != "parent"@,
        "id"@ != "overrides"@,
        "id"@ != "components"@,
        "id"@ != "data"@,
        "id"@ != "scene"@,
        "source"@ != "transform"@,
        "source"@ != "parent"@,
        "source"@ != "overrides"@,
        "source"@ != "components"@,
        "transform"@ != "parent"@,
        "transform"@ != "overrides"@,
        "transform"@ != "components"@,
        "transform"@ != "data"@,
        "transform"@ != "scene"@,
        "parent"@ != "overrides"@,
        "parent"@ != "components"@,
        "overrides"@ != "components"@,
        "data"@ != "components"@,
        "data"@ != "scene"@,
        "components"@ != "scene"@,
{
    reveal_strlit("id");
    reveal_strlit("source");
    reveal_strlit("transform");
    reveal_strlit("parent");
    reveal_strlit("overrides");
    reveal_strlit("components");
    reveal_strlit("data");
    reveal_strlit("scene");
    assert("id"@.len() == 2);
    assert("source"@.len() == 6);
    assert("transform"@.len() == 9);
    assert("parent"@.len() == 6);
    assert("overrides"@.len() == 9);
    assert("components"@.len() == 10);
    assert("data"@.len() == 4);
    assert("scene"@.len() == 5);
    assert("source"@[0] == 's' && "parent"@[0] == 'p');
    assert("transform"@[0] == 't' && "overrides"@[0] == 'o');
}

/// Whether a table's `id` key, if present, spells a single author id.
pub open spec fn body_id_valid(entries: Seq<DocEntry>) -> bool {
    &&& count_key(entries, "id"@) <= 1
    &&& count_key(entries, "id"@) == 1 ==> (DocValue::dict_value(entries, "id"@) matches
        DocValue::Int(i) && 0 <= i <= u32::MAX)
}

/// The explicit author id a table declares, if any.
pub open spec fn spec_body_id(entries: Seq<DocEntry>) -> Option<u32> {
    if count_key(entries, "id"@) == 1 {
        match DocValue::dict_value(entries, "id"@) {
            DocValue::Int(i) => if 0 <= i <= u32::MAX {
                Some(i as u32)
            } else {
                None
            },
            _ => None,
        }
    } else {
        None
    }
}

/// Reads a table's explicit author id.
pub fn read_body_id(entries: &Vec<DocEntry>) -> (r: Result<Option<u32>, DecodeError>)
    ensures
        match r {
            Ok(id) => body_id_valid(entries@) && id == spec_body_id(entries@),
            Err(e) => !body_id_valid(entries@) && !(e is DuplicateId),
        },
{
    let id_key = "id".to_owned();
    if dict_count(entries, &id_key) > 1 {
        return Err(DecodeError::DuplicateField(id_key));
    }
    match crate::document::dict_find(entries, &id_key) {
        Some(v) => {
            proof {
                lemma_count_key_bounds(entries@, id_key@);
            }
            match v {
                DocValue::Int(i) => {
                    if 0 <= *i && *i <= u32::MAX as i64 {
                        Ok(Some(*i as u32))
                    } else {
                        Err(DecodeError::BadValue(id_key))
                    }
                },
                _ => Err(DecodeError::BadValue(id_key)),
            }
        },
        None => {
            proof {
                lemma_count_key_bounds(entries@, id_key@);
            }
            Ok(None)
        },
    }
}

/// The items under a table's `components` key, or nothing.
pub open spec fn spec_components_items(entries: Seq<DocEntry>) -> Seq<DocValue> {
    if count_key(entries, "components"@) == 1 {
        match DocValue::dict_value(entries, "components"@) {
            DocValue::List(items) => items@,
            _ => Seq::empty(),
        }
    } else {
        Seq::empty()
    }
}

/// Whether a table's `components` key, if present, is a decodable component
/// sequence.
pub open spec fn components_key_valid(
    creg: ComponentDescriptorRegistry,
    entries: Seq<DocEntry>,
) -> bool {
    &&& count_key(entries, "components"@) <= 1
    &&& count_key(entries, "components"@) == 1 ==> (DocValue::dict_value(entries, "components"@) is List
        && components_valid(creg, spec_components_items(entries)))
}

/// Whether a plain element body is well formed: only `id` and `components`,
/// each at most once, spelling an id and a component sequence.
pub open spec fn entity_body_valid(creg: ComponentDescriptorRegistry, entries: Seq<DocEntry>) -> bool {
    &&& forall|i: int|
        0 <= i < entries.len() ==> ((#[trigger] entries[i]).key@ == "id"@ || entries[i].key@
            == "components"@)
    &&& body_id_valid(entries)
    &&& components_key_valid(creg, entries)
}

/// The node a plain element spells: its components attached to a blank node.
pub open spec fn spec_entity_node(creg: ComponentDescriptorRegistry, entries: Seq<DocEntry>) -> NodeV {
    spec_components_effect(creg, spec_components_items(entries), NodeV::blank_spec())
}

/// Whether a template-instance body is well formed under its descriptor.
pub open spec fn prefab_body_valid(
    creg: ComponentDescriptorRegistry,
    d: crate::prefab::PrefabDescriptor,
    entries: Seq<DocEntry>,
) -> bool {
    &&& forall|i: int|
        0 <= i < entries.len() ==> ((#[trigger] entries[i]).key@ == "id"@ || entries[i].key@
            == "source"@ || entries[i].key@ == "transform"@ || entries[i].key@ == "parent"@
            || entries[i].key@ == "overrides"@ || entries[i].key@ == "components"@)
    &&& body_id_valid(entries)
    &&& components_key_valid(creg, entries)
    &&& count_key(entries, "source"@) <= 1
    &&& count_key(entries, "transform"@) <= 1
    &&& count_key(entries, "parent"@) <= 1
    &&& count_key(entries, "overrides"@) <= 1
    &&& count_key(entries, "source"@) == 1 ==> source_valid(DocValue::dict_value(entries, "source"@))
    &&& count_key(entries, "transform"@) == 1 ==> (DocValue::dict_value(entries, "transform"@) matches
        DocValue::Dict(t) && transform_override_fields_valid(t@))
    &&& count_key(entries, "parent"@) == 1 ==> parent_valid(DocValue::dict_value(entries, "parent"@))
    &&& count_key(entries, "overrides"@) == 1 ==> override_payload_valid(
        d.overrides,
        DocValue::dict_value(entries, "overrides"@),
    )
    &&& d.source_prefab_required ==> count_key(entries, "source"@) == 1
    &&& !d.source_prefab_required ==> count_key(entries, "source"@) == 0
}

/// The node a template instance spells: its components, the source it
/// names, its partial transform, the pending-instantiation marker, and — for
/// a procedural template — the stored construct, else the expected source
/// type for later validation.
pub open spec fn spec_prefab_node(
    creg: ComponentDescriptorRegistry,
    d: crate::prefab::PrefabDescriptor,
    entries: Seq<DocEntry>,
) -> NodeV {
    let base = spec_components_effect(creg, spec_components_items(entries), NodeV::blank_spec());
    NodeV {
        source: if d.source_prefab_required {
            Some(spec_source_of(DocValue::dict_value(entries, "source"@)))
        } else {
            None
        },
        not_instantiated: true,
        transform_override: Some(
            if count_key(entries, "transform"@) == 1 {
                spec_transform_override_of(
                    DocValue::dict_value(entries, "transform"@)->Dict_0@,
                )
            } else {
                crate::PrefabTransformOverride::empty_spec()
            },
        ),
        construct: if !d.source_prefab_required {
            Some(d.uuid)
        } else {
            None
        },
        expected_type: if d.source_prefab_required {
            Some(d.uuid)
        } else {
            None
        },
        overrides: if count_key(entries, "overrides"@) == 1 {
            Some(spec_override_payload_of(d.overrides, DocValue::dict_value(entries, "overrides"@)))
        } else {
            None
        },
        ..base
    }
}

/// The parent author id a template instance names, if any.
pub open spec fn spec_body_parent(entries: Seq<DocEntry>) -> Option<u32> {
    if count_key(entries, "parent"@) == 1 {
        spec_parent_of(DocValue::dict_value(entries, "parent"@))
    } else {
        None
    }
}

/// Whether a scene element is well formed: a registered template alias, or
/// the plain tag.  A registered alias shadows the plain tag.
pub open spec fn element_valid(
    creg: ComponentDescriptorRegistry,
    preg: crate::prefab::PrefabDescriptorRegistry,
    dv: DocValue,
) -> bool {
    match dv {
        DocValue::Tagged(tag, body) => if preg.base.has_alias(tag@) {
            *body matches DocValue::Dict(entries) && prefab_body_valid(
                creg,
                preg.base.at_alias(tag@),
                entries@,
            )
        } else {
            &&& tag@ == "Entity"@
            &&& *body matches DocValue::Dict(entries) && entity_body_valid(creg, entries@)
        },
        _ => false,
    }
}

/// The node a scene element spells.
pub open spec fn spec_element_node(
    creg: ComponentDescriptorRegistry,
    preg: crate::prefab::PrefabDescriptorRegistry,
    dv: DocValue,
) -> NodeV {
    match dv {
        DocValue::Tagged(tag, body) => if preg.base.has_alias(tag@) {
            match *body {
                DocValue::Dict(entries) => spec_prefab_node(creg, preg.base.at_alias(tag@), entries@),
                _ => NodeV::blank_spec(),
            }
        } else {
            match *body {
                DocValue::Dict(entries) => spec_entity_node(creg, entries@),
                _ => NodeV::blank_spec(),
            }
        },
        _ => NodeV::blank_spec(),
    }
}

/// The explicit author id a scene element declares, if any.
pub open spec fn spec_element_id(dv: DocValue) -> Option<u32> {
    match dv {
        DocValue::Tagged(_, body) => match *body {
            DocValue::Dict(entries) => spec_body_id(entries@),
            _ => None,
        },
        _ => None,
    }
}

/// The parent author id a scene element names, if any.
pub open spec fn spec_element_parent(dv: DocValue) -> Option<u32> {
    match dv {
        DocValue::Tagged(tag, body) => match *body {
            DocValue::Dict(entries) => spec_body_parent(entries@),
            _ => None,
        },
        _ => None,
    }
}

/// Reads a scene element's explicit author id, without deciding whether the
/// element as a whole is well formed.
pub fn extract_element_id(dv: &DocValue) -> (r: Option<u32>)
    ensures
        r == spec_element_id(*dv),
{
    match dv {
        DocValue::Tagged(_, body) => {
            match &**body {
                DocValue::Dict(entries) => {
                    match read_body_id(entries) {
                        Ok(id) => id,
                        Err(_) => {
                            let id_key = "id".to_owned();
                            if dict_count(entries, &id_key) == 1 {
                                proof {
                                    lemma_count_key_bounds(entries@, id_key@);
                                }
                                match crate::document::dict_find(entries, &id_key) {
                                    Some(DocValue::Int(i)) => {
                                        if 0 <= *i && *i <= u32::MAX as i64 {
                                            Some(*i as u32)
                                        } else {
                                            None
                                        }
                                    },
                                    _ => None,
                                }
                            } else {
                                None
                            }
                        },
                    }
                },
                _ => None,
            }
        },
        _ => None,
    }
}

/// Decodes one scene element into its node, its explicit author id and the
/// parent author id it names.
#[verifier::loop_isolation(false)]
pub fn decode_element(
    creg: &ComponentDescriptorRegistry,
    preg: &crate::prefab::PrefabDescriptorRegistry,
    dv: &DocValue,
) -> (r: Result<(Node, Option<u32>, Option<u32>), DecodeError>)
    ensures
        match r {
            Ok(out) => {
                &&& element_valid(*creg, *preg, *dv)
                &&& out.0@ == spec_element_node(*creg, *preg, *dv)
                &&& out.1 == spec_element_id(*dv)
                &&& out.2 == spec_element_parent(*dv)
            },
            Err(e) => !element_valid(*creg, *preg, *dv) && !(e is DuplicateId),
        },
{
    let (tag, body) = match dv {
        DocValue::Tagged(tag, body) => (tag, &**body),
        _ => {
            return Err(DecodeError::WrongShape);
        },
    };
    let entries = match body {
        DocValue::Dict(entries) => entries,
        _ => {
            if preg.find_by_name(tag).is_some() || str_is(tag, "Entity") {
                return Err(DecodeError::WrongShape);
            }
            return Err(DecodeError::UnknownInstanceTag(tag.clone()));
        },
    };
    match preg.find_by_name(tag) {
        Some(descriptor) => {
            let n = entries.len();
            let mut i: usize = 0;
            while i < n
                invariant
                    i <= n,
                    forall|j: int|
                        0 <= j < i as int ==> ((#[trigger] entries@[j]).key@ == "id"@
                            || entries@[j].key@ == "source"@ || entries@[j].key@ == "transform"@
                            || entries@[j].key@ == "parent"@ || entries@[j].key@ == "overrides"@
                            || entries@[j].key@ == "components"@),
                decreases n - i,
            {
                let e = &entries[i];
                let known = str_is(&e.key, "id") || str_is(&e.key, "source") || str_is(
                    &e.key,
                    "transform",
                ) || str_is(&e.key, "parent") || str_is(&e.key, "overrides") || str_is(
                    &e.key,
                    "components",
                );
                if !known {
                    return Err(DecodeError::UnknownField(e.key.clone()));
                }
                i = i + 1;
            }
            let id = match read_body_id(entries) {
                Ok(id) => id,
                Err(e) => {
                    return Err(e);
                },
            };
            let source_key = "source".to_owned();
            let transform_key = "transform".to_owned();
            let parent_key = "parent".to_owned();
            let overrides_key = "overrides".to_owned();
            if dict_count(entries, &source_key) > 1 {
                return Err(DecodeError::DuplicateField(source_key));
            }
            if dict_count(entries, &transform_key) > 1 {
                return Err(DecodeError::DuplicateField(transform_key));
            }
            if dict_count(entries, &parent_key) > 1 {
                return Err(DecodeError::DuplicateField(parent_key));
            }
            if dict_count(entries, &overrides_key) > 1 {
                return Err(DecodeError::DuplicateField(overrides_key));
            }
            let mut node = Node::blank();
            match decode_body_components(creg, entries, &mut node) {
                Ok(_) => {},
                Err(e) => {
                    return Err(e);
                },
            }
            let source = match crate::document::dict_find(entries, &source_key) {
                Some(v) => {
                    proof {
                        lemma_count_key_bounds(entries@, source_key@);
                    }
                    match decode_source(v) {
                        Ok(s) => Some(s),
                        Err(e) => {
                            return Err(e);
                        },
                    }
                },
                None => {
                    proof {
                        lemma_count_key_bounds(entries@, source_key@);
                    }
                    None
                },
            };
            if descriptor.source_prefab_required {
                if source.is_none() {
                    return Err(DecodeError::MissingField(source_key));
                }
            } else {
                if source.is_some() {
                    return Err(DecodeError::UnusedSource);
                }
            }
            let transform_override = match crate::document::dict_find(entries, &transform_key) {
                Some(v) => {
                    proof {
                        lemma_count_key_bounds(entries@, transform_key@);
                    }
                    match v {
                        DocValue::Dict(t) => {
                            match decode_transform_override(t) {
                                Ok(t) => t,
                                Err(e) => {
                                    return Err(e);
                                },
                            }
                        },
                        _ => {
                            return Err(DecodeError::BadValue(transform_key));
                        },
                    }
                },
                None => {
                    proof {
                        lemma_count_key_bounds(entries@, transform_key@);
                    }
                    crate::PrefabTransformOverride::empty()
                },
            };
            let parent = match crate::document::dict_find(entries, &parent_key) {
                Some(v) => {
                    proof {
                        lemma_count_key_bounds(entries@, parent_key@);
                    }
                    match decode_parent(v) {
                        Ok(p) => p,
                        Err(e) => {
                            return Err(e);
                        },
                    }
                },
                None => {
                    proof {
                        lemma_count_key_bounds(entries@, parent_key@);
                    }
                    None
                },
            };
            let overrides = match crate::document::dict_find(entries, &overrides_key) {
                Some(v) => {
                    proof {
                        lemma_count_key_bounds(entries@, overrides_key@);
                    }
                    match decode_override(&descriptor.overrides, v) {
                        Ok(p) => Some(p),
                        Err(e) => {
                            return Err(e);
                        },
                    }
                },
                None => {
                    proof {
                        lemma_count_key_bounds(entries@, overrides_key@);
                    }
                    None
                },
            };
            node.source = source;
            node.not_instantiated = Some(crate::PrefabNotInstantiatedTag);
            node.transform_override = Some(transform_override);
            if descriptor.source_prefab_required {
                node.expected_type = Some(crate::graph::PrefabTypeUuid(descriptor.uuid));
            } else {
                node.construct = Some(crate::graph::PrefabConstruct(descriptor.uuid));
            }
            node.overrides = overrides;
            proof {
                lemma_components_effect_markers(
                    *creg,
                    spec_components_items(entries@),
                    NodeV::blank_spec(),
                );
                assert(node@ =~= spec_prefab_node(*creg, preg.base.at_alias(tag@), entries@));
            }
            Ok((node, id, parent))
        },
        None => {
            if !str_is(tag, "Entity") {
                return Err(DecodeError::UnknownInstanceTag(tag.clone()));
            }
            let n = entries.len();
            let mut i: usize = 0;
            while i < n
                invariant
                    i <= n,
                    forall|j: int|
                        0 <= j < i as int ==> ((#[trigger] entries@[j]).key@ == "id"@
                            || entries@[j].key@ == "components"@),
                decreases n - i,
            {
                let e = &entries[i];
                let known = str_is(&e.key, "id") || str_is(&e.key, "components");
                if !known {
                    return Err(DecodeError::UnknownField(e.key.clone()));
                }
                i = i + 1;
            }
            let id = match read_body_id(entries) {
                Ok(id) => id,
                Err(e) => {
                    return Err(e);
                },
            };
            let mut node = Node::blank();
            match decode_body_components(creg, entries, &mut node) {
                Ok(_) => {},
                Err(e) => {
                    return Err(e);
                },
            }
            proof {
                assert(node@ =~= spec_entity_node(*creg, entries@));
                lemma_key_literals();
                lemma_count_key_bounds(entries@, "parent"@);
                if DocValue::dict_has_key(entries@, "parent"@) {
                    let w = choose|k: int|
                        0 <= k < entries@.len() && #[trigger] entries@[k].key@ == "parent"@;
                    assert(entries@[w].key@ == "id"@ || entries@[w].key@ == "components"@);
                    assert(false);
                }
                assert(spec_body_parent(entries@) is None);
            }
            Ok((node, id, None))
        },
    }
}

/// Decodes a table's `components` key, if present, onto the node.
pub fn decode_body_components(
    creg: &ComponentDescriptorRegistry,
    entries: &Vec<DocEntry>,
    node: &mut Node,
) -> (r: Result<(), DecodeError>)
    ensures
        match r {
            Ok(_) => components_key_valid(*creg, entries@) && final(node)@
                == spec_components_effect(*creg, spec_components_items(entries@), old(node)@),
            Err(e) => !components_key_valid(*creg, entries@) && final(node)@ == old(node)@
                && !(e is DuplicateId),
        },
{
    let components_key = "components".to_owned();
    if dict_count(entries, &components_key) > 1 {
        return Err(DecodeError::DuplicateField(components_key));
    }
    match crate::document::dict_find(entries, &components_key) {
        Some(v) => {
            proof {
                lemma_count_key_bounds(entries@, components_key@);
            }
            match v {
                DocValue::List(items) => decode_components(creg, items, node),
                _ => Err(DecodeError::BadValue(components_key)),
            }
        },
        None => {
            proof {
                lemma_count_key_bounds(entries@, components_key@);
            }
            Ok(())
        },
    }
}

/// Reads a scene element's parent author id, without deciding whether the
/// element as a whole is well formed.
pub fn extract_element_parent(dv: &DocValue) -> (r: Option<u32>)
    ensures
        r == spec_element_parent(*dv),
{
    match dv {
        DocValue::Tagged(_, body) => {
            match &**body {
                DocValue::Dict(entries) => {
                    let parent_key = "parent".to_owned();
                    if dict_count(entries, &parent_key) == 1 {
                        proof {
                            lemma_count_key_bounds(entries@, parent_key@);
                        }
                        match crate::document::dict_find(entries, &parent_key) {
                            Some(DocValue::Opt(Some(inner))) => {
                                match &**inner {
                                    DocValue::Int(i) => Some(#[verifier::truncate] (*i as u32)),
                                    _ => None,
                                }
                            },
                            _ => None,
                        }
                    } else {
                        None
                    }
                },
                _ => None,
            }
        },
        _ => None,
    }
}

/// Whether some scene element declares the author id.
pub open spec fn element_declares(items: Seq<DocValue>, a: u32) -> bool {
    exists|i: int| 0 <= i < items.len() && spec_element_id(#[trigger] items[i]) == Some(a)
}

/// Whether the document declares the author id, on an element or as the
/// root's own id.
pub open spec fn declared_in(items: Seq<DocValue>, root_id: Option<u32>, a: u32) -> bool {
    root_id == Some(a) || element_declares(items, a)
}

/// The index of the first element declaring the author id.
pub open spec fn element_id_index(items: Seq<DocValue>, a: u32) -> int
    decreases items.len(),
{
    if items.len() == 0 {
        0
    } else if spec_element_id(items[0]) == Some(a) {
        0
    } else {
        1 + element_id_index(items.drop_first(), a)
    }
}

/// If element `i` declares the id and no earlier one does, `i` is the index
/// the lookup denotes.
pub proof fn lemma_element_id_index_first(items: Seq<DocValue>, a: u32, i: int)
    requires
        0 <= i < items.len(),
        spec_element_id(items[i]) == Some(a),
        forall|j: int| 0 <= j < i ==> spec_element_id(#[trigger] items[j]) != Some(a),
    ensures
        element_id_index(items, a) == i,
    decreases i,
{
    if i > 0 {
        lemma_element_id_index_first(items.drop_first(), a, i - 1);
    }
}

/// The index the lookup denotes declares the id, whenever some element does.
pub proof fn lemma_element_id_index_holds(items: Seq<DocValue>, a: u32)
    requires
        element_declares(items, a),
    ensures
        0 <= element_id_index(items, a) < items.len(),
        spec_element_id(items[element_id_index(items, a)]) == Some(a),
    decreases items.len(),
{
    if items.len() > 0 && spec_element_id(items[0]) != Some(a) {
        let rest = items.drop_first();
        assert(element_declares(rest, a)) by {
            let w = choose|w: int|
                0 <= w < items.len() && spec_element_id(#[trigger] items[w]) == Some(a);
            assert(spec_element_id(rest[w - 1]) == Some(a));
        }
        lemma_element_id_index_holds(rest, a);
    }
}

/// The author-to-handle binding of a document: the root's own id names the
/// root node, and each element's id names the node spawned for it, in scene
/// order after the root.
pub open spec fn spec_binding(items: Seq<DocValue>, root_id: Option<u32>) -> Map<u32, u32> {
    Map::new(
        |a: u32| declared_in(items, root_id, a),
        |a: u32|
            if root_id == Some(a) {
                0u32
            } else {
                (element_id_index(items, a) + 1) as u32
            },
    )
}

/// No two elements declare the same author id, and none declares the root's
/// own id.
pub open spec fn no_dup_ids(items: Seq<DocValue>, root_id: Option<u32>) -> bool {
    &&& forall|i: int, j: int|
        0 <= i < j < items.len() ==> !(spec_element_id(#[trigger] items[i]) is Some
            && spec_element_id(items[i]) == spec_element_id(#[trigger] items[j]))
    &&& forall|i: int|
        0 <= i < items.len() ==> !(root_id is Some && spec_element_id(#[trigger] items[i])
            == root_id)
}

/// How many elements declare an explicit author id.
pub open spec fn count_explicit(items: Seq<DocValue>) -> int
    decreases items.len(),
{
    if items.len() == 0 {
        0
    } else {
        count_explicit(items.drop_last()) + if spec_element_id(items.last()) is Some {
            1int
        } else {
            0int
        }
    }
}

/// How many elements declare none.
pub open spec fn count_anon(items: Seq<DocValue>) -> int
    decreases items.len(),
{
    if items.len() == 0 {
        0
    } else {
        count_anon(items.drop_last()) + if spec_element_id(items.last()) is Some {
            0int
        } else {
            1int
        }
    }
}

/// Explicit and generated ids partition the elements.
pub proof fn lemma_counts_partition(items: Seq<DocValue>)
    ensures
        count_explicit(items) + count_anon(items) == items.len(),
        count_explicit(items) >= 0,
        count_anon(items) >= 0,
    decreases items.len(),
{
    if items.len() > 0 {
        lemma_counts_partition(items.drop_last());
    }
}

/// Taking a prefix cannot raise either count.
pub proof fn lemma_counts_take(items: Seq<DocValue>, i: int)
    requires
        0 <= i <= items.len(),
    ensures
        count_explicit(items.take(i)) <= count_explicit(items),
        count_anon(items.take(i)) <= count_anon(items),
    decreases items.len() - i,
{
    if i < items.len() {
        lemma_counts_take(items, i + 1);
        assert(items.take(i + 1).drop_last() =~= items.take(i));
        assert(items.take(i + 1).last() == items[i]);
        lemma_counts_partition(items.take(i));
    } else {
        assert(items.take(i) =~= items);
    }
}

/// The items under the document's `scene` key, or nothing.
pub open spec fn spec_scene_items(entries: Seq<DocEntry>) -> Seq<DocValue> {
    if count_key(entries, "scene"@) == 1 {
        match DocValue::dict_value(entries, "scene"@) {
            DocValue::List(items) => items@,
            _ => Seq::empty(),
        }
    } else {
        Seq::empty()
    }
}

/// The root node a document body spells, before reference rewriting: its
/// top-level components attached to a blank node.
pub open spec fn spec_root_node(creg: ComponentDescriptorRegistry, entries: Seq<DocEntry>) -> NodeV {
    spec_components_effect(creg, spec_components_items(entries), NodeV::blank_spec())
}

/// The template graph a document spells, before reference rewriting: the
/// root node first, then one node per scene element, in order.
pub open spec fn spec_pre_nodes(
    creg: ComponentDescriptorRegistry,
    preg: crate::prefab::PrefabDescriptorRegistry,
    entries: Seq<DocEntry>,
    items: Seq<DocValue>,
) -> Seq<NodeV> {
    Seq::new(
        items.len() + 1,
        |i: int|
            if i == 0 {
                spec_root_node(creg, entries)
            } else {
                spec_element_node(creg, preg, items[i - 1])
            },
    )
}

/// The top-level data record a document spells: decoded from its `data`
/// key, or the template type's registered default.
pub open spec fn spec_defaults(d: crate::prefab::PrefabDescriptor, entries: Seq<DocEntry>) -> RecordV {
    if count_key(entries, "data"@) == 1 {
        spec_record_of(d.type_tag, d.schema@, DocValue::dict_value(entries, "data"@))
    } else {
        d.schema@.default_record(d.type_tag)
    }
}

/// Whether a document body is well formed under its template descriptor:
/// recognized keys only, a valid id, components, transform, data and scene;
/// distinct author ids; every parent and every reference declared.
pub open spec fn doc_body_valid(
    creg: ComponentDescriptorRegistry,
    preg: crate::prefab::PrefabDescriptorRegistry,
    mapper: crate::mapped::ComponentEntityMapperRegistry,
    d: crate::prefab::PrefabDescriptor,
    entries: Seq<DocEntry>,
) -> bool {
    let items = spec_scene_items(entries);
    let root_id = spec_body_id(entries);
    let m = spec_binding(items, root_id);
    &&& forall|i: int|
        0 <= i < entries.len() ==> ((#[trigger] entries[i]).key@ == "id"@ || entries[i].key@
            == "transform"@ || entries[i].key@ == "data"@ || entries[i].key@ == "components"@
            || entries[i].key@ == "scene"@)
    &&& body_id_valid(entries)
    &&& components_key_valid(creg, entries)
    &&& count_key(entries, "transform"@) <= 1
    &&& count_key(entries, "data"@) <= 1
    &&& count_key(entries, "scene"@) <= 1
    &&& count_key(entries, "transform"@) == 1 ==> (DocValue::dict_value(entries, "transform"@) matches
        DocValue::Dict(t) && transform_fields_valid(t@))
    &&& count_key(entries, "data"@) == 1 ==> record_payload_valid(
        d.schema@,
        DocValue::dict_value(entries, "data"@),
    )
    &&& count_key(entries, "scene"@) == 1 ==> DocValue::dict_value(entries, "scene"@) is List
    &&& items.len() + 1 < u32::MAX
    &&& forall|i: int| 0 <= i < items.len() ==> element_valid(creg, preg, #[trigger] items[i])
    &&& no_dup_ids(items, root_id)
    &&& forall|i: int|
        0 <= i < items.len() ==> (spec_element_parent(#[trigger] items[i]) matches Some(p)
            ==> declared_in(items, root_id, p))
    &&& crate::mapped::graph_refs_in(mapper, spec_pre_nodes(creg, preg, entries, items), m.dom())
    &&& crate::mapped::record_refs_in(spec_defaults(d, entries), m.dom())
}

/// The template a well-formed document body spells: the pre-nodes with all
/// references rewritten into template space, parents bound, the data record
/// rewritten, and the transform.
pub open spec fn spec_decoded_body(
    creg: ComponentDescriptorRegistry,
    preg: crate::prefab::PrefabDescriptorRegistry,
    mapper: crate::mapped::ComponentEntityMapperRegistry,
    d: crate::prefab::PrefabDescriptor,
    entries: Seq<DocEntry>,
) -> crate::PrefabV {
    let items = spec_scene_items(entries);
    let root_id = spec_body_id(entries);
    let m = spec_binding(items, root_id);
    let pre = spec_pre_nodes(creg, preg, entries, items);
    let mapped = crate::mapped::spec_map_graph(mapper, m, pre);
    let world = Seq::new(
        mapped.len(),
        |i: int|
            if i >= 1 && spec_element_parent(items[i - 1]) is Some {
                NodeV { parent: Some(m[spec_element_parent(items[i - 1])->0]), ..mapped[i] }
            } else {
                mapped[i]
            },
    );
    crate::PrefabV {
        root_entity: 0,
        defaults: crate::mapped::spec_map_record(m, spec_defaults(d, entries)),
        transform: if count_key(entries, "transform"@) == 1 {
            spec_transform_of(DocValue::dict_value(entries, "transform"@)->Dict_0@)
        } else {
            crate::values::Transform::identity_spec()
        },
        world,
    }
}

/// Whether two positions of the document genuinely declare the same id: on
/// two scene elements, or on a scene element and the root itself.
pub open spec fn conflicting_id(items: Seq<DocValue>, root_id: Option<u32>, id: u32) -> bool {
    ||| (root_id == Some(id) && element_declares(items, id))
    ||| exists|x: int, y: int|
        0 <= x < y < items.len() && spec_element_id(#[trigger] items[x]) == Some(id)
            && spec_element_id(#[trigger] items[y]) == Some(id)
}

/// The outer shape checks that precede author-id collection: a registered
/// tag over a table of recognized keys, a well-shaped root id, singly
/// occurring `transform`, `data` and `scene` keys, the scene a list, and a
/// scene small enough for the id and handle space.
pub open spec fn doc_shape_ok(
    preg: crate::prefab::PrefabDescriptorRegistry,
    doc: DocValue,
) -> bool {
    match doc {
        DocValue::Tagged(alias, body) => preg.base.has_alias(alias@) && (match *body {
            DocValue::Dict(entries) => {
                &&& forall|j: int|
                    0 <= j < entries@.len() ==> ((#[trigger] entries@[j]).key@ == "id"@
                        || entries@[j].key@ == "transform"@ || entries@[j].key@ == "data"@
                        || entries@[j].key@ == "components"@ || entries@[j].key@ == "scene"@)
                &&& body_id_valid(entries@)
                &&& count_key(entries@, "transform"@) <= 1
                &&& count_key(entries@, "data"@) <= 1
                &&& count_key(entries@, "scene"@) <= 1
                &&& count_key(entries@, "scene"@) == 1 ==> DocValue::dict_value(
                    entries@,
                    "scene"@,
                ) is List
                &&& spec_scene_items(entries@).len() + 1 < u32::MAX
            },
            _ => false,
        }),
        _ => false,
    }
}

/// Whether a document is well formed: its outer tag names a registered
/// template type and its body is well formed under that type's descriptor.
pub open spec fn spec_doc_valid(
    creg: ComponentDescriptorRegistry,
    preg: crate::prefab::PrefabDescriptorRegistry,
    mapper: crate::mapped::ComponentEntityMapperRegistry,
    doc: DocValue,
) -> bool {
    match doc {
        DocValue::Tagged(alias, body) => preg.base.has_alias(alias@) && (*body matches
            DocValue::Dict(entries) && doc_body_valid(
            creg,
            preg,
            mapper,
            preg.base.at_alias(alias@),
            entries@,
        )),
        _ => false,
    }
}

/// The template a well-formed document spells.
pub open spec fn spec_decoded(
    creg: ComponentDescriptorRegistry,
    preg: crate::prefab::PrefabDescriptorRegistry,
    mapper: crate::mapped::ComponentEntityMapperRegistry,
    doc: DocValue,
) -> crate::PrefabV {
    let d = preg.base.at_alias(doc->Tagged_0@);
    spec_decoded_body(creg, preg, mapper, d, (*doc->Tagged_1)->Dict_0@)
}

/// The document decoder: the registries that drive one decode.
#[derive(Debug, Clone, PartialEq)]
pub struct PrefabDeserializer {
    pub component_entity_mapper: crate::mapped::ComponentEntityMapperRegistry,
    pub component_registry: ComponentDescriptorRegistry,
    pub prefab_registry: crate::prefab::PrefabDescriptorRegistry,
}

impl PrefabDeserializer {
    pub fn new(
        component_entity_mapper: crate::mapped::ComponentEntityMapperRegistry,
        component_registry: ComponentDescriptorRegistry,
        prefab_registry: crate::prefab::PrefabDescriptorRegistry,
    ) -> (r: PrefabDeserializer)
        ensures
            r.component_entity_mapper == component_entity_mapper,
            r.component_registry == component_registry,
            r.prefab_registry == prefab_registry,
    {
        PrefabDeserializer { component_entity_mapper, component_registry, prefab_registry }
    }

    /// Decodes a whole document into a template.  The decode succeeds on
    /// exactly the well-formed documents, and the template it hands back is
    /// the one the document spells.
    #[verifier::loop_isolation(false)]
    #[verifier::rlimit(100)]
    pub fn deserialize(&self, doc: &DocValue) -> (r: Result<crate::Prefab, DecodeError>)
        ensures
            r is Ok <==> spec_doc_valid(
                self.component_registry,
                self.prefab_registry,
                self.component_entity_mapper,
                *doc,
            ),
            r matches Ok(p) ==> p@ == spec_decoded(
                self.component_registry,
                self.prefab_registry,
                self.component_entity_mapper,
                *doc,
            ),
            r matches Err(e) && e is DuplicateId ==> (*doc matches DocValue::Tagged(alias, body)
                && *body matches DocValue::Dict(entries) && !no_dup_ids(
                spec_scene_items(entries@),
                spec_body_id(entries@),
            )),
            doc_shape_ok(self.prefab_registry, *doc) && !no_dup_ids(
                spec_scene_items((*doc->Tagged_1)->Dict_0@),
                spec_body_id((*doc->Tagged_1)->Dict_0@),
            ) ==> (r matches Err(e) && e matches DecodeError::DuplicateId(id) && conflicting_id(
                spec_scene_items((*doc->Tagged_1)->Dict_0@),
                spec_body_id((*doc->Tagged_1)->Dict_0@),
                id,
            )),
    {
        let creg = &self.component_registry;
        let preg = &self.prefab_registry;
        let mapper = &self.component_entity_mapper;
        let (alias, body) = match doc {
            DocValue::Tagged(alias, body) => (alias, &**body),
            _ => {
                return Err(DecodeError::WrongShape);
            },
        };
        let descriptor = match preg.find_by_name(alias) {
            Some(d) => d,
            None => {
                return Err(DecodeError::UnknownPrefab(alias.clone()));
            },
        };
        let entries = match body {
            DocValue::Dict(entries) => entries,
            _ => {
                return Err(DecodeError::WrongShape);
            },
        };
        match check_doc_keys(entries) {
            Ok(_) => {},
            Err(e) => {
                return Err(e);
            },
        }
        let root_id = match read_body_id(entries) {
            Ok(id) => id,
            Err(e) => {
                return Err(e);
            },
        };
        let transform_key = "transform".to_owned();
        let data_key = "data".to_owned();
        let scene_key = "scene".to_owned();
        if dict_count(entries, &transform_key) > 1 {
            return Err(DecodeError::DuplicateField(transform_key));
        }
        if dict_count(entries, &data_key) > 1 {
            return Err(DecodeError::DuplicateField(data_key));
        }
        if dict_count(entries, &scene_key) > 1 {
            return Err(DecodeError::DuplicateField(scene_key));
        }
        let empty_items: Vec<DocValue> = Vec::new();
        let items: &Vec<DocValue> = match crate::document::dict_find(entries, &scene_key) {
            Some(v) => {
                proof {
                    lemma_count_key_bounds(entries@, scene_key@);
                }
                match v {
                    DocValue::List(list) => list,
                    _ => {
                        return Err(DecodeError::BadValue(scene_key));
                    },
                }
            },
            None => {
                proof {
                    lemma_count_key_bounds(entries@, scene_key@);
                    assert(spec_scene_items(entries@) =~= empty_items@);
                }
                &empty_items
            },
        };
        let n = items.len();
        if n >= (u32::MAX - 1) as usize {
            proof {
                assert(spec_scene_items(entries@).len() + 1 >= u32::MAX);
            }
            return Err(DecodeError::WrongShape);
        }
        proof {
            assert(spec_scene_items(entries@) == items@);
        }
        let mut ids = match collect_declared_ids(items, root_id) {
            Ok(ids) => ids,
            Err(e) => {
                return Err(e);
            },
        };
        let (mut world, map) = match build_template_graph(
            creg,
            preg,
            entries,
            items,
            root_id,
            &mut ids,
        ) {
            Ok(out) => out,
            Err(e) => {
                return Err(e);
            },
        };
        // Rewrite every declared reference into template space.
        match mapper.map_world_components(&mut world, &map) {
            Ok(_) => {},
            Err(e) => {
                return Err(DecodeError::DanglingReference(e.id));
            },
        }
        // Resolve parents into template space.
        match resolve_parents(items, &map, &mut world) {
            Ok(_) => {},
            Err(e) => {
                proof {
                    assert(map@.dom() =~= spec_binding(items@, root_id).dom());
                }
                return Err(e);
            },
        }
        // The top-level data record, its references rewritten.
        let defaults_raw = match crate::document::dict_find(entries, &data_key) {
            Some(v) => {
                proof {
                    lemma_count_key_bounds(entries@, data_key@);
                }
                match decode_record(descriptor.type_tag, &descriptor.schema, v) {
                    Ok(rec) => rec,
                    Err(e) => {
                        return Err(e);
                    },
                }
            },
            None => {
                proof {
                    lemma_count_key_bounds(entries@, data_key@);
                }
                descriptor.schema.default_record(descriptor.type_tag)
            },
        };
        let defaults = match crate::mapped::map_record_refs(&map, &defaults_raw) {
            Ok(rec) => rec,
            Err(e) => {
                return Err(DecodeError::DanglingReference(e.id));
            },
        };
        // The base transform.
        let transform = match crate::document::dict_find(entries, &transform_key) {
            Some(v) => {
                proof {
                    lemma_count_key_bounds(entries@, transform_key@);
                }
                match v {
                    DocValue::Dict(t) => {
                        match decode_transform(t) {
                            Ok(t) => t,
                            Err(e) => {
                                return Err(e);
                            },
                        }
                    },
                    _ => {
                        return Err(DecodeError::BadValue(transform_key));
                    },
                }
            },
            None => {
                proof {
                    lemma_count_key_bounds(entries@, transform_key@);
                }
                crate::values::Transform::identity()
            },
        };
        let prefab = crate::Prefab { root_entity: 0, defaults, transform, world };
        proof {
            let d = preg.base.at_alias(alias@);
            assert(doc_body_valid(*creg, *preg, *mapper, d, entries@));
            assert(prefab@.world =~= spec_decoded_body(*creg, *preg, *mapper, d, entries@).world);
            assert(prefab@ =~= spec_decoded_body(*creg, *preg, *mapper, d, entries@));
        }
        Ok(prefab)
    }
}

/// Checks that a document body uses only the recognized keys.
fn check_doc_keys(entries: &Vec<DocEntry>) -> (r: Result<(), DecodeError>)
    ensures
        match r {
            Ok(_) => forall|j: int|
                0 <= j < entries@.len() ==> ((#[trigger] entries@[j]).key@ == "id"@
                    || entries@[j].key@ == "transform"@ || entries@[j].key@ == "data"@
                    || entries@[j].key@ == "components"@ || entries@[j].key@ == "scene"@),
            Err(e) => !(forall|j: int|
                0 <= j < entries@.len() ==> ((#[trigger] entries@[j]).key@ == "id"@
                    || entries@[j].key@ == "transform"@ || entries@[j].key@ == "data"@
                    || entries@[j].key@ == "components"@ || entries@[j].key@ == "scene"@)) && !(
            e is DuplicateId),
        },
{
    let n = entries.len();
    let mut k: usize = 0;
    while k < n
        invariant
            k <= n,
            n == entries@.len(),
            forall|j: int|
                0 <= j < k as int ==> ((#[trigger] entries@[j]).key@ == "id"@ || entries@[j].key@
                    == "transform"@ || entries@[j].key@ == "data"@ || entries@[j].key@
                    == "components"@ || entries@[j].key@ == "scene"@),
        decreases n - k,
    {
        let e = &entries[k];
        let known = str_is(&e.key, "id") || str_is(&e.key, "transform") || str_is(&e.key, "data")
            || str_is(&e.key, "components") || str_is(&e.key, "scene");
        if !known {
            proof {
                assert(!((entries@[k as int]).key@ == "id"@ || entries@[k as int].key@
                    == "transform"@ || entries@[k as int].key@ == "data"@ || entries@[k as int].key@
                    == "components"@ || entries@[k as int].key@ == "scene"@));
            }
            return Err(DecodeError::UnknownField(e.key.clone()));
        }
        k = k + 1;
    }
    Ok(())
}

/// Collects every declared author id and rejects the first conflict.
#[verifier::loop_isolation(false)]
#[verifier::rlimit(50)]
fn collect_declared_ids(items: &Vec<DocValue>, root_id: Option<u32>) -> (r: Result<
    crate::ids::IdValidation,
    DecodeError,
>)
    ensures
        match r {
            Ok(ids) => {
                &&& no_dup_ids(items@, root_id)
                &&& ids@.len() == (if root_id is Some {
                    1int
                } else {
                    0int
                }) + count_explicit(items@)
                &&& forall|a: u32| ids@.contains(a) <==> declared_in(items@, root_id, a)
            },
            Err(e) => {
                &&& !no_dup_ids(items@, root_id)
                &&& e matches DecodeError::DuplicateId(id) && conflicting_id(
                    items@,
                    root_id,
                    id,
                )
            },
        },
{
    let ghost base: int = if root_id is Some {
        1
    } else {
        0
    };
    let mut ids = crate::ids::IdValidation::empty();
    match root_id {
        Some(e) => {
            let fresh = ids.validate(e);
            proof {
                assert(fresh);
                assert(ids@[0] == e);
            }
        },
        None => {},
    }
    let n = items.len();
    proof {
        assert(items@.take(0) =~= Seq::<DocValue>::empty());
        assert forall|a: u32| ids@.contains(a) <==> declared_in(items@.take(0), root_id, a) by {
            if ids@.contains(a) {
                let w = choose|w: int| 0 <= w < ids@.len() && ids@[w] == a;
                assert(root_id == Some(a));
            }
            if root_id == Some(a) {
                assert(ids@[0] == a);
            }
        }
    }
    let mut i: usize = 0;
    while i < n
        invariant
            i <= n,
            n == items@.len(),
            ids@.len() == base + count_explicit(items@.take(i as int)),
            forall|a: u32| ids@.contains(a) <==> declared_in(items@.take(i as int), root_id, a),
            no_dup_ids(items@.take(i as int), root_id),
        decreases n - i,
    {
        proof {
            assert(items@.take(i as int + 1).drop_last() =~= items@.take(i as int));
            assert(items@.take(i as int + 1).last() == items@[i as int]);
        }
        let ghost pre_ids = ids@;
        match extract_element_id(&items[i]) {
            Some(e) => {
                if !ids.validate(e) {
                    proof {
                        assert(declared_in(items@.take(i as int), root_id, e));
                        assert(spec_element_id(items@[i as int]) == Some(e));
                        if root_id == Some(e) {
                            assert(!no_dup_ids(items@, root_id));
                            assert(element_declares(items@, e));
                        } else {
                            let w = choose|w: int|
                                0 <= w < items@.take(i as int).len() && spec_element_id(
                                    #[trigger] items@.take(i as int)[w],
                                ) == Some(e);
                            assert(spec_element_id(items@[w]) == Some(e));
                            assert(!no_dup_ids(items@, root_id));
                            assert(conflicting_id(items@, root_id, e));
                        }
                    }
                    return Err(DecodeError::DuplicateId(e));
                }
                proof {
                    assert forall|a: u32|
                        ids@.contains(a) <==> declared_in(
                            items@.take(i as int + 1),
                            root_id,
                            a,
                        ) by {
                        if ids@.contains(a) {
                            let w = choose|w: int| 0 <= w < ids@.len() && ids@[w] == a;
                            if w < pre_ids.len() {
                                assert(pre_ids[w] == a);
                                assert(pre_ids.contains(a));
                                assert(declared_in(items@.take(i as int), root_id, a));
                                if !(root_id == Some(a)) {
                                    let v = choose|v: int|
                                        0 <= v < items@.take(i as int).len() && spec_element_id(
                                            #[trigger] items@.take(i as int)[v],
                                        ) == Some(a);
                                    assert(spec_element_id(items@.take(i as int + 1)[v]) == Some(
                                        a,
                                    ));
                                }
                            } else {
                                assert(a == e);
                                assert(spec_element_id(items@.take(i as int + 1)[i as int])
                                    == Some(a));
                            }
                        }
                        if declared_in(items@.take(i as int + 1), root_id, a) {
                            if root_id == Some(a) {
                                assert(pre_ids.contains(a));
                                let w = choose|w: int| 0 <= w < pre_ids.len() && pre_ids[w] == a;
                                assert(ids@[w] == a);
                            } else {
                                let v = choose|v: int|
                                    0 <= v < items@.take(i as int + 1).len() && spec_element_id(
                                        #[trigger] items@.take(i as int + 1)[v],
                                    ) == Some(a);
                                if v < i as int {
                                    assert(spec_element_id(items@.take(i as int)[v]) == Some(a));
                                    assert(pre_ids.contains(a));
                                    let w = choose|w: int|
                                        0 <= w < pre_ids.len() && pre_ids[w] == a;
                                    assert(ids@[w] == a);
                                } else {
                                    assert(a == e);
                                    assert(ids@[pre_ids.len() as int] == a);
                                }
                            }
                        }
                    }
                    assert(no_dup_ids(items@.take(i as int + 1), root_id)) by {
                        assert forall|x: int, y: int|
                            0 <= x < y < items@.take(i as int + 1).len() implies !(spec_element_id(
                            #[trigger] items@.take(i as int + 1)[x],
                        ) is Some && spec_element_id(items@.take(i as int + 1)[x])
                            == spec_element_id(#[trigger] items@.take(i as int + 1)[y])) by {
                            if y == i as int {
                                if spec_element_id(items@[x]) == Some(e) {
                                    assert(spec_element_id(items@.take(i as int)[x]) == Some(e));
                                    assert(declared_in(items@.take(i as int), root_id, e));
                                    assert(pre_ids.contains(e));
                                    assert(false);
                                }
                            }
                        }
                        assert forall|x: int|
                            0 <= x < items@.take(i as int + 1).len() implies !(root_id is Some
                            && spec_element_id(#[trigger] items@.take(i as int + 1)[x])
                            == root_id) by {
                            if x == i as int && root_id is Some {
                                if spec_element_id(items@[x]) == root_id {
                                    assert(pre_ids.contains(root_id->0));
                                    assert(false);
                                }
                            }
                        }
                    }
                }
            },
            None => {
                proof {
                    assert forall|a: u32|
                        ids@.contains(a) <==> declared_in(
                            items@.take(i as int + 1),
                            root_id,
                            a,
                        ) by {
                        if declared_in(items@.take(i as int + 1), root_id, a) && !(root_id == Some(
                            a,
                        )) {
                            let v = choose|v: int|
                                0 <= v < items@.take(i as int + 1).len() && spec_element_id(
                                    #[trigger] items@.take(i as int + 1)[v],
                                ) == Some(a);
                            assert(v != i as int);
                            assert(spec_element_id(items@.take(i as int)[v]) == Some(a));
                        }
                        if declared_in(items@.take(i as int), root_id, a) && !(root_id == Some(
                            a,
                        )) {
                            let v = choose|v: int|
                                0 <= v < items@.take(i as int).len() && spec_element_id(
                                    #[trigger] items@.take(i as int)[v],
                                ) == Some(a);
                            assert(spec_element_id(items@.take(i as int + 1)[v]) == Some(a));
                        }
                    }
                    assert(no_dup_ids(items@.take(i as int + 1), root_id)) by {
                        assert forall|x: int, y: int|
                            0 <= x < y < items@.take(i as int + 1).len() implies !(spec_element_id(
                            #[trigger] items@.take(i as int + 1)[x],
                        ) is Some && spec_element_id(items@.take(i as int + 1)[x])
                            == spec_element_id(#[trigger] items@.take(i as int + 1)[y])) by {
                            if y == i as int {
                                assert(spec_element_id(items@[y as int]) is None);
                            }
                        }
                    }
                }
            },
        }
        i = i + 1;
    }
    proof {
        assert(items@.take(n as int) =~= items@);
    }
    Ok(ids)
}

/// Spawns the template graph: the root node with its top-level components,
/// then one node per scene element, binding every explicit author id to its
/// node; elements without one get a generated id that collides with no
/// declared id.
#[verifier::loop_isolation(false)]
#[verifier::rlimit(50)]
fn build_template_graph(
    creg: &ComponentDescriptorRegistry,
    preg: &crate::prefab::PrefabDescriptorRegistry,
    entries: &Vec<DocEntry>,
    items: &Vec<DocValue>,
    root_id: Option<u32>,
    ids: &mut crate::ids::IdValidation,
) -> (r: Result<(crate::graph::Graph, crate::mapped::EntityMap), DecodeError>)
    requires
        items@.len() + 1 < u32::MAX,
        no_dup_ids(items@, root_id),
        old(ids)@.len() == (if root_id is Some {
            1int
        } else {
            0int
        }) + count_explicit(items@),
        forall|a: u32| old(ids)@.contains(a) <==> declared_in(items@, root_id, a),
    ensures
        match r {
            Ok(out) => {
                &&& components_key_valid(*creg, entries@)
                &&& forall|j: int|
                    0 <= j < items@.len() ==> element_valid(*creg, *preg, #[trigger] items@[j])
                &&& out.0@ == spec_pre_nodes(*creg, *preg, entries@, items@)
                &&& out.1@ == spec_binding(items@, root_id)
            },
            Err(e) => !(components_key_valid(*creg, entries@) && forall|j: int|
                0 <= j < items@.len() ==> element_valid(*creg, *preg, #[trigger] items@[j])) && !(
            e is DuplicateId),
        },
{
    let ghost base: int = if root_id is Some {
        1
    } else {
        0
    };
    let mut world = crate::graph::Graph::empty();
    let mut root_node = crate::graph::Node::blank();
    match decode_body_components(creg, entries, &mut root_node) {
        Ok(_) => {},
        Err(e) => {
            return Err(e);
        },
    }
    let root_entity = world.spawn();
    let root_slot = world.get_mut(root_entity);
    *root_slot = root_node;
    proof {
        assert(world@ =~= spec_pre_nodes(*creg, *preg, entries@, items@).take(1));
    }
    let mut map = crate::mapped::EntityMap::empty();
    match root_id {
        Some(e) => {
            map.insert(e, root_entity);
        },
        None => {},
    }
    let n = items.len();
    let mut i: usize = 0;
    while i < n
        invariant
            i <= n,
            n == items@.len(),
            n + 1 < u32::MAX,
            world@.len() == i + 1,
            world@ =~= spec_pre_nodes(*creg, *preg, entries@, items@).take(i as int + 1),
            forall|j: int| 0 <= j < i as int ==> element_valid(*creg, *preg, #[trigger] items@[j]),
            ids@.len() == base + count_explicit(items@) + count_anon(items@.take(i as int)),
            forall|a: u32|
                map@.dom().contains(a) <==> (root_id == Some(a) || exists|v: int|
                    0 <= v < i as int && spec_element_id(#[trigger] items@[v]) == Some(a)),
            forall|a: u32| #[trigger]
                map@.dom().contains(a) ==> map@[a] == spec_binding(items@, root_id)[a],
        decreases n - i,
    {
        proof {
            assert(items@.take(i as int + 1).drop_last() =~= items@.take(i as int));
            assert(items@.take(i as int + 1).last() == items@[i as int]);
            lemma_counts_partition(items@);
            lemma_counts_take(items@, i as int);
        }
        let (node, elem_id, _parent) = match decode_element(creg, preg, &items[i]) {
            Ok(out) => out,
            Err(e) => {
                return Err(e);
            },
        };
        let nid = world.spawn();
        let slot = world.get_mut(nid);
        *slot = node;
        proof {
            assert(world@ =~= spec_pre_nodes(*creg, *preg, entries@, items@).take(i as int + 2));
        }
        match elem_id {
            Some(e) => {
                let ghost pre_map = map@;
                map.insert(e, nid);
                proof {
                    assert(!pre_map.dom().contains(e)) by {
                        if exists|v: int|
                            0 <= v < i as int && spec_element_id(#[trigger] items@[v]) == Some(e) {
                            let v = choose|v: int|
                                0 <= v < i as int && spec_element_id(#[trigger] items@[v]) == Some(
                                    e,
                                );
                            assert(false);
                        }
                    }
                    assert(map@ == pre_map.insert(e, nid));
                    assert(map@[e] == spec_binding(items@, root_id)[e]) by {
                        assert forall|j: int|
                            0 <= j < i as int implies spec_element_id(#[trigger] items@[j])
                            != Some(e) by {}
                        lemma_element_id_index_first(items@, e, i as int);
                    }
                }
            },
            None => {
                proof {
                    lemma_counts_partition(items@);
                    lemma_counts_take(items@, i as int);
                }
                let _ = ids.generate_unique();
            },
        }
        i = i + 1;
    }
    proof {
        assert(items@.take(n as int) =~= items@);
        assert(world@ =~= spec_pre_nodes(*creg, *preg, entries@, items@));
        assert(map@ =~= spec_binding(items@, root_id)) by {
            assert forall|a: u32|
                map@.dom().contains(a) <==> #[trigger] spec_binding(items@, root_id).dom().contains(
                    a,
                ) by {
                if declared_in(items@, root_id, a) && !(root_id == Some(a)) {
                    let v = choose|v: int|
                        0 <= v < items@.len() && spec_element_id(#[trigger] items@[v]) == Some(a);
                    assert(map@.dom().contains(a));
                }
            }
        }
    }
    Ok((world, map))
}

/// Resolves every element's parent author id into its template-space node,
/// under the instantiated root layout.
#[verifier::loop_isolation(false)]
#[verifier::rlimit(50)]
fn resolve_parents(
    items: &Vec<DocValue>,
    map: &crate::mapped::EntityMap,
    world: &mut crate::graph::Graph,
) -> (r: Result<(), DecodeError>)
    requires
        old(world)@.len() == items@.len() + 1,
        items@.len() + 1 < u32::MAX,
    ensures
        match r {
            Ok(_) => {
                &&& forall|j: int|
                    0 <= j < items@.len() ==> (spec_element_parent(#[trigger] items@[j]) matches Some(
                        p,
                    ) ==> map@.dom().contains(p))
                &&& final(world)@ == Seq::new(
                    old(world)@.len(),
                    |i: int|
                        if i >= 1 && spec_element_parent(items@[i - 1]) is Some {
                            NodeV {
                                parent: Some(map@[spec_element_parent(items@[i - 1])->0]),
                                ..old(world)@[i]
                            }
                        } else {
                            old(world)@[i]
                        },
                )
            },
            Err(e) => {
                &&& e matches DecodeError::UnknownParent(p) && exists|j: int|
                    0 <= j < items@.len() && spec_element_parent(#[trigger] items@[j]) == Some(p)
                        && !map@.dom().contains(p)
            },
        },
{
    let n = items.len();
    let mut i: usize = 0;
    while i < n
        invariant
            i <= n,
            n == items@.len(),
            world@.len() == n + 1,
            forall|j: int| i as int + 1 <= j < n + 1 ==> #[trigger] world@[j] == old(world)@[j],
            world@[0] == old(world)@[0],
            forall|j: int|
                1 <= j < i as int + 1 ==> #[trigger] world@[j] == (
                if spec_element_parent(items@[j - 1]) is Some {
                    NodeV {
                        parent: Some(map@[spec_element_parent(items@[j - 1])->0]),
                        ..old(world)@[j]
                    }
                } else {
                    old(world)@[j]
                }),
            forall|j: int|
                0 <= j < i as int ==> (spec_element_parent(#[trigger] items@[j]) matches Some(p)
                    ==> map@.dom().contains(p)),
        decreases n - i,
    {
        match extract_element_parent(&items[i]) {
            Some(p) => {
                match map.get(p) {
                    Some(t) => {
                        proof {
                            assert(world@[i as int + 1] == old(world)@[i as int + 1]);
                        }
                        let node = world.get_mut((i as u32) + 1);
                        node.parent = Some(t);
                        proof {
                            assert(world@[i as int + 1] =~= (NodeV {
                                parent: Some(map@[spec_element_parent(items@[i as int])->0]),
                                ..old(world)@[i as int + 1]
                            }));
                        }
                    },
                    None => {
                        return Err(DecodeError::UnknownParent(p));
                    },
                }
            },
            None => {},
        }
        i = i + 1;
    }
    proof {
        assert(final(world)@ =~= Seq::new(
            old(world)@.len(),
            |i: int|
                if i >= 1 && spec_element_parent(items@[i - 1]) is Some {
                    NodeV {
                        parent: Some(map@[spec_element_parent(items@[i - 1])->0]),
                        ..old(world)@[i]
                    }
                } else {
                    old(world)@[i]
                },
        ));
    }
    Ok(())
}

} // verus!
