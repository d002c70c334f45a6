//! The reflected data model: every record attached to a graph node is held
//! as a bundle of named fields of a small set of kinds, so that decoding,
//! copying, reference rewriting and overriding can be written once, for every
//! registered record type.

use vstd::prelude::*;

verus! {

/// A three-component vector with integer components.
#[derive(Debug, Clone, Copy, PartialEq, Eq, Structural)]
pub struct Vec3 {
    pub x: i64,
    pub y: i64,
    pub z: i64,
}

impl Vec3 {
    pub open spec fn zero_spec() -> Vec3 {
        Vec3 { x: 0, y: 0, z: 0 }
    }

    pub open spec fn one_spec() -> Vec3 {
        Vec3 { x: 1, y: 1, z: 1 }
    }

    pub fn zero() -> (r: Vec3)
        ensures
            r == Vec3::zero_spec(),
    {
        Vec3 { x: 0, y: 0, z: 0 }
    }

    pub fn one() -> (r: Vec3)
        ensures
            r == Vec3::one_spec(),
    {
        Vec3 { x: 1, y: 1, z: 1 }
    }
}

/// A rotation, stored as four integer components.
#[derive(Debug, Clone, Copy, PartialEq, Eq, Structural)]
pub struct Quat {
    pub x: i64,
    pub y: i64,
    pub z: i64,
    pub w: i64,
}

impl Quat {
    pub open spec fn identity_spec() -> Quat {
        Quat { x: 0, y: 0, z: 0, w: 1 }
    }

    pub fn identity() -> (r: Quat)
        ensures
            r == Quat::identity_spec(),
    {
        Quat { x: 0, y: 0, z: 0, w: 1 }
    }
}

/// A node transform: translation, rotation and scale.
#[derive(Debug, Clone, Copy, PartialEq, Eq, Structural)]
pub struct Transform {
    pub translation: Vec3,
    pub rotation: Quat,
    pub scale: Vec3,
}

impl Transform {
    pub open spec fn identity_spec() -> Transform {
        Transform {
            translation: Vec3::zero_spec(),
            rotation: Quat::identity_spec(),
            scale: Vec3::one_spec(),
        }
    }

    pub fn identity() -> (r: Transform)
        ensures
            r == Transform::identity_spec(),
    {
        Transform { translation: Vec3::zero(), rotation: Quat::identity(), scale: Vec3::one() }
    }
}

impl Default for Transform {
    fn default() -> (r: Transform)
        ensures
            r == Transform::identity_spec(),
    {
        Transform::identity()
    }
}

/// The kinds a record field can have.
#[derive(Debug, Clone, Copy, PartialEq, Eq, Structural)]
pub enum Kind {
    Bool,
    Int,
    Text,
    /// A reference to another node, written as an author id in documents.
    Ref,
    Vec3,
    Quat,
}

/// One field value of a record.
#[derive(Debug, Clone, PartialEq)]
pub enum Value {
    Bool(bool),
    Int(i64),
    Text(String),
    Ref(u32),
    Vec3(Vec3),
    Quat(Quat),
}

/// The mathematical model of a [`Value`].
#[verifier::ext_equal]
pub enum ValueV {
    Bool(bool),
    Int(i64),
    Text(Seq<char>),
    Ref(u32),
    Vec3(Vec3),
    Quat(Quat),
}

impl View for Value {
    type V = ValueV;

    open spec fn view(&self) -> ValueV {
        match self {
            Value::Bool(b) => ValueV::Bool(*b),
            Value::Int(i) => ValueV::Int(*i),
            Value::Text(s) => ValueV::Text(s@),
            Value::Ref(e) => ValueV::Ref(*e),
            Value::Vec3(v) => ValueV::Vec3(*v),
            Value::Quat(q) => ValueV::Quat(*q),
        }
    }
}

impl ValueV {
    /// The kind a value belongs to.
    pub open spec fn kind(self) -> Kind {
        match self {
            ValueV::Bool(_) => Kind::Bool,
            ValueV::Int(_) => Kind::Int,
            ValueV::Text(_) => Kind::Text,
            ValueV::Ref(_) => Kind::Ref,
            ValueV::Vec3(_) => Kind::Vec3,
            ValueV::Quat(_) => Kind::Quat,
        }
    }
}

impl Value {
    /// Deep copy of a field value.
    pub fn duplicate(&self) -> (r: Value)
        ensures
            r@ == self@,
    {
        match self {
            Value::Bool(b) => Value::Bool(*b),
            Value::Int(i) => Value::Int(*i),
            Value::Text(s) => Value::Text(s.clone()),
            Value::Ref(e) => Value::Ref(*e),
            Value::Vec3(v) => Value::Vec3(*v),
            Value::Quat(q) => Value::Quat(*q),
        }
    }
}

/// A named field of a record.
#[derive(Debug, Clone, PartialEq)]
pub struct Field {
    pub name: String,
    pub value: Value,
}

/// The mathematical model of a [`Field`].
#[verifier::ext_equal]
pub struct FieldV {
    pub name: Seq<char>,
    pub value: ValueV,
}

impl View for Field {
    type V = FieldV;

    open spec fn view(&self) -> FieldV {
        FieldV { name: self.name@, value: self.value@ }
    }
}

impl Field {
    pub fn duplicate(&self) -> (r: Field)
        ensures
            r@ == self@,
    {
        Field { name: self.name.clone(), value: self.value.duplicate() }
    }
}

/// A record: typed data attached to a node, identified by the tag of its
/// registered type and holding its reflected fields.
#[derive(Debug, Clone, PartialEq)]
pub struct Record {
    pub type_tag: u64,
    pub fields: Vec<Field>,
}

/// The mathematical model of a [`Record`].
#[verifier::ext_equal]
pub struct RecordV {
    pub type_tag: u64,
    pub fields: Seq<FieldV>,
}

impl View for Record {
    type V = RecordV;

    open spec fn view(&self) -> RecordV {
        RecordV { type_tag: self.type_tag, fields: Seq::new(self.fields@.len(), |i: int| self.fields@[i]@) }
    }
}

impl RecordV {
    /// Whether some field carries the given name.
    pub open spec fn has_field(self, name: Seq<char>) -> bool {
        exists|i: int| 0 <= i < self.fields.len() && #[trigger] self.fields[i].name == name
    }

    /// The value of the first field with the given name.
    pub open spec fn field_value(self, name: Seq<char>) -> ValueV {
        self.fields[self.field_index(name)].value
    }

    /// The index of the first field with the given name.
    pub open spec fn field_index(self, name: Seq<char>) -> int
        decreases self.fields.len(),
    {
        if self.fields.len() == 0 {
            0
        } else if self.fields[0].name == name {
            0
        } else {
            1 + RecordV { type_tag: self.type_tag, fields: self.fields.drop_first() }.field_index(name)
        }
    }
}

impl Record {
    pub fn duplicate(&self) -> (r: Record)
        ensures
            r@ == self@,
    {
        let mut fields: Vec<Field> = Vec::new();
        let mut i: usize = 0;
        while i < self.fields.len()
            invariant
                i <= self.fields.len(),
                fields@.len() == i as int,
                forall|j: int| 0 <= j < i as int ==> fields@[j]@ == #[trigger] self.fields@[j]@,
            decreases self.fields.len() - i,
        {
            fields.push(self.fields[i].duplicate());
            i = i + 1;
        }
        let r = Record { type_tag: self.type_tag, fields };
        proof {
            assert(r@.fields =~= self@.fields);
        }
        r
    }
}

/// The declared layout of one field of a registered record type.
#[derive(Debug, Clone, PartialEq)]
pub struct FieldSchema {
    pub name: String,
    pub kind: Kind,
}

/// The mathematical model of a [`FieldSchema`].
#[verifier::ext_equal]
pub struct FieldSchemaV {
    pub name: Seq<char>,
    pub kind: Kind,
}

impl View for FieldSchema {
    type V = FieldSchemaV;

    open spec fn view(&self) -> FieldSchemaV {
        FieldSchemaV { name: self.name@, kind: self.kind }
    }
}

/// The declared field layout of a registered record type, used to decode
/// document fragments, derive override decoders, and build default values.
#[derive(Debug, Clone, PartialEq)]
pub struct Schema {
    pub fields: Vec<FieldSchema>,
}

/// The mathematical model of a [`Schema`].
#[verifier::ext_equal]
pub struct SchemaV {
    pub fields: Seq<FieldSchemaV>,
}

impl View for Schema {
    type V = SchemaV;

    open spec fn view(&self) -> SchemaV {
        SchemaV { fields: Seq::new(self.fields@.len(), |i: int| self.fields@[i]@) }
    }
}

impl SchemaV {
    /// Field names are pairwise distinct.
    pub open spec fn wf(self) -> bool {
        forall|i: int, j: int|
            0 <= i < j < self.fields.len() ==> #[trigger] self.fields[i].name != #[trigger] self.fields[j].name
    }

    /// The default value of a kind.
    pub open spec fn default_of(kind: Kind) -> ValueV {
        match kind {
            Kind::Bool => ValueV::Bool(false),
            Kind::Int => ValueV::Int(0),
            Kind::Text => ValueV::Text(Seq::empty()),
            Kind::Ref => ValueV::Ref(0),
            Kind::Vec3 => ValueV::Vec3(Vec3::zero_spec()),
            Kind::Quat => ValueV::Quat(Quat::identity_spec()),
        }
    }

    /// The default record of a schema: every field carries its kind's default.
    pub open spec fn default_record(self, type_tag: u64) -> RecordV {
        RecordV {
            type_tag,
            fields: Seq::new(
                self.fields.len(),
                |i: int| FieldV { name: self.fields[i].name, value: SchemaV::default_of(self.fields[i].kind) },
            ),
        }
    }
}

/// Builds the default value of a kind.
pub fn default_of_kind(kind: Kind) -> (r: Value)
    ensures
        r@ == SchemaV::default_of(kind),
{
    match kind {
        Kind::Bool => Value::Bool(false),
        Kind::Int => Value::Int(0),
        Kind::Text => {
            let s = String::new();
            Value::Text(s)
        },
        Kind::Ref => Value::Ref(0),
        Kind::Vec3 => Value::Vec3(Vec3::zero()),
        Kind::Quat => Value::Quat(Quat::identity()),
    }
}

impl Schema {
    /// Builds the record that carries every field's default value.
    pub fn default_record(&self, type_tag: u64) -> (r: Record)
        ensures
            r@ == self@.default_record(type_tag),
    {
        let mut fields: Vec<Field> = Vec::new();
        let mut i: usize = 0;
        while i < self.fields.len()
            invariant
                i <= self.fields.len(),
                fields@.len() == i as int,
                forall|j: int| 0 <= j < i as int ==> #[trigger] fields@[j]@ == (FieldV {
                    name: self.fields@[j]@.name,
                    value: SchemaV::default_of(self.fields@[j]@.kind),
                }),
            decreases self.fields.len() - i,
        {
            let fs = &self.fields[i];
            fields.push(Field { name: fs.name.clone(), value: default_of_kind(fs.kind) });
            i = i + 1;
        }
        let r = Record { type_tag, fields };
        proof {
            assert(r@.fields =~= self@.default_record(type_tag).fields);
        }
        r
    }
}

} // verus!
