//! Override patches: partial values that are applied onto an existing record
//! at instantiation time, field by field, matched by name.  Only the supplied
//! fields are overwritten; the rest keep the base value.

use vstd::prelude::*;

use crate::values::{Kind, Record, RecordV, Value, ValueV, Vec3, Schema};

verus! {

/// A partial vector: only the supplied axes are overwritten.
#[derive(Debug, Clone, Copy, PartialEq, Eq)]
pub struct Vec3Override {
    pub x: Option<i64>,
    pub y: Option<i64>,
    pub z: Option<i64>,
}

/// The override for one field: a whole replacement value, or a per-axis
/// partial vector.
#[derive(Debug, Clone, PartialEq)]
pub enum OverrideValue {
    Whole(Value),
    Axes(Vec3Override),
}

/// The mathematical model of an [`OverrideValue`].
#[verifier::ext_equal]
pub enum OverrideValueV {
    Whole(ValueV),
    Axes(Vec3Override),
}

impl View for OverrideValue {
    type V = OverrideValueV;

    open spec fn view(&self) -> OverrideValueV {
        match self {
            OverrideValue::Whole(v) => OverrideValueV::Whole(v@),
            OverrideValue::Axes(a) => OverrideValueV::Axes(*a),
        }
    }
}

/// A named field override.
#[derive(Debug, Clone, PartialEq)]
pub struct FieldOverride {
    pub name: String,
    pub value: OverrideValue,
}

/// The mathematical model of a [`FieldOverride`].
#[verifier::ext_equal]
pub struct FieldOverrideV {
    pub name: Seq<char>,
    pub value: OverrideValueV,
}

impl View for FieldOverride {
    type V = FieldOverrideV;

    open spec fn view(&self) -> FieldOverrideV {
        FieldOverrideV { name: self.name@, value: self.value@ }
    }
}

/// An override patch for a record: a set of named field overrides.
#[derive(Debug, Clone, PartialEq)]
pub struct StructOverride {
    pub fields: Vec<FieldOverride>,
}

/// The mathematical model of a [`StructOverride`].
#[verifier::ext_equal]
pub struct StructOverrideV {
    pub fields: Seq<FieldOverrideV>,
}

impl View for StructOverride {
    type V = StructOverrideV;

    open spec fn view(&self) -> StructOverrideV {
        StructOverrideV { fields: Seq::new(self.fields@.len(), |i: int| self.fields@[i]@) }
    }
}

impl StructOverrideV {
    /// Whether the patch carries an override for the given field name.
    pub open spec fn has_field(self, name: Seq<char>) -> bool {
        exists|i: int| 0 <= i < self.fields.len() && #[trigger] self.fields[i].name == name
    }

    /// The index of the first override with the given name.
    pub open spec fn field_index(self, name: Seq<char>) -> int
        decreases self.fields.len(),
    {
        if self.fields.len() == 0 {
            0
        } else if self.fields[0].name == name {
            0
        } else {
            1 + (StructOverrideV { fields: self.fields.drop_first() }).field_index(name)
        }
    }

    /// The override value for the given name.
    pub open spec fn field_value(self, name: Seq<char>) -> OverrideValueV {
        self.fields[self.field_index(name)].value
    }

    /// All node references inside the patch lie in the map's domain.
    pub open spec fn refs_in(self, dom: Set<u32>) -> bool {
        forall|i: int|
            0 <= i < self.fields.len() ==> match #[trigger] self.fields[i].value {
                OverrideValueV::Whole(ValueV::Ref(e)) => dom.contains(e),
                _ => true,
            }
    }
}

/// What one field override does to one base value: a whole value of the same
/// kind replaces the base; one of another kind is ignored (the mismatch is a
/// contract violation of the caller, not a decode error); a per-axis patch
/// overwrites only the supplied axes of a vector.
pub open spec fn apply_value(ov: OverrideValueV, base: ValueV) -> ValueV {
    match ov {
        OverrideValueV::Whole(v) => if v.kind() == base.kind() {
            v
        } else {
            base
        },
        OverrideValueV::Axes(a) => match base {
            ValueV::Vec3(b) => ValueV::Vec3(
                Vec3 {
                    x: match a.x {
                        Some(x) => x,
                        None => b.x,
                    },
                    y: match a.y {
                        Some(y) => y,
                        None => b.y,
                    },
                    z: match a.z {
                        Some(z) => z,
                        None => b.z,
                    },
                },
            ),
            _ => base,
        },
    }
}

/// What a patch does to a record: every field named by the patch takes its
/// override, every other field keeps the base value.
pub open spec fn apply_struct(ov: StructOverrideV, base: RecordV) -> RecordV {
    RecordV {
        type_tag: base.type_tag,
        fields: Seq::new(
            base.fields.len(),
            |i: int|
                crate::values::FieldV {
                    name: base.fields[i].name,
                    value: if ov.has_field(base.fields[i].name) {
                        apply_value(ov.field_value(base.fields[i].name), base.fields[i].value)
                    } else {
                        base.fields[i].value
                    },
                },
        ),
    }
}

/// If override `i` holds the name and no earlier one does, `i` is the index
/// the lookup denotes.
pub proof fn lemma_override_index_first(ov: StructOverrideV, name: Seq<char>, i: int)
    requires
        0 <= i < ov.fields.len(),
        ov.fields[i].name == name,
        forall|j: int| 0 <= j < i ==> #[trigger] ov.fields[j].name != name,
    ensures
        ov.field_index(name) == i,
    decreases i,
{
    if i > 0 {
        lemma_override_index_first(StructOverrideV { fields: ov.fields.drop_first() }, name, i - 1);
    }
}

/// The kind of a field value.
pub fn kind_of(v: &Value) -> (r: Kind)
    ensures
        r == v@.kind(),
{
    match v {
        Value::Bool(_) => Kind::Bool,
        Value::Int(_) => Kind::Int,
        Value::Text(_) => Kind::Text,
        Value::Ref(_) => Kind::Ref,
        Value::Vec3(_) => Kind::Vec3,
        Value::Quat(_) => Kind::Quat,
    }
}

/// Applies one field override onto one base value.
pub fn apply_value_exec(ov: &OverrideValue, base: &Value) -> (r: Value)
    ensures
        r@ == apply_value(ov@, base@),
{
    match ov {
        OverrideValue::Whole(v) => {
            if kind_of(v) == kind_of(base) {
                v.duplicate()
            } else {
                base.duplicate()
            }
        },
        OverrideValue::Axes(a) => {
            match base {
                Value::Vec3(b) => Value::Vec3(
                    Vec3 {
                        x: match a.x {
                            Some(x) => x,
                            None => b.x,
                        },
                        y: match a.y {
                            Some(y) => y,
                            None => b.y,
                        },
                        z: match a.z {
                            Some(z) => z,
                            None => b.z,
                        },
                    },
                ),
                _ => base.duplicate(),
            }
        },
    }
}

impl OverrideValue {
    /// Deep copy of one field override.
    pub fn duplicate(&self) -> (r: OverrideValue)
        ensures
            r@ == self@,
    {
        match self {
            OverrideValue::Whole(v) => OverrideValue::Whole(v.duplicate()),
            OverrideValue::Axes(a) => OverrideValue::Axes(*a),
        }
    }
}

impl StructOverride {
    /// Deep copy of the patch.
    pub fn duplicate(&self) -> (r: StructOverride)
        ensures
            r@ == self@,
    {
        let n = self.fields.len();
        let mut fields: Vec<FieldOverride> = Vec::new();
        let mut i: usize = 0;
        while i < n
            invariant
                n == self.fields@.len(),
                i <= n,
                fields@.len() == i as int,
                forall|j: int| 0 <= j < i as int ==> fields@[j]@ == #[trigger] self.fields@[j]@,
            decreases n - i,
        {
            let f = &self.fields[i];
            fields.push(FieldOverride { name: f.name.clone(), value: f.value.duplicate() });
            i = i + 1;
        }
        let r = StructOverride { fields };
        proof {
            assert(r@.fields =~= self@.fields);
        }
        r
    }
}

impl StructOverride {
    /// An empty patch: applying it changes nothing.
    pub fn blank() -> (r: StructOverride)
        ensures
            r@.fields.len() == 0,
    {
        StructOverride { fields: Vec::new() }
    }

    /// Finds the first override with the given name.
    pub fn find_override(&self, name: &String) -> (r: Option<&OverrideValue>)
        ensures
            match r {
                Some(v) => self@.has_field(name@) && v@ == self@.field_value(name@),
                None => !self@.has_field(name@),
            },
    {
        let n = self.fields.len();
        let mut i: usize = 0;
        while i < n
            invariant
                n == self.fields@.len(),
                i <= n,
                forall|j: int| 0 <= j < i as int ==> #[trigger] self.fields@[j].name@ != name@,
            decreases n - i,
        {
            if self.fields[i].name == *name {
                proof {
                    assert(self@.fields[i as int].name == name@);
                    lemma_override_index_first(self@, name@, i as int);
                }
                return Some(&self.fields[i].value);
            }
            i = i + 1;
        }
        None
    }

    /// Applies the patch onto a record: named fields take their override,
    /// the rest keep their base value.
    pub fn apply_override(&self, target: &mut Record)
        ensures
            final(target)@ == apply_struct(self@, old(target)@),
    {
        let n = target.fields.len();
        let mut fields: Vec<crate::values::Field> = Vec::new();
        let mut i: usize = 0;
        while i < n
            invariant
                n == target.fields@.len(),
                target == old(target),
                i <= n,
                fields@.len() == i as int,
                forall|j: int| #![auto]
                    0 <= j < i as int ==> fields@[j]@ == apply_struct(self@, target@).fields[j],
            decreases n - i,
        {
            let base = &target.fields[i];
            let value = match self.find_override(&base.name) {
                Some(ov) => apply_value_exec(ov, &base.value),
                None => base.value.duplicate(),
            };
            fields.push(crate::values::Field { name: base.name.clone(), value });
            i = i + 1;
        }
        target.fields = fields;
        proof {
            assert(final(target)@.fields =~= apply_struct(self@, old(target)@).fields);
        }
    }
}

/// How a registered kind is overridden: by whole-value replacement, or by a
/// per-axis partial vector.
#[derive(Debug, Clone, Copy, PartialEq, Eq, Structural)]
pub enum OverrideForm {
    Whole,
    Axes,
}

/// The derived override decoder for one field of a record type.
#[derive(Debug, Clone, PartialEq)]
pub struct FieldOverrideDescriptor {
    pub kind: Kind,
    pub form: OverrideForm,
}

/// One named field of a derived struct override decoder.
#[derive(Debug, Clone, PartialEq)]
pub struct NamedOverrideDescriptor {
    pub name: String,
    pub descriptor: FieldOverrideDescriptor,
}

/// The mathematical model of a [`NamedOverrideDescriptor`].
#[verifier::ext_equal]
pub struct NamedOverrideDescriptorV {
    pub name: Seq<char>,
    pub descriptor: FieldOverrideDescriptor,
}

impl View for NamedOverrideDescriptor {
    type V = NamedOverrideDescriptorV;

    open spec fn view(&self) -> NamedOverrideDescriptorV {
        NamedOverrideDescriptorV { name: self.name@, descriptor: self.descriptor }
    }
}

/// The derived override decoder for a record type: one descriptor for each
/// overridable field.
#[derive(Debug, Clone, PartialEq)]
pub struct StructOverrideDescriptor {
    pub fields: Vec<NamedOverrideDescriptor>,
}

/// The mathematical model of a [`StructOverrideDescriptor`].
#[verifier::ext_equal]
pub struct StructOverrideDescriptorV {
    pub fields: Seq<NamedOverrideDescriptorV>,
}

impl View for StructOverrideDescriptor {
    type V = StructOverrideDescriptorV;

    open spec fn view(&self) -> StructOverrideDescriptorV {
        StructOverrideDescriptorV {
            fields: Seq::new(self.fields@.len(), |i: int| self.fields@[i]@),
        }
    }
}

impl StructOverrideDescriptorV {
    pub open spec fn has_field(self, name: Seq<char>) -> bool {
        exists|i: int| 0 <= i < self.fields.len() && #[trigger] self.fields[i].name == name
    }

    pub open spec fn field_index(self, name: Seq<char>) -> int
        decreases self.fields.len(),
    {
        if self.fields.len() == 0 {
            0
        } else if self.fields[0].name == name {
            0
        } else {
            1 + (StructOverrideDescriptorV { fields: self.fields.drop_first() }).field_index(name)
        }
    }

    pub open spec fn field_descriptor(self, name: Seq<char>) -> FieldOverrideDescriptor {
        self.fields[self.field_index(name)].descriptor
    }
}

/// If field `i` holds the name and no earlier one does, `i` is the index the
/// lookup denotes.
pub proof fn lemma_descriptor_index_first(sd: StructOverrideDescriptorV, name: Seq<char>, i: int)
    requires
        0 <= i < sd.fields.len(),
        sd.fields[i].name == name,
        forall|j: int| 0 <= j < i ==> #[trigger] sd.fields[j].name != name,
    ensures
        sd.field_index(name) == i,
    decreases i,
{
    if i > 0 {
        lemma_descriptor_index_first(
            StructOverrideDescriptorV { fields: sd.fields.drop_first() },
            name,
            i - 1,
        );
    }
}

impl StructOverrideDescriptor {
    /// Finds the descriptor of the field with the given name.
    pub fn find_field(&self, name: &String) -> (r: Option<&FieldOverrideDescriptor>)
        ensures
            match r {
                Some(d) => self@.has_field(name@) && *d == self@.field_descriptor(name@),
                None => !self@.has_field(name@),
            },
    {
        let n = self.fields.len();
        let mut i: usize = 0;
        while i < n
            invariant
                n == self.fields@.len(),
                i <= n,
                forall|j: int| 0 <= j < i as int ==> #[trigger] self.fields@[j].name@ != name@,
            decreases n - i,
        {
            if self.fields[i].name == *name {
                proof {
                    assert(self@.fields[i as int].name == name@);
                    lemma_descriptor_index_first(self@, name@, i as int);
                }
                return Some(&self.fields[i].descriptor);
            }
            i = i + 1;
        }
        None
    }
}

/// A partial-value decoder for a whole record type: either derived from its
/// field layout, or blank (accepting and ignoring any fragment).
#[derive(Debug, Clone, PartialEq)]
pub enum OverrideDescriptor {
    Blank,
    Struct(StructOverrideDescriptor),
}

impl OverrideDescriptor {
    /// A decoder that accepts any fragment and overrides nothing.
    pub fn blank() -> (r: OverrideDescriptor)
        ensures
            r == OverrideDescriptor::Blank,
    {
        OverrideDescriptor::Blank
    }
}

/// One registered override kind.
#[derive(Debug, Clone, Copy, PartialEq, Eq, Structural)]
pub struct KindOverride {
    pub kind: Kind,
    pub form: OverrideForm,
}

/// The registry of partial-value decoders: which field kinds can be
/// overridden, and in which form.
#[derive(Debug, Clone, PartialEq)]
pub struct OverrideRegistry {
    pub entries: Vec<KindOverride>,
}

impl View for OverrideRegistry {
    type V = Seq<KindOverride>;

    open spec fn view(&self) -> Seq<KindOverride> {
        self.entries@
    }
}

/// The index of the first entry registered for the kind.
pub open spec fn find_kind_index(entries: Seq<KindOverride>, kind: Kind) -> int
    decreases entries.len(),
{
    if entries.len() == 0 {
        0
    } else if entries[0].kind == kind {
        0
    } else {
        1 + find_kind_index(entries.drop_first(), kind)
    }
}

/// If entry `i` is for the kind and no earlier one is, `i` is the index the
/// lookup denotes.
pub proof fn lemma_kind_index_first(entries: Seq<KindOverride>, kind: Kind, i: int)
    requires
        0 <= i < entries.len(),
        entries[i].kind == kind,
        forall|j: int| 0 <= j < i ==> #[trigger] entries[j].kind != kind,
    ensures
        find_kind_index(entries, kind) == i,
    decreases i,
{
    if i > 0 {
        lemma_kind_index_first(entries.drop_first(), kind, i - 1);
    }
}

impl OverrideRegistry {
    /// Whether the kind has a registered override form.
    pub open spec fn spec_registered(self, kind: Kind) -> bool {
        exists|i: int| 0 <= i < self@.len() && #[trigger] self@[i].kind == kind
    }

    /// The first registered form for the kind.
    pub open spec fn spec_form(self, kind: Kind) -> OverrideForm {
        self@[find_kind_index(self@, kind)].form
    }

    /// An empty registry.
    pub fn empty() -> (r: OverrideRegistry)
        ensures
            r@.len() == 0,
    {
        OverrideRegistry { entries: Vec::new() }
    }

    /// Finds the registered override form for a kind.
    pub fn find(&self, kind: Kind) -> (r: Option<OverrideForm>)
        ensures
            match r {
                Some(f) => self.spec_registered(kind) && f == self.spec_form(kind),
                None => !self.spec_registered(kind),
            },
    {
        let n = self.entries.len();
        let mut i: usize = 0;
        while i < n
            invariant
                n == self@.len(),
                i <= n,
                forall|j: int| 0 <= j < i as int ==> #[trigger] self@[j].kind != kind,
            decreases n - i,
        {
            if self.entries[i].kind == kind {
                proof {
                    lemma_kind_index_first(self@, kind, i as int);
                }
                return Some(self.entries[i].form);
            }
            i = i + 1;
        }
        None
    }

    /// Registers an override form for a kind; an already registered kind
    /// keeps its first form.
    pub fn register(&mut self, kind: Kind, form: OverrideForm)
        ensures
            old(self).spec_registered(kind) ==> final(self)@ == old(self)@,
            !old(self).spec_registered(kind) ==> final(self)@ == old(self)@.push(
                KindOverride { kind, form },
            ),
    {
        if self.find(kind).is_none() {
            self.entries.push(KindOverride { kind, form });
        }
    }
}

/// The override descriptors derived from a field layout: one per field whose
/// kind has a registered override form, in layout order.
pub open spec fn derive_fields(
    reg: OverrideRegistry,
    fields: Seq<crate::values::FieldSchemaV>,
) -> Seq<NamedOverrideDescriptorV>
    decreases fields.len(),
{
    if fields.len() == 0 {
        Seq::empty()
    } else {
        let rest = derive_fields(reg, fields.drop_last());
        let last = fields.last();
        if reg.spec_registered(last.kind) {
            rest.push(
                NamedOverrideDescriptorV {
                    name: last.name,
                    descriptor: FieldOverrideDescriptor {
                        kind: last.kind,
                        form: reg.spec_form(last.kind),
                    },
                },
            )
        } else {
            rest
        }
    }
}

/// The names of the fields the derivation leaves out, in layout order.
pub open spec fn skipped_fields(
    reg: OverrideRegistry,
    fields: Seq<crate::values::FieldSchemaV>,
) -> Seq<Seq<char>>
    decreases fields.len(),
{
    if fields.len() == 0 {
        Seq::empty()
    } else {
        let rest = skipped_fields(reg, fields.drop_last());
        if reg.spec_registered(fields.last().kind) {
            rest
        } else {
            rest.push(fields.last().name)
        }
    }
}

impl OverrideRegistry {
    /// Derives the override decoder of a record type from its field layout.
    /// A field whose kind has no registered override form is left out and its
    /// name reported: such a field is simply not overridable.
    pub fn register_struct(&self, schema: &Schema) -> (r: (StructOverrideDescriptor, Vec<String>))
        ensures
            r.0@.fields == derive_fields(*self, schema@.fields),
            r.1@.len() == skipped_fields(*self, schema@.fields).len(),
            forall|j: int|
                0 <= j < r.1@.len() ==> #[trigger] r.1@[j]@ == skipped_fields(
                    *self,
                    schema@.fields,
                )[j],
    {
        let n = schema.fields.len();
        let mut fields: Vec<NamedOverrideDescriptor> = Vec::new();
        let mut skipped: Vec<String> = Vec::new();
        let mut i: usize = 0;
        while i < n
            invariant
                n == schema.fields@.len(),
                i <= n,
                Seq::new(fields@.len(), |k: int| fields@[k]@) =~= derive_fields(
                    *self,
                    schema@.fields.take(i as int),
                ),
                skipped@.len() == skipped_fields(*self, schema@.fields.take(i as int)).len(),
                forall|j: int|
                    0 <= j < skipped@.len() ==> #[trigger] skipped@[j]@ == skipped_fields(
                        *self,
                        schema@.fields.take(i as int),
                    )[j],
            decreases n - i,
        {
            proof {
                assert(schema@.fields.take(i as int + 1).drop_last() =~= schema@.fields.take(
                    i as int,
                ));
                assert(schema@.fields.take(i as int + 1).last() == schema@.fields[i as int]);
            }
            let fs = &schema.fields[i];
            match self.find(fs.kind) {
                Some(form) => {
                    fields.push(
                        NamedOverrideDescriptor {
                            name: fs.name.clone(),
                            descriptor: FieldOverrideDescriptor { kind: fs.kind, form },
                        },
                    );
                },
                None => {
                    skipped.push(fs.name.clone());
                },
            }
            i = i + 1;
        }
        proof {
            assert(schema@.fields.take(n as int) =~= schema@.fields);
        }
        let descriptor = StructOverrideDescriptor { fields };
        (descriptor, skipped)
    }
}

impl Default for OverrideRegistry {
    /// The stock registry: primitives, references and rotations are replaced
    /// whole; vectors support per-axis partial replacement; text fields have
    /// no override.
    fn default() -> (r: OverrideRegistry)
        ensures
            r.spec_registered(Kind::Bool),
            r.spec_registered(Kind::Int),
            r.spec_registered(Kind::Ref),
            r.spec_registered(Kind::Vec3),
            r.spec_registered(Kind::Quat),
            !r.spec_registered(Kind::Text),
            r.spec_form(Kind::Vec3) == OverrideForm::Axes,
            r.spec_form(Kind::Bool) == OverrideForm::Whole,
            r.spec_form(Kind::Int) == OverrideForm::Whole,
            r.spec_form(Kind::Ref) == OverrideForm::Whole,
            r.spec_form(Kind::Quat) == OverrideForm::Whole,
    {
        let mut r = OverrideRegistry::empty();
        r.register(Kind::Bool, OverrideForm::Whole);
        proof {
            assert(r@[0].kind == Kind::Bool);
        }
        r.register(Kind::Int, OverrideForm::Whole);
        proof {
            assert(r@[1].kind == Kind::Int);
        }
        r.register(Kind::Ref, OverrideForm::Whole);
        proof {
            assert(r@[2].kind == Kind::Ref);
        }
        r.register(Kind::Vec3, OverrideForm::Axes);
        proof {
            assert(r@[3].kind == Kind::Vec3);
        }
        r.register(Kind::Quat, OverrideForm::Whole);
        proof {
            assert(r@[4].kind == Kind::Quat);
            assert(r@.len() == 5);
            lemma_kind_index_first(r@, Kind::Bool, 0);
            lemma_kind_index_first(r@, Kind::Int, 1);
            lemma_kind_index_first(r@, Kind::Ref, 2);
            lemma_kind_index_first(r@, Kind::Vec3, 3);
            lemma_kind_index_first(r@, Kind::Quat, 4);
            assert forall|i: int| 0 <= i < r@.len() implies r@[i].kind != Kind::Text by {
                if i == 0 {
                } else if i == 1 {
                } else if i == 2 {
                } else if i == 3 {
                } else {
                    assert(i == 4);
                }
            }
        }
        r
    }
}

} // verus!
