//! The record-type registry: binds an alias to the descriptor of one
//! attachable record type, which carries the type's declared field layout
//! and the way document fragments of it are decoded.

use vstd::prelude::*;

use crate::ids::fresh_u128;
use crate::registry::{RegEntry, Registry, RegistryError};
use crate::values::Schema;

verus! {

/// How document fragments of a record type are decoded.
#[derive(Debug, Clone, Copy, PartialEq, Eq, Structural)]
pub enum DecodeMode {
    /// The fragment is decoded against the schema and attached.
    Serialized,
    /// The fragment is ignored; the type's default record is attached.
    NonSerializable,
    /// The fragment is ignored and nothing is attached; for the engine's own
    /// marker types.
    Private,
    /// Decoding always fails: the type is a template's top-level data and
    /// must not be attached as a plain record.
    PrefabData,
}

/// The descriptor of one record type.
#[derive(Debug, Clone, PartialEq)]
pub struct ComponentDescriptor {
    pub type_tag: u64,
    pub schema: Schema,
    pub mode: DecodeMode,
}

/// Registry of all record types that may appear in documents and graphs.
pub type ComponentDescriptorRegistry = Registry<ComponentDescriptor>;

impl ComponentDescriptorRegistry {
    /// Registers a record type that documents spell out field by field.
    pub fn register(&mut self, alias: String, type_tag: u64, schema: Schema) -> (r: Result<
        (),
        RegistryError,
    >)
        ensures
            component_register_post(*old(self), *final(self), alias@, type_tag, schema@, DecodeMode::Serialized, r),
            old(self).wf() ==> final(self).wf(),
    {
        self.register_inner(alias, type_tag, schema, DecodeMode::Serialized)
    }

    /// Registers a record type that is not spelled out in documents but must
    /// still be attached, with its default value.
    pub fn register_non_serializable(&mut self, alias: String, type_tag: u64, schema: Schema) -> (r:
        Result<(), RegistryError>)
        ensures
            component_register_post(*old(self), *final(self), alias@, type_tag, schema@, DecodeMode::NonSerializable, r),
            old(self).wf() ==> final(self).wf(),
    {
        self.register_inner(alias, type_tag, schema, DecodeMode::NonSerializable)
    }

    /// Registers one of the engine's own marker types: fragments are ignored
    /// and nothing is attached.
    pub fn register_private(&mut self, alias: String, type_tag: u64, schema: Schema) -> (r: Result<
        (),
        RegistryError,
    >)
        ensures
            component_register_post(*old(self), *final(self), alias@, type_tag, schema@, DecodeMode::Private, r),
            old(self).wf() ==> final(self).wf(),
    {
        self.register_inner(alias, type_tag, schema, DecodeMode::Private)
    }

    /// Registers a template's top-level data type, which can be copied
    /// between graphs but must never be decoded as a plain record.
    pub fn register_prefab_data(&mut self, alias: String, type_tag: u64, schema: Schema) -> (r:
        Result<(), RegistryError>)
        ensures
            component_register_post(*old(self), *final(self), alias@, type_tag, schema@, DecodeMode::PrefabData, r),
            old(self).wf() ==> final(self).wf(),
    {
        self.register_inner(alias, type_tag, schema, DecodeMode::PrefabData)
    }

    /// Registers a record type under the alias derived from its type path,
    /// shortened to its human-readable name.
    pub fn registry(&mut self, type_path: &str, type_tag: u64, schema: Schema) -> (r: Result<
        (),
        RegistryError,
    >)
        ensures
            component_register_post(
                *old(self),
                *final(self),
                crate::registry::spec_shorten(type_path@),
                type_tag,
                schema@,
                DecodeMode::Serialized,
                r,
            ),
            old(self).wf() ==> final(self).wf(),
    {
        let alias = crate::registry::shorten_name(type_path);
        self.register(alias, type_tag, schema)
    }

    /// Shared registration: picks a fresh stable identifier, then registers
    /// atomically.
    fn register_inner(&mut self, alias: String, type_tag: u64, schema: Schema, mode: DecodeMode) -> (r:
        Result<(), RegistryError>)
        ensures
            component_register_post(*old(self), *final(self), alias@, type_tag, schema@, mode, r),
            old(self).wf() ==> final(self).wf(),
    {
        let used = self.uuids();
        let uuid = fresh_u128(&used);
        let descriptor = ComponentDescriptor { type_tag, schema, mode };
        match self.register_internal(alias, type_tag, uuid, descriptor) {
            Ok(_) => {
                proof {
                    assert(self.entries().take(old(self).entries().len() as int) =~= old(
                        self,
                    ).entries());
                }
                Ok(())
            },
            Err(e) => Err(e),
        }
    }
}

/// What a record-type registration guarantees: on success one entry was
/// appended, holding the alias, the tag and a descriptor with the given
/// layout and decode mode, under a fresh identifier; on a collision the
/// registry is untouched and the error names the colliding key.
pub open spec fn component_register_post(
    pre: ComponentDescriptorRegistry,
    post: ComponentDescriptorRegistry,
    alias: Seq<char>,
    type_tag: u64,
    schema: crate::values::SchemaV,
    mode: DecodeMode,
    r: Result<(), RegistryError>,
) -> bool {
    match r {
        Ok(_) => {
            &&& !pre.has_alias(alias)
            &&& !pre.has_tag(type_tag)
            &&& post.entries().len() == pre.entries().len() + 1
            &&& post.entries().take(pre.entries().len() as int) == pre.entries()
            &&& {
                let e = post.entries().last();
                &&& e.alias@ == alias
                &&& e.type_tag == type_tag
                &&& !pre.has_uuid(e.uuid)
                &&& e.item.type_tag == type_tag
                &&& e.item.schema@ == schema
                &&& e.item.mode == mode
            }
        },
        Err(RegistryError::AliasAlreadyRegistered(a)) => {
            &&& pre.has_alias(alias)
            &&& a@ == alias
            &&& post == pre
        },
        Err(RegistryError::TypeAlreadyRegistered(t)) => {
            &&& !pre.has_alias(alias)
            &&& pre.has_tag(type_tag)
            &&& t == type_tag
            &&& post == pre
        },
        Err(RegistryError::UuidAlreadyRegistered(_)) => false,
    }
}

} // verus!
