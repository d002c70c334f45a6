//! The template-type registry: binds an alias to the descriptor of one
//! template root type, carrying whether the template needs a source
//! document, the layout that drives decoding of its top-level data, the
//! derived override decoder, and the stable type identifier the manager
//! checks loaded assets against.

use vstd::prelude::*;

use crate::data::{BlankPrefab, BLANK_PREFAB_TAG, BLANK_PREFAB_UUID};
use crate::overrides::{derive_fields, skipped_fields, OverrideDescriptor, OverrideRegistry,
    StructOverrideDescriptor};
use crate::registry::{Registry, RegistryError};
use crate::values::{Schema, SchemaV};

verus! {

/// The descriptor of one template type.
#[derive(Debug, Clone, PartialEq)]
pub struct PrefabDescriptor {
    /// Whether instances must name a source document.  A purely procedural
    /// template is constructed from code and must not name one.
    pub source_prefab_required: bool,
    /// The type tag of the template's top-level data record.
    pub type_tag: u64,
    /// The field layout of the top-level data record.
    pub schema: Schema,
    /// The derived partial-value decoder for override patches.
    pub overrides: OverrideDescriptor,
    /// The stable identifier of the template type.
    pub uuid: u128,
}

/// Registry of all template types available, together with the override
/// registry that derivation draws from.
///
/// The alias `"Prefab"` is registered from the start and uses
/// [`BlankPrefab`] as its data type.
#[derive(Debug, Clone, PartialEq)]
pub struct PrefabDescriptorRegistry {
    pub overrides: OverrideRegistry,
    pub base: Registry<PrefabDescriptor>,
}

/// What a template-type registration guarantees: on success one entry was
/// appended, holding the alias, the tag, the identifier and a descriptor
/// whose override decoder was derived from the layout; on a collision the
/// registry is untouched and the error names the colliding key.
pub open spec fn prefab_register_post(
    pre: PrefabDescriptorRegistry,
    post: PrefabDescriptorRegistry,
    alias: Seq<char>,
    type_tag: u64,
    uuid: u128,
    schema: SchemaV,
    source_prefab_required: bool,
    r: Result<Vec<String>, RegistryError>,
) -> bool {
    post.overrides == pre.overrides && match r {
        Ok(skipped) => {
            &&& !pre.base.has_alias(alias)
            &&& !pre.base.has_tag(type_tag)
            &&& !pre.base.has_uuid(uuid)
            &&& post.base.entries().len() == pre.base.entries().len() + 1
            &&& post.base.entries().take(pre.base.entries().len() as int) == pre.base.entries()
            &&& {
                let e = post.base.entries().last();
                &&& e.alias@ == alias
                &&& e.type_tag == type_tag
                &&& e.uuid == uuid
                &&& e.item.source_prefab_required == source_prefab_required
                &&& e.item.type_tag == type_tag
                &&& e.item.schema@ == schema
                &&& e.item.uuid == uuid
                &&& e.item.overrides matches OverrideDescriptor::Struct(sd) && sd@.fields
                    == derive_fields(pre.overrides, schema.fields)
            }
            &&& skipped@.len() == skipped_fields(pre.overrides, schema.fields).len()
            &&& forall|j: int|
                0 <= j < skipped@.len() ==> #[trigger] skipped@[j]@ == skipped_fields(
                    pre.overrides,
                    schema.fields,
                )[j]
        },
        Err(RegistryError::AliasAlreadyRegistered(a)) => {
            &&& pre.base.has_alias(alias)
            &&& a@ == alias
            &&& post == pre
        },
        Err(RegistryError::TypeAlreadyRegistered(t)) => {
            &&& !pre.base.has_alias(alias)
            &&& pre.base.has_tag(type_tag)
            &&& t == type_tag
            &&& post == pre
        },
        Err(RegistryError::UuidAlreadyRegistered(u)) => {
            &&& !pre.base.has_alias(alias)
            &&& !pre.base.has_tag(type_tag)
            &&& pre.base.has_uuid(uuid)
            &&& u == uuid
            &&& post == pre
        },
    }
}

impl PrefabDescriptorRegistry {
    /// Finds the descriptor registered under an alias.
    pub fn find_by_name(&self, name: &String) -> (r: Option<&PrefabDescriptor>)
        ensures
            match r {
                Some(d) => self.base.has_alias(name@) && *d == self.base.at_alias(name@),
                None => !self.base.has_alias(name@),
            },
    {
        self.base.find_by_name(name)
    }

    /// Registers a template type: derives its override decoder from its
    /// layout and binds alias, tag and identifier to the descriptor.  The
    /// names of layout fields that turned out not overridable are handed
    /// back; such a field is reported, not refused.
    pub fn register_aliased(
        &mut self,
        alias: String,
        type_tag: u64,
        uuid: u128,
        schema: Schema,
        source_prefab_required: bool,
    ) -> (r: Result<Vec<String>, RegistryError>)
        ensures
            prefab_register_post(
                *old(self),
                *final(self),
                alias@,
                type_tag,
                uuid,
                schema@,
                source_prefab_required,
                r,
            ),
            old(self).base.wf() ==> final(self).base.wf(),
    {
        let (descriptor, skipped) = self.overrides.register_struct(&schema);
        let item = PrefabDescriptor {
            source_prefab_required,
            type_tag,
            schema,
            overrides: OverrideDescriptor::Struct(descriptor),
            uuid,
        };
        match self.base.register_internal(alias, type_tag, uuid, item) {
            Ok(_) => {
                proof {
                    assert(self.base.entries().take(old(self).base.entries().len() as int) =~= old(
                        self,
                    ).base.entries());
                }
                Ok(skipped)
            },
            Err(e) => Err(e),
        }
    }
}

impl Default for PrefabDescriptorRegistry {
    /// The stock registry: the alias `"Prefab"` is bound to [`BlankPrefab`],
    /// which requires a source document and carries no data fields.
    fn default() -> (r: PrefabDescriptorRegistry)
        ensures
            r.base.wf(),
            r.base.entries().len() == 1,
            ({
                let e = r.base.entries()[0];
                &&& e.alias@ == "Prefab"@
                &&& e.type_tag == BLANK_PREFAB_TAG
                &&& e.uuid == BLANK_PREFAB_UUID
                &&& e.item.source_prefab_required
                &&& e.item.schema@.fields.len() == 0
            }),
    {
        let mut registry = PrefabDescriptorRegistry {
            overrides: OverrideRegistry::default(),
            base: Registry::empty(),
        };
        let outcome = registry.register_aliased(
            "Prefab".to_owned(),
            BLANK_PREFAB_TAG,
            BLANK_PREFAB_UUID,
            BlankPrefab::schema(),
            true,
        );
        match outcome {
            Ok(_) => {},
            Err(_) => {
                proof {
                    assert(false);
                }
            },
        }
        registry
    }
}

} // verus!
