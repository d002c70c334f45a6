//! A template instantiation engine.
//!
//! A textual document describes a hierarchy of typed records ("components")
//! and nested sub-templates ("prefabs").  The decoder turns such a document
//! into a [`Prefab`]: a private template graph, a default top-level record,
//! and a transform.  The manager later copies a decoded prefab into a live
//! target graph, rewrites node references, applies override patches, and
//! retries nodes whose source template is not yet available.

use vstd::prelude::*;

pub mod component;
pub mod data;
pub mod de;
pub mod document;
pub mod graph;
pub mod ids;
pub mod laws;
pub mod manager;
pub mod mapped;
pub mod overrides;
pub mod prefab;
pub mod registry;
pub mod values;

use crate::values::{Quat, Record, RecordV, Transform, Vec3};

verus! {

/// A decoded template: a private template graph, the designated root node in
/// it, a default top-level record, and a base transform.
#[derive(Debug, Clone, PartialEq)]
pub struct Prefab {
    pub root_entity: u32,
    pub defaults: Record,
    pub transform: Transform,
    pub world: crate::graph::Graph,
}

/// The mathematical model of a [`Prefab`].
#[verifier::ext_equal]
pub struct PrefabV {
    pub root_entity: u32,
    pub defaults: RecordV,
    pub transform: Transform,
    pub world: Seq<crate::graph::NodeV>,
}

impl View for Prefab {
    type V = PrefabV;

    open spec fn view(&self) -> PrefabV {
        PrefabV {
            root_entity: self.root_entity,
            defaults: self.defaults@,
            transform: self.transform,
            world: self.world@,
        }
    }
}

/// A partial transform: each part may be overridden on its own; parts left
/// out keep the template's base transform.
#[derive(Debug, Clone, Copy, PartialEq, Eq)]
pub struct PrefabTransformOverride {
    pub translation: Option<Vec3>,
    pub rotation: Option<Quat>,
    pub scale: Option<Vec3>,
}

impl PrefabTransformOverride {
    /// No part overridden.
    pub open spec fn empty_spec() -> PrefabTransformOverride {
        PrefabTransformOverride { translation: None, rotation: None, scale: None }
    }

    /// The transform that results from overlaying the override onto a base
    /// transform: supplied parts replace the base, absent parts keep it.
    pub open spec fn overlay_spec(self, base: Transform) -> Transform {
        Transform {
            translation: match self.translation {
                Some(t) => t,
                None => base.translation,
            },
            rotation: match self.rotation {
                Some(r) => r,
                None => base.rotation,
            },
            scale: match self.scale {
                Some(s) => s,
                None => base.scale,
            },
        }
    }

    pub fn empty() -> (r: PrefabTransformOverride)
        ensures
            r == PrefabTransformOverride::empty_spec(),
    {
        PrefabTransformOverride { translation: None, rotation: None, scale: None }
    }

    /// Overlays the override onto a base transform.
    pub fn overlay(&self, base: &Transform) -> (r: Transform)
        ensures
            r == self.overlay_spec(*base),
    {
        Transform {
            translation: match self.translation {
                Some(t) => t,
                None => base.translation,
            },
            rotation: match self.rotation {
                Some(r) => r,
                None => base.rotation,
            },
            scale: match self.scale {
                Some(s) => s,
                None => base.scale,
            },
        }
    }
}

impl Default for PrefabTransformOverride {
    fn default() -> (r: PrefabTransformOverride)
        ensures
            r == PrefabTransformOverride::empty_spec(),
    {
        PrefabTransformOverride::empty()
    }
}

/// Error attached to a node whose instantiation failed for good.
#[derive(Debug, Clone, Copy, PartialEq, Eq, Structural)]
pub enum PrefabError {
    Missing,
    WrongExpectedSourcePrefab,
}

/// Tags a node with pending instantiation.
#[derive(Debug, Clone, PartialEq, Eq, Structural)]
pub struct PrefabNotInstantiatedTag;

impl PrefabNotInstantiatedTag {
    pub fn new() -> (r: PrefabNotInstantiatedTag) {
        PrefabNotInstantiatedTag
    }
}

/// Tags a node whose instantiation failed, carrying the reason.
#[derive(Debug, Clone, PartialEq, Eq, Structural)]
pub struct PrefabErrorTag(pub PrefabError);

impl PrefabErrorTag {
    pub fn error(&self) -> (r: PrefabError)
        ensures
            r == self.0,
    {
        self.0
    }
}

} // verus!
