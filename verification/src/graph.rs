//! The node store: a growable graph of nodes, each holding attached records
//! and the engine's own markers.  A decoded template owns a private graph of
//! this shape; the live target graph the manager fills has the same shape.

use vstd::prelude::*;

use crate::values::{Record, RecordV, Transform};
use crate::overrides::{StructOverride, StructOverrideV};
use crate::{PrefabError, PrefabErrorTag, PrefabNotInstantiatedTag, PrefabTransformOverride};

verus! {

/// Reference to an external template asset: the path under which the host's
/// asset facility loads it.
#[derive(Debug, Clone, PartialEq)]
pub struct PrefabSource {
    pub path: String,
}

/// Overrides the construct step of a procedural template, which has no source
/// document: the stable identifier of the registered template type whose
/// constructor is to run.
#[derive(Debug, Clone, PartialEq, Eq)]
pub struct PrefabConstruct(pub u128);

/// The expected template type of a node, checked against the loaded asset
/// before instantiation; this validation cannot happen at decode time because
/// the asset may not be loaded yet.
#[derive(Debug, Clone, PartialEq, Eq)]
pub struct PrefabTypeUuid(pub u128);

/// One node of a graph: its attached records and the engine's markers.
#[derive(Debug, Clone, PartialEq)]
pub struct Node {
    /// The records attached to the node, at most one per type tag.
    pub records: Vec<Record>,
    /// The node this node hangs under, if any.
    pub parent: Option<u32>,
    /// The composed transform, once one is attached.
    pub transform: Option<Transform>,
    /// The template asset the node names, for nodes that await expansion.
    pub source: Option<PrefabSource>,
    /// Present while the node awaits expansion.
    pub not_instantiated: Option<PrefabNotInstantiatedTag>,
    /// Present once expansion has failed for good.
    pub error: Option<PrefabErrorTag>,
    /// A partial transform overlaid onto the template's base transform.
    pub transform_override: Option<PrefabTransformOverride>,
    /// The procedural construct marker, for templates without a source.
    pub construct: Option<PrefabConstruct>,
    /// The expected type of the source asset, for document-backed templates.
    pub expected_type: Option<PrefabTypeUuid>,
    /// The override patch applied onto the template's default record.
    pub overrides: Option<StructOverride>,
    /// The top-level data record attached at instantiation.
    pub data: Option<Record>,
}

/// The mathematical model of a [`Node`].
#[verifier::ext_equal]
pub struct NodeV {
    pub records: Seq<RecordV>,
    pub parent: Option<u32>,
    pub transform: Option<Transform>,
    pub source: Option<Seq<char>>,
    pub not_instantiated: bool,
    pub error: Option<PrefabError>,
    pub transform_override: Option<PrefabTransformOverride>,
    pub construct: Option<u128>,
    pub expected_type: Option<u128>,
    pub overrides: Option<StructOverrideV>,
    pub data: Option<RecordV>,
}

impl View for Node {
    type V = NodeV;

    open spec fn view(&self) -> NodeV {
        NodeV {
            records: Seq::new(self.records@.len(), |i: int| self.records@[i]@),
            parent: self.parent,
            transform: self.transform,
            source: match self.source {
                Some(s) => Some(s.path@),
                None => None,
            },
            not_instantiated: self.not_instantiated is Some,
            error: match self.error {
                Some(t) => Some(t.0),
                None => None,
            },
            transform_override: self.transform_override,
            construct: match self.construct {
                Some(c) => Some(c.0),
                None => None,
            },
            expected_type: match self.expected_type {
                Some(t) => Some(t.0),
                None => None,
            },
            overrides: match &self.overrides {
                Some(o) => Some(o@),
                None => None,
            },
            data: match &self.data {
                Some(d) => Some(d@),
                None => None,
            },
        }
    }
}

impl NodeV {
    /// A blank node: no records, no markers.
    pub open spec fn blank_spec() -> NodeV {
        NodeV {
            records: Seq::empty(),
            parent: None,
            transform: None,
            source: None,
            not_instantiated: false,
            error: None,
            transform_override: None,
            construct: None,
            expected_type: None,
            overrides: None,
            data: None,
        }
    }

    /// Whether a record with the given type tag is attached.
    pub open spec fn has_record(self, tag: u64) -> bool {
        exists|i: int| 0 <= i < self.records.len() && #[trigger] self.records[i].type_tag == tag
    }

    /// The index of the first record with the given tag.
    pub open spec fn record_index(self, tag: u64) -> int {
        record_tag_index(self.records, tag)
    }

    /// The first record with the given tag.
    pub open spec fn record_at(self, tag: u64) -> RecordV {
        self.records[self.record_index(tag)]
    }

    /// At most one record per type tag.
    pub open spec fn records_unique(self) -> bool {
        forall|i: int, j: int|
            0 <= i < j < self.records.len() ==> #[trigger] self.records[i].type_tag
                != #[trigger] self.records[j].type_tag
    }
}

/// The index of the first record with the given tag.
pub open spec fn record_tag_index(records: Seq<RecordV>, tag: u64) -> int
    decreases records.len(),
{
    if records.len() == 0 {
        0
    } else if records[0].type_tag == tag {
        0
    } else {
        1 + record_tag_index(records.drop_first(), tag)
    }
}

/// If record `i` carries the tag and no earlier one does, `i` is the index
/// the lookup denotes.
pub proof fn lemma_record_index_first(records: Seq<RecordV>, tag: u64, i: int)
    requires
        0 <= i < records.len(),
        records[i].type_tag == tag,
        forall|j: int| 0 <= j < i ==> #[trigger] records[j].type_tag != tag,
    ensures
        record_tag_index(records, tag) == i,
    decreases i,
{
    if i > 0 {
        lemma_record_index_first(records.drop_first(), tag, i - 1);
    }
}

/// The index the lookup denotes carries the tag, whenever some record does.
pub proof fn lemma_record_index_holds(records: Seq<RecordV>, tag: u64)
    requires
        exists|i: int| 0 <= i < records.len() && #[trigger] records[i].type_tag == tag,
    ensures
        0 <= record_tag_index(records, tag) < records.len(),
        records[record_tag_index(records, tag)].type_tag == tag,
    decreases records.len(),
{
    if records.len() > 0 && records[0].type_tag != tag {
        let rest = records.drop_first();
        assert(exists|i: int| 0 <= i < rest.len() && #[trigger] rest[i].type_tag == tag) by {
            let w = choose|i: int| 0 <= i < records.len() && #[trigger] records[i].type_tag == tag;
            assert(rest[w - 1].type_tag == tag);
        }
        lemma_record_index_holds(rest, tag);
    }
}

/// Attaching a record: a record with the same tag is replaced in place, a new
/// tag is appended.
pub open spec fn spec_insert_record(node: NodeV, rec: RecordV) -> NodeV {
    if node.has_record(rec.type_tag) {
        NodeV { records: node.records.update(node.record_index(rec.type_tag), rec), ..node }
    } else {
        NodeV { records: node.records.push(rec), ..node }
    }
}

impl Node {
    /// A blank node.
    pub fn blank() -> (r: Node)
        ensures
            r@ == NodeV::blank_spec(),
    {
        let r = Node {
            records: Vec::new(),
            parent: None,
            transform: None,
            source: None,
            not_instantiated: None,
            error: None,
            transform_override: None,
            construct: None,
            expected_type: None,
            overrides: None,
            data: None,
        };
        proof {
            assert(r@.records =~= NodeV::blank_spec().records);
        }
        r
    }

    /// Finds the first record with the given type tag.
    pub fn find_record(&self, tag: u64) -> (r: Option<usize>)
        ensures
            match r {
                Some(i) => self@.has_record(tag) && i as int == self@.record_index(tag),
                None => !self@.has_record(tag),
            },
    {
        let n = self.records.len();
        let mut i: usize = 0;
        while i < n
            invariant
                n == self.records@.len(),
                i <= n,
                forall|j: int| 0 <= j < i as int ==> #[trigger] self.records@[j].type_tag != tag,
            decreases n - i,
        {
            if self.records[i].type_tag == tag {
                proof {
                    assert(self@.records[i as int].type_tag == tag);
                    lemma_record_index_first(self@.records, tag, i as int);
                }
                return Some(i);
            }
            i = i + 1;
        }
        None
    }

    /// Attaches a record, replacing any record of the same tag.
    pub fn insert_record(&mut self, rec: Record)
        ensures
            final(self)@ == spec_insert_record(old(self)@, rec@),
    {
        let ghost pre = self@;
        match self.find_record(rec.type_tag) {
            Some(i) => {
                proof {
                    lemma_record_index_holds(pre.records, rec@.type_tag);
                }
                self.records[i] = rec;
                proof {
                    assert(self@.records =~= spec_insert_record(pre, rec@).records);
                    assert(self@ =~= spec_insert_record(pre, rec@));
                }
            },
            None => {
                self.records.push(rec);
                proof {
                    assert(self@.records =~= spec_insert_record(pre, rec@).records);
                    assert(self@ =~= spec_insert_record(pre, rec@));
                }
            },
        }
    }

    /// Attaches a record only if no record of its tag is attached yet, so
    /// pre-existing authored records are not clobbered.
    pub fn insert_record_if_absent(&mut self, rec: Record)
        ensures
            old(self)@.has_record(rec@.type_tag) ==> final(self)@ == old(self)@,
            !old(self)@.has_record(rec@.type_tag) ==> final(self)@ == (NodeV {
                records: old(self)@.records.push(rec@),
                ..old(self)@
            }),
    {
        if self.find_record(rec.type_tag).is_none() {
            self.records.push(rec);
        }
    }
}

impl Node {
    /// Deep copy of the node.
    pub fn duplicate(&self) -> (r: Node)
        ensures
            r@ == self@,
    {
        let n = self.records.len();
        let mut records: Vec<Record> = Vec::new();
        let mut i: usize = 0;
        while i < n
            invariant
                n == self.records@.len(),
                i <= n,
                records@.len() == i as int,
                forall|j: int| 0 <= j < i as int ==> records@[j]@ == #[trigger] self.records@[j]@,
            decreases n - i,
        {
            records.push(self.records[i].duplicate());
            i = i + 1;
        }
        let r = Node {
            records,
            parent: self.parent,
            transform: self.transform,
            source: match &self.source {
                Some(s) => Some(PrefabSource { path: s.path.clone() }),
                None => None,
            },
            not_instantiated: match &self.not_instantiated {
                Some(_) => Some(PrefabNotInstantiatedTag),
                None => None,
            },
            error: match &self.error {
                Some(t) => Some(PrefabErrorTag(t.0)),
                None => None,
            },
            transform_override: self.transform_override,
            construct: match &self.construct {
                Some(c) => Some(PrefabConstruct(c.0)),
                None => None,
            },
            expected_type: match &self.expected_type {
                Some(t) => Some(PrefabTypeUuid(t.0)),
                None => None,
            },
            overrides: match &self.overrides {
                Some(o) => Some(o.duplicate()),
                None => None,
            },
            data: match &self.data {
                Some(d) => Some(d.duplicate()),
                None => None,
            },
        };
        proof {
            assert(r@.records =~= self@.records);
            assert(r@ =~= self@);
        }
        r
    }
}

/// A growable store of nodes; a node handle is an index into it.
#[derive(Debug, Clone, PartialEq)]
pub struct Graph {
    pub nodes: Vec<Node>,
}

impl View for Graph {
    type V = Seq<NodeV>;

    open spec fn view(&self) -> Seq<NodeV> {
        Seq::new(self.nodes@.len(), |i: int| self.nodes@[i]@)
    }
}

/// Every parent link points at a node of the graph.
pub open spec fn parents_valid(g: Seq<NodeV>) -> bool {
    forall|i: int|
        0 <= i < g.len() ==> match #[trigger] g[i].parent {
            Some(p) => p < g.len(),
            None => true,
        }
}

impl Graph {
    /// An empty graph.
    pub fn empty() -> (r: Graph)
        ensures
            r@.len() == 0,
    {
        let r = Graph { nodes: Vec::new() };
        proof {
            assert(r@ =~= Seq::<NodeV>::empty());
        }
        r
    }

    /// The number of nodes.
    pub fn len(&self) -> (r: usize)
        ensures
            r == self@.len(),
    {
        self.nodes.len()
    }

    /// Spawns a blank node and hands back its handle.
    pub fn spawn(&mut self) -> (r: u32)
        requires
            old(self)@.len() < u32::MAX,
        ensures
            final(self)@ == old(self)@.push(NodeV::blank_spec()),
            r == old(self)@.len(),
    {
        let id = self.nodes.len() as u32;
        self.nodes.push(Node::blank());
        proof {
            assert(self@ =~= old(self)@.push(NodeV::blank_spec()));
        }
        id
    }

    /// A shared borrow of the node behind a handle.
    pub fn get(&self, id: u32) -> (r: &Node)
        requires
            id < self@.len(),
        ensures
            r@ == self@[id as int],
    {
        &self.nodes[id as usize]
    }

    /// A mutable borrow of the node behind a handle.
    pub fn get_mut(&mut self, id: u32) -> (r: &mut Node)
        requires
            id < old(self)@.len(),
        ensures
            *r == old(self).nodes@[id as int],
            final(self).nodes@ == old(self).nodes@.update(id as int, *final(r)),
            final(self)@ == old(self)@.update(id as int, final(r)@),
    {
        &mut self.nodes[id as usize]
    }
}

} // verus!
