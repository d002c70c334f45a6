//! The identifier remapper: rewrites every node reference held by a
//! reference-bearing record type, over a whole graph or over a single node,
//! through a handle-to-handle map.  A reference with no entry in the map is
//! dangling; the failure propagates, because it indicates a reference to a
//! node that was never declared.

use vstd::prelude::*;

use crate::graph::{Graph, Node, NodeV};
use crate::overrides::{FieldOverride, OverrideValue, OverrideValueV, StructOverride,
    StructOverrideV};
use crate::values::{Field, FieldV, Record, RecordV, Value, ValueV};

verus! {

/// One handle translation.
#[derive(Debug, Clone, Copy, PartialEq, Eq, Structural)]
pub struct MapEntry {
    pub from: u32,
    pub to: u32,
}

/// A handle-to-handle map; the first entry for a handle wins.
#[derive(Debug, Clone, PartialEq)]
pub struct EntityMap {
    pub entries: Vec<MapEntry>,
}

impl EntityMap {
    /// Whether the map holds the handle.
    pub open spec fn has_from(self, from: u32) -> bool {
        exists|i: int| 0 <= i < self.entries@.len() && #[trigger] self.entries@[i].from == from
    }

    /// The index of the first entry for the handle.
    pub open spec fn from_index(self, from: u32) -> int {
        map_from_index(self.entries@, from)
    }

    /// The translation of the handle.
    pub open spec fn to_of(self, from: u32) -> u32 {
        self.entries@[self.from_index(from)].to
    }
}

impl View for EntityMap {
    type V = Map<u32, u32>;

    open spec fn view(&self) -> Map<u32, u32> {
        Map::new(|k: u32| self.has_from(k), |k: u32| self.to_of(k))
    }
}

/// The index of the first entry for the handle.
pub open spec fn map_from_index(entries: Seq<MapEntry>, from: u32) -> int
    decreases entries.len(),
{
    if entries.len() == 0 {
        0
    } else if entries[0].from == from {
        0
    } else {
        1 + map_from_index(entries.drop_first(), from)
    }
}

/// If entry `i` is for the handle and no earlier one is, `i` is the index
/// the lookup denotes.
pub proof fn lemma_map_index_first(entries: Seq<MapEntry>, from: u32, i: int)
    requires
        0 <= i < entries.len(),
        entries[i].from == from,
        forall|j: int| 0 <= j < i ==> #[trigger] entries[j].from != from,
    ensures
        map_from_index(entries, from) == i,
    decreases i,
{
    if i > 0 {
        lemma_map_index_first(entries.drop_first(), from, i - 1);
    }
}

impl EntityMap {
    /// An empty map.
    pub fn empty() -> (r: EntityMap)
        ensures
            r@ == Map::<u32, u32>::empty(),
    {
        let r = EntityMap { entries: Vec::new() };
        proof {
            assert(r@ =~= Map::<u32, u32>::empty());
        }
        r
    }

    /// Records a translation.  An already mapped handle keeps its first
    /// translation.
    pub fn insert(&mut self, from: u32, to: u32)
        ensures
            old(self)@.dom().contains(from) ==> final(self)@ == old(self)@,
            !old(self)@.dom().contains(from) ==> final(self)@ == old(self)@.insert(from, to),
    {
        let ghost pre = *self;
        if self.get(from).is_none() {
            self.entries.push(MapEntry { from, to });
            proof {
                assert forall|k: u32| true implies #[trigger] self.has_from(k) == (pre.has_from(k)
                    || k == from) by {
                    if self.has_from(k) {
                        let w = choose|i: int|
                            0 <= i < self.entries@.len() && #[trigger] self.entries@[i].from == k;
                        if w < pre.entries@.len() {
                            assert(pre.has_from(k));
                        } else {
                            assert(k == from);
                        }
                    }
                    if pre.has_from(k) {
                        let w = choose|i: int|
                            0 <= i < pre.entries@.len() && #[trigger] pre.entries@[i].from == k;
                        assert(self.entries@[w].from == k);
                    }
                    if k == from {
                        assert(self.entries@[pre.entries@.len() as int].from == k);
                    }
                }
                assert forall|k: u32| pre.has_from(k) implies self.to_of(k) == pre.to_of(k) by {
                    let w = pre.from_index(k);
                    crate::mapped::lemma_map_index_holds(pre.entries@, k);
                    assert(self.entries@[w].from == k);
                    lemma_map_index_first_agrees(pre.entries@, self.entries@, k);
                }
                assert(self.to_of(from) == to || pre.has_from(from)) by {
                    if !pre.has_from(from) {
                        lemma_map_index_first(self.entries@, from, pre.entries@.len() as int);
                    }
                }
                if !pre@.dom().contains(from) {
                    assert(self@ =~= pre@.insert(from, to));
                }
            }
        }
    }

    /// Looks a handle up.
    pub fn get(&self, from: u32) -> (r: Option<u32>)
        ensures
            match r {
                Some(to) => self@.dom().contains(from) && to == self@[from],
                None => !self@.dom().contains(from),
            },
    {
        let n = self.entries.len();
        let mut i: usize = 0;
        while i < n
            invariant
                n == self.entries@.len(),
                i <= n,
                forall|j: int| 0 <= j < i as int ==> #[trigger] self.entries@[j].from != from,
            decreases n - i,
    {
            if self.entries[i].from == from {
                proof {
                    lemma_map_index_first(self.entries@, from, i as int);
                }
                return Some(self.entries[i].to);
            }
            i = i + 1;
        }
        None
    }
}

/// The index the lookup denotes is for the handle, whenever some entry is.
pub proof fn lemma_map_index_holds(entries: Seq<MapEntry>, from: u32)
    requires
        exists|i: int| 0 <= i < entries.len() && #[trigger] entries[i].from == from,
    ensures
        0 <= map_from_index(entries, from) < entries.len(),
        entries[map_from_index(entries, from)].from == from,
    decreases entries.len(),
{
    if entries.len() > 0 && entries[0].from != from {
        let rest = entries.drop_first();
        assert(exists|i: int| 0 <= i < rest.len() && #[trigger] rest[i].from == from) by {
            let w = choose|i: int| 0 <= i < entries.len() && #[trigger] entries[i].from == from;
            assert(rest[w - 1].from == from);
        }
        lemma_map_index_holds(rest, from);
    }
}

/// Appending entries does not change the translation of an already mapped
/// handle.
proof fn lemma_map_index_first_agrees(pre: Seq<MapEntry>, post: Seq<MapEntry>, from: u32)
    requires
        pre.len() <= post.len(),
        forall|i: int| 0 <= i < pre.len() ==> #[trigger] post[i] == pre[i],
        exists|i: int| 0 <= i < pre.len() && #[trigger] pre[i].from == from,
    ensures
        map_from_index(post, from) == map_from_index(pre, from),
        post[map_from_index(post, from)].to == pre[map_from_index(pre, from)].to,
    decreases pre.len(),
{
    lemma_map_index_holds(pre, from);
    let w = map_from_index(pre, from);
    assert(forall|j: int| 0 <= j < w ==> #[trigger] pre[j].from != from) by {
        lemma_map_index_minimal(pre, from);
    }
    assert(post[w].from == from);
    lemma_map_index_first(post, from, w);
}

/// No entry before the index the lookup denotes is for the handle.
proof fn lemma_map_index_minimal(entries: Seq<MapEntry>, from: u32)
    ensures
        forall|j: int|
            0 <= j < map_from_index(entries, from) && j < entries.len()
                ==> #[trigger] entries[j].from != from,
    decreases entries.len(),
{
    if entries.len() > 0 && entries[0].from != from {
        lemma_map_index_minimal(entries.drop_first(), from);
        assert forall|j: int|
            0 <= j < map_from_index(entries, from) && j < entries.len() implies #[trigger] entries[j].from
            != from by {
            if j > 0 {
                assert(entries.drop_first()[j - 1].from != from);
            }
        }
    }
}

/// A reference with no entry in the handle map: the id that dangles.
#[derive(Debug, Clone, Copy, PartialEq, Eq, Structural)]
pub struct MapEntitiesError {
    pub id: u32,
}

/// The registry of reference-bearing record types: the remapper rewrites the
/// node references of exactly these.
#[derive(Debug, Clone, PartialEq)]
pub struct ComponentEntityMapperRegistry {
    pub tags: Vec<u64>,
}

impl ComponentEntityMapperRegistry {
    /// Whether the record type takes part in reference rewriting.
    pub open spec fn spec_registered(self, tag: u64) -> bool {
        self.tags@.contains(tag)
    }

    /// No reference-bearing type yet.
    pub fn empty() -> (r: ComponentEntityMapperRegistry)
        ensures
            forall|t: u64| !r.spec_registered(t),
    {
        let r = ComponentEntityMapperRegistry { tags: Vec::new() };
        proof {
            assert forall|t: u64| !r.spec_registered(t) by {
                assert(r.tags@.len() == 0);
            }
        }
        r
    }

    /// Registers a record type whose fields hold node references.
    pub fn register(&mut self, type_tag: u64)
        ensures
            forall|t: u64|
                final(self).spec_registered(t) == (old(self).spec_registered(t) || t == type_tag),
    {
        if !crate::mapped::tags_contain(&self.tags, type_tag) {
            let ghost pre = self.tags@;
            self.tags.push(type_tag);
            proof {
                assert forall|t: u64|
                    self.spec_registered(t) == (pre.contains(t) || t == type_tag) by {
                    if self.tags@.contains(t) {
                        let w = choose|i: int|
                            0 <= i < self.tags@.len() && self.tags@[i] == t;
                        if w < pre.len() {
                            assert(pre.contains(t));
                        }
                    }
                    if pre.contains(t) {
                        let w = choose|i: int| 0 <= i < pre.len() && pre[i] == t;
                        assert(self.tags@[w] == t);
                    }
                    if t == type_tag {
                        assert(self.tags@[pre.len() as int] == t);
                    }
                }
            }
        }
    }

    /// Whether the record type takes part in reference rewriting.
    pub fn registered(&self, type_tag: u64) -> (r: bool)
        ensures
            r == self.spec_registered(type_tag),
    {
        tags_contain(&self.tags, type_tag)
    }
}

/// Whether the vector holds the tag.
pub fn tags_contain(v: &Vec<u64>, x: u64) -> (r: bool)
    ensures
        r == v@.contains(x),
{
    let n = v.len();
    let mut i: usize = 0;
    while i < n
        invariant
            n == v@.len(),
            i <= n,
            forall|j: int| 0 <= j < i as int ==> v@[j] != x,
        decreases n - i,
    {
        if v[i] == x {
            return true;
        }
        i = i + 1;
    }
    false
}

/// What rewriting does to one field value: a node reference is translated
/// through the map, everything else is untouched.
pub open spec fn spec_map_value(m: Map<u32, u32>, v: ValueV) -> ValueV {
    match v {
        ValueV::Ref(e) => ValueV::Ref(m[e]),
        _ => v,
    }
}

/// All node references of the record lie in the map's domain.
pub open spec fn record_refs_in(r: RecordV, dom: Set<u32>) -> bool {
    forall|i: int|
        0 <= i < r.fields.len() ==> match #[trigger] r.fields[i].value {
            ValueV::Ref(e) => dom.contains(e),
            _ => true,
        }
}

/// What rewriting does to a record: every reference field translated.
pub open spec fn spec_map_record(m: Map<u32, u32>, r: RecordV) -> RecordV {
    RecordV {
        type_tag: r.type_tag,
        fields: Seq::new(
            r.fields.len(),
            |i: int| FieldV { name: r.fields[i].name, value: spec_map_value(m, r.fields[i].value) },
        ),
    }
}

/// What rewriting does to an override patch: references held by whole-value
/// overrides are translated.
pub open spec fn spec_map_override(m: Map<u32, u32>, ov: StructOverrideV) -> StructOverrideV {
    StructOverrideV {
        fields: Seq::new(
            ov.fields.len(),
            |i: int|
                crate::overrides::FieldOverrideV {
                    name: ov.fields[i].name,
                    value: match ov.fields[i].value {
                        OverrideValueV::Whole(v) => OverrideValueV::Whole(spec_map_value(m, v)),
                        OverrideValueV::Axes(a) => OverrideValueV::Axes(a),
                    },
                },
        ),
    }
}

/// All references a node holds in registered records or in its override
/// patch lie in the map's domain.
pub open spec fn node_refs_in(
    reg: ComponentEntityMapperRegistry,
    n: NodeV,
    dom: Set<u32>,
) -> bool {
    &&& forall|i: int|
        0 <= i < n.records.len() && reg.spec_registered(#[trigger] n.records[i].type_tag)
            ==> record_refs_in(n.records[i], dom)
    &&& match n.overrides {
        Some(o) => o.refs_in(dom),
        None => true,
    }
}

/// What rewriting does to a node: registered records and the override patch
/// are translated; everything else is untouched.
pub open spec fn spec_map_node(
    reg: ComponentEntityMapperRegistry,
    m: Map<u32, u32>,
    n: NodeV,
) -> NodeV {
    NodeV {
        records: Seq::new(
            n.records.len(),
            |i: int|
                if reg.spec_registered(n.records[i].type_tag) {
                    spec_map_record(m, n.records[i])
                } else {
                    n.records[i]
                },
        ),
        overrides: match n.overrides {
            Some(o) => Some(spec_map_override(m, o)),
            None => None,
        },
        ..n
    }
}

/// All references of all nodes lie in the map's domain.
pub open spec fn graph_refs_in(
    reg: ComponentEntityMapperRegistry,
    g: Seq<NodeV>,
    dom: Set<u32>,
) -> bool {
    forall|i: int| 0 <= i < g.len() ==> node_refs_in(reg, #[trigger] g[i], dom)
}

/// What rewriting does to a whole graph.
pub open spec fn spec_map_graph(
    reg: ComponentEntityMapperRegistry,
    m: Map<u32, u32>,
    g: Seq<NodeV>,
) -> Seq<NodeV> {
    Seq::new(g.len(), |i: int| spec_map_node(reg, m, g[i]))
}

/// Rewrites the reference fields of one record.  Fails on the first
/// reference with no entry in the map, leaving nothing changed.
pub fn map_record_refs(m: &EntityMap, rec: &Record) -> (r: Result<Record, MapEntitiesError>)
    ensures
        match r {
            Ok(out) => record_refs_in(rec@, m@.dom()) && out@ == spec_map_record(m@, rec@),
            Err(e) => !m@.dom().contains(e.id) && !record_refs_in(rec@, m@.dom()),
        },
{
    let n = rec.fields.len();
    let mut fields: Vec<Field> = Vec::new();
    let mut i: usize = 0;
    while i < n
        invariant
            n == rec.fields@.len(),
            i <= n,
            fields@.len() == i as int,
            forall|j: int| #![auto]
                0 <= j < i as int ==> fields@[j]@ == (FieldV {
                    name: rec@.fields[j].name,
                    value: spec_map_value(m@, rec@.fields[j].value),
                }),
            forall|j: int|
                0 <= j < i as int ==> match #[trigger] rec@.fields[j].value {
                    ValueV::Ref(e) => m@.dom().contains(e),
                    _ => true,
                },
        decreases n - i,
    {
        let f = &rec.fields[i];
        match &f.value {
            Value::Ref(e) => {
                match m.get(*e) {
                    Some(to) => {
                        fields.push(Field { name: f.name.clone(), value: Value::Ref(to) });
                    },
                    None => {
                        proof {
                            assert(rec@.fields[i as int].value == ValueV::Ref(*e));
                            assert(!record_refs_in(rec@, m@.dom()));
                        }
                        return Err(MapEntitiesError { id: *e });
                    },
                }
            },
            _ => {
                fields.push(f.duplicate());
            },
        }
        i = i + 1;
    }
    let out = Record { type_tag: rec.type_tag, fields };
    proof {
        assert(out@.fields =~= spec_map_record(m@, rec@).fields);
    }
    Ok(out)
}

/// Rewrites the references of an override patch.  Fails on the first
/// reference with no entry in the map.
fn map_override_refs(m: &EntityMap, ov: &StructOverride) -> (r: Result<
    StructOverride,
    MapEntitiesError,
>)
    ensures
        match r {
            Ok(out) => ov@.refs_in(m@.dom()) && out@ == spec_map_override(m@, ov@),
            Err(e) => !m@.dom().contains(e.id) && !ov@.refs_in(m@.dom()),
        },
{
    let n = ov.fields.len();
    let mut fields: Vec<FieldOverride> = Vec::new();
    let mut i: usize = 0;
    while i < n
        invariant
            n == ov.fields@.len(),
            i <= n,
            fields@.len() == i as int,
            forall|j: int| #![auto]
                0 <= j < i as int ==> fields@[j]@ == spec_map_override(m@, ov@).fields[j],
            forall|j: int|
                0 <= j < i as int ==> match #[trigger] ov@.fields[j].value {
                    OverrideValueV::Whole(ValueV::Ref(e)) => m@.dom().contains(e),
                    _ => true,
                },
        decreases n - i,
    {
        let f = &ov.fields[i];
        match &f.value {
            OverrideValue::Whole(Value::Ref(e)) => {
                match m.get(*e) {
                    Some(to) => {
                        fields.push(
                            FieldOverride {
                                name: f.name.clone(),
                                value: OverrideValue::Whole(Value::Ref(to)),
                            },
                        );
                    },
                    None => {
                        proof {
                            assert(ov@.fields[i as int].value == OverrideValueV::Whole(
                                ValueV::Ref(*e),
                            ));
                            assert(!ov@.refs_in(m@.dom()));
                        }
                        return Err(MapEntitiesError { id: *e });
                    },
                }
            },
            OverrideValue::Whole(v) => {
                fields.push(
                    FieldOverride { name: f.name.clone(), value: OverrideValue::Whole(v.duplicate()) },
                );
            },
            OverrideValue::Axes(a) => {
                fields.push(FieldOverride { name: f.name.clone(), value: OverrideValue::Axes(*a) });
            },
        }
        i = i + 1;
    }
    let out = StructOverride { fields };
    proof {
        assert(out@.fields =~= spec_map_override(m@, ov@).fields);
    }
    Ok(out)
}

impl ComponentEntityMapperRegistry {
    /// Rewrites the references of all registered records of a single node,
    /// and of its override patch.  Fails on a dangling reference, leaving
    /// the node untouched.
    pub fn map_entity_components(&self, node: &mut Node, entity_map: &EntityMap) -> (r: Result<
        (),
        MapEntitiesError,
    >)
        ensures
            match r {
                Ok(_) => node_refs_in(*self, old(node)@, entity_map@.dom()) && final(node)@
                    == spec_map_node(*self, entity_map@, old(node)@),
                Err(e) => {
                    &&& !entity_map@.dom().contains(e.id)
                    &&& !node_refs_in(*self, old(node)@, entity_map@.dom())
                    &&& final(node)@ == old(node)@
                },
            },
    {
        let n = node.records.len();
        let mut records: Vec<Record> = Vec::new();
        let mut i: usize = 0;
        while i < n
            invariant
                n == node.records@.len(),
                node == old(node),
                i <= n,
                records@.len() == i as int,
                forall|j: int| #![auto]
                    0 <= j < i as int ==> records@[j]@ == spec_map_node(
                        *self,
                        entity_map@,
                        node@,
                    ).records[j],
                forall|j: int|
                    0 <= j < i as int && self.spec_registered(#[trigger] node@.records[j].type_tag)
                        ==> record_refs_in(node@.records[j], entity_map@.dom()),
            decreases n - i,
        {
            let rec = &node.records[i];
            if self.registered(rec.type_tag) {
                match map_record_refs(entity_map, rec) {
                    Ok(out) => {
                        records.push(out);
                    },
                    Err(e) => {
                        proof {
                            assert(node@.records[i as int].type_tag == rec@.type_tag);
                            assert(!node_refs_in(*self, node@, entity_map@.dom()));
                        }
                        return Err(e);
                    },
                }
            } else {
                records.push(rec.duplicate());
            }
            i = i + 1;
        }
        let overrides = match &node.overrides {
            Some(o) => {
                match map_override_refs(entity_map, o) {
                    Ok(out) => Some(out),
                    Err(e) => {
                        proof {
                            assert(!node_refs_in(*self, node@, entity_map@.dom()));
                        }
                        return Err(e);
                    },
                }
            },
            None => None,
        };
        node.records = records;
        node.overrides = overrides;
        proof {
            assert(final(node)@ =~= spec_map_node(*self, entity_map@, old(node)@));
        }
        Ok(())
    }

    /// Rewrites the references of all registered records across the whole
    /// graph, and of every node's override patch.  Fails on a dangling
    /// reference, leaving the graph untouched.
    pub fn map_world_components(&self, world: &mut Graph, entity_map: &EntityMap) -> (r: Result<
        (),
        MapEntitiesError,
    >)
        ensures
            match r {
                Ok(_) => graph_refs_in(*self, old(world)@, entity_map@.dom()) && final(world)@
                    == spec_map_graph(*self, entity_map@, old(world)@),
                Err(e) => {
                    &&& !entity_map@.dom().contains(e.id)
                    &&& !graph_refs_in(*self, old(world)@, entity_map@.dom())
                    &&& final(world)@ == old(world)@
                },
            },
    {
        let n = world.nodes.len();
        let mut nodes: Vec<Node> = Vec::new();
        let mut i: usize = 0;
        while i < n
            invariant
                n == world.nodes@.len(),
                world == old(world),
                i <= n,
                nodes@.len() == i as int,
                forall|j: int| #![auto]
                    0 <= j < i as int ==> nodes@[j]@ == spec_map_node(
                        *self,
                        entity_map@,
                        world@[j],
                    ),
                forall|j: int|
                    0 <= j < i as int ==> node_refs_in(*self, #[trigger] world@[j], entity_map@.dom()),
            decreases n - i,
        {
            let mut node = world.nodes[i].duplicate();
            match self.map_entity_components(&mut node, entity_map) {
                Ok(_) => {
                    nodes.push(node);
                },
                Err(e) => {
                    proof {
                        assert(!node_refs_in(*self, world@[i as int], entity_map@.dom()));
                        assert(!graph_refs_in(*self, world@, entity_map@.dom()));
                    }
                    return Err(e);
                },
            }
            i = i + 1;
        }
        world.nodes = nodes;
        proof {
            assert(final(world)@ =~= spec_map_graph(*self, entity_map@, old(world)@));
        }
        Ok(())
    }
}

} // verus!
