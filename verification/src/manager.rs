//! The instantiation manager: finds the nodes tagged as pending, copies each
//! referenced template's contents into the target graph, rewrites node
//! references into instance space, applies transform and override patches,
//! and retries nodes whose source template is not yet loaded.  A type
//! mismatch is terminal and marked on the node; an unloaded asset leaves its
//! node untouched until a later pass.

use vstd::prelude::*;

use crate::component::ComponentDescriptorRegistry;
use crate::graph::{Graph, Node, NodeV, PrefabSource};
use crate::mapped::{ComponentEntityMapperRegistry, EntityMap, spec_map_node, node_refs_in};
use crate::overrides::apply_struct;
use crate::prefab::PrefabDescriptorRegistry;
use crate::values::{Record, RecordV, Transform};
use crate::{Prefab, PrefabError, PrefabErrorTag, PrefabNotInstantiatedTag};

verus! {

/// Why a spawn could not be carried out.
#[derive(Debug, Clone, PartialEq, Eq)]
pub enum PrefabSpawnError {
    MissingPrefab(String),
}

/// The pool of loaded templates, each under the path it was loaded from.
#[derive(Debug, Clone, PartialEq)]
pub struct AssetEntry {
    pub path: String,
    pub prefab: Prefab,
}

/// The loaded templates; a path not present is simply not loaded yet.
#[derive(Debug, Clone, PartialEq)]
pub struct Assets {
    pub entries: Vec<AssetEntry>,
}

impl Assets {
    pub open spec fn has_path(self, path: Seq<char>) -> bool {
        exists|i: int| 0 <= i < self.entries@.len() && #[trigger] self.entries@[i].path@ == path
    }

    pub open spec fn path_index(self, path: Seq<char>) -> int {
        asset_path_index(self.entries@, path)
    }

    pub open spec fn at_path(self, path: Seq<char>) -> Prefab {
        self.entries@[self.path_index(path)].prefab
    }

    /// No template loaded.
    pub fn empty() -> (r: Assets)
        ensures
            r.entries@.len() == 0,
    {
        Assets { entries: Vec::new() }
    }

    /// Makes a decoded template available under a path; the first template
    /// under a path wins.
    pub fn add(&mut self, path: String, prefab: Prefab)
        ensures
            final(self).entries@ == old(self).entries@.push(AssetEntry { path, prefab }),
    {
        self.entries.push(AssetEntry { path, prefab });
    }

    /// Looks a template up; a path not present is not loaded yet.
    pub fn get(&self, path: &String) -> (r: Option<&Prefab>)
        ensures
            match r {
                Some(p) => self.has_path(path@) && *p == self.at_path(path@),
                None => !self.has_path(path@),
            },
    {
        let n = self.entries.len();
        let mut i: usize = 0;
        while i < n
            invariant
                n == self.entries@.len(),
                i <= n,
                forall|j: int| 0 <= j < i as int ==> #[trigger] self.entries@[j].path@ != path@,
            decreases n - i,
        {
            if self.entries[i].path == *path {
                proof {
                    lemma_asset_index_first(self.entries@, path@, i as int);
                }
                return Some(&self.entries[i].prefab);
            }
            i = i + 1;
        }
        None
    }
}

/// The index of the first template under the path.
pub open spec fn asset_path_index(entries: Seq<AssetEntry>, path: Seq<char>) -> int
    decreases entries.len(),
{
    if entries.len() == 0 {
        0
    } else if entries[0].path@ == path {
        0
    } else {
        1 + asset_path_index(entries.drop_first(), path)
    }
}

/// If entry `i` is under the path and no earlier one is, `i` is the index
/// the lookup denotes.
pub proof fn lemma_asset_index_first(entries: Seq<AssetEntry>, path: Seq<char>, i: int)
    requires
        0 <= i < entries.len(),
        entries[i].path@ == path,
        forall|j: int| 0 <= j < i ==> #[trigger] entries[j].path@ != path,
    ensures
        asset_path_index(entries, path) == i,
    decreases i,
{
    if i > 0 {
        assert forall|j: int| 0 <= j < i - 1 implies #[trigger] entries.drop_first()[j].path@
            != path by {
            assert(entries[j + 1].path@ != path);
        }
        lemma_asset_index_first(entries.drop_first(), path, i - 1);
    }
}

/// One unit of pending work: the pending node and the source it names.
#[derive(Debug, Clone, PartialEq)]
pub struct Instantiate(pub u32, pub Option<PrefabSource>);

/// Whether a queue entry faithfully names a pending node and its source.
pub open spec fn queue_entry_ok(g: Seq<NodeV>, ent: Instantiate) -> bool {
    &&& ent.0 < g.len()
    &&& g[ent.0 as int].not_instantiated
    &&& match ent.1 {
        Some(s) => g[ent.0 as int].source == Some(s.path@),
        None => g[ent.0 as int].source is None,
    }
}

/// Collects every node tagged as pending into the work queue, with the
/// source it names.
#[verifier::loop_isolation(false)]
pub fn enqueue_prefab_not_instantiated(world: &Graph, queue: &mut Vec<Instantiate>)
    requires
        world@.len() <= u32::MAX,
    ensures
        final(queue)@.len() == old(queue)@.len() + pending_count(world@),
        forall|k: int|
            0 <= k < old(queue)@.len() ==> #[trigger] final(queue)@[k] == old(queue)@[k],
        forall|k: int|
            old(queue)@.len() <= k < final(queue)@.len() ==> queue_entry_ok(
                world@,
                #[trigger] final(queue)@[k],
            ),
        forall|i: int|
            0 <= i < world@.len() && (#[trigger] world@[i]).not_instantiated ==> exists|k: int|
                old(queue)@.len() <= k < final(queue)@.len() && (#[trigger] final(queue)@[k]).0
                    == i,
        forall|k1: int, k2: int|
            old(queue)@.len() <= k1 < k2 < final(queue)@.len()
                ==> (#[trigger] final(queue)@[k1]).0 < (#[trigger] final(queue)@[k2]).0,
{
    let n = world.len();
    let ghost base = queue@.len();
    let mut i: usize = 0;
    while i < n
        invariant
            i <= n,
            base <= queue@.len(),
            queue@.len() == base + pending_count(world@.take(i as int)),
            forall|k: int| 0 <= k < base ==> #[trigger] queue@[k] == old(queue)@[k],
            forall|k: int|
                base <= k < queue@.len() ==> queue_entry_ok(world@, #[trigger] queue@[k]),
            forall|j: int|
                0 <= j < i as int && (#[trigger] world@[j]).not_instantiated ==> exists|k: int|
                    base <= k < queue@.len() && (#[trigger] queue@[k]).0 == j,
            forall|k: int| base <= k < queue@.len() ==> (#[trigger] queue@[k]).0 < i as int,
            forall|k1: int, k2: int|
                base <= k1 < k2 < queue@.len() ==> (#[trigger] queue@[k1]).0 < (#[trigger] queue@[k2]).0,
        decreases n - i,
    {
        proof {
            assert(world@.take(i as int + 1).drop_last() =~= world@.take(i as int));
            assert(world@.take(i as int + 1).last() == world@[i as int]);
        }
        let node = world.get(i as u32);
        let ghost pre_q = queue@;
        if node.not_instantiated.is_some() {
            let source = match &node.source {
                Some(s) => Some(PrefabSource { path: s.path.clone() }),
                None => None,
            };
            queue.push(Instantiate(i as u32, source));
            proof {
                assert(queue@[queue@.len() - 1].0 == i as u32);
                assert(queue_entry_ok(world@, queue@[queue@.len() - 1]));
                assert forall|k: int| 0 <= k < base implies #[trigger] queue@[k] == old(
                    queue,
                )@[k] by {
                    assert(queue@[k] == pre_q[k]);
                }
                assert forall|j: int|
                    0 <= j < i as int + 1 && (#[trigger] world@[j]).not_instantiated implies exists|
                    k: int| base <= k < queue@.len() && (#[trigger] queue@[k]).0 == j by {
                    if j == i as int {
                        assert(queue@[pre_q.len() as int].0 == i as u32);
                    } else {
                        let k = choose|k: int|
                            base <= k < pre_q.len() && (#[trigger] pre_q[k]).0 == j;
                        assert(queue@[k] == pre_q[k]);
                        assert(queue@[k].0 == j);
                    }
                }
                assert forall|k: int|
                    base <= k < queue@.len() implies queue_entry_ok(
                        world@,
                        #[trigger] queue@[k],
                    ) by {
                    if k < pre_q.len() {
                        assert(queue@[k] == pre_q[k]);
                    }
                }
                assert forall|k: int|
                    base <= k < queue@.len() implies (#[trigger] queue@[k]).0 < i as int
                        + 1 by {
                    if k < pre_q.len() {
                        assert(queue@[k] == pre_q[k]);
                    }
                }
                assert forall|k1: int, k2: int|
                    base <= k1 < k2 < queue@.len() implies (#[trigger] queue@[k1]).0
                    < (#[trigger] queue@[k2]).0 by {
                    assert(queue@[k1] == pre_q[k1]);
                    if k2 < pre_q.len() {
                        assert(queue@[k2] == pre_q[k2]);
                    }
                }
            }
        }
        i = i + 1;
    }
    proof {
        assert(world@.take(n as int) =~= world@);
    }
}

/// How many nodes are tagged as pending.
pub open spec fn pending_count(g: Seq<NodeV>) -> int
    decreases g.len(),
{
    if g.len() == 0 {
        0
    } else {
        pending_count(g.drop_last()) + if g.last().not_instantiated {
            1int
        } else {
            0int
        }
    }
}

impl Graph {
    /// Spawns a node that names a template asset and awaits instantiation,
    /// carrying an optional override patch for the template's data.
    pub fn spawn_prefab(
        &mut self,
        source: Option<PrefabSource>,
        overrides: Option<crate::overrides::StructOverride>,
    ) -> (r: u32)
        requires
            old(self)@.len() < u32::MAX,
        ensures
            r == old(self)@.len(),
            final(self)@.len() == old(self)@.len() + 1,
            final(self)@.take(old(self)@.len() as int) == old(self)@,
            final(self)@.last() == (NodeV {
                source: match source {
                    Some(s) => Some(s.path@),
                    None => None,
                },
                not_instantiated: true,
                transform: Some(Transform::identity_spec()),
                overrides: match overrides {
                    Some(o) => Some(o@),
                    None => None,
                },
                ..NodeV::blank_spec()
            }),
    {
        let mut node = Node::blank();
        node.source = source;
        node.not_instantiated = Some(PrefabNotInstantiatedTag);
        node.transform = Some(Transform::identity());
        node.overrides = overrides;
        let ghost nv = node@;
        let id = self.spawn();
        let slot = self.get_mut(id);
        *slot = node;
        proof {
            assert(final(self)@.take(old(self)@.len() as int) =~= old(self)@);
            assert(final(self)@.last() =~= nv);
        }
        id
    }
}

/// The instance node a template node maps to: the template's own root maps
/// onto the already existing pending node, every other template node onto a
/// fresh node, appended in template order.
pub open spec fn inst_of(proot: u32, root_entity: u32, base: int, t: int) -> u32 {
    if t == proot {
        root_entity
    } else if t < proot {
        (base + t) as u32
    } else {
        (base + t - 1) as u32
    }
}

/// The template-to-instance handle map of one expansion.
pub open spec fn spec_inst_map(prefab: Prefab, root_entity: u32, base: int) -> Map<u32, u32> {
    Map::new(
        |t: u32| t < prefab.world@.len(),
        |t: u32| inst_of(prefab.root_entity, root_entity, base, t as int),
    )
}

/// A fresh instance node: the template node with its references rewritten
/// into instance space and its parent bound — to the translation of its
/// template parent, or under the instantiated root when it has none.
pub open spec fn spec_fresh_node(
    mapper: ComponentEntityMapperRegistry,
    prefab: Prefab,
    root_entity: u32,
    base: int,
    t: int,
) -> NodeV {
    let mapped = spec_map_node(mapper, spec_inst_map(prefab, root_entity, base), prefab.world@[t]);
    NodeV {
        parent: match prefab.world@[t].parent {
            Some(tp) => Some(inst_of(prefab.root_entity, root_entity, base, tp as int)),
            None => Some(root_entity),
        },
        ..mapped
    }
}

/// Records of the template root appended onto the instance root, in order,
/// without clobbering records the instance already carries.
pub open spec fn spec_merge_records(existing: Seq<RecordV>, incoming: Seq<RecordV>) -> Seq<RecordV>
    decreases incoming.len(),
{
    if incoming.len() == 0 {
        existing
    } else {
        let rest = spec_merge_records(existing, incoming.drop_last());
        if exists|i: int|
            0 <= i < rest.len() && (#[trigger] rest[i]).type_tag == incoming.last().type_tag {
            rest
        } else {
            rest.push(incoming.last())
        }
    }
}

/// The instantiated root: the pending marker gone, the template root's
/// records merged in without overriding, the composed transform attached,
/// the transform override consumed, the stored construct consumed, and —
/// for a document-backed template — the override patch applied onto the
/// template's default record.
pub open spec fn spec_expanded_root_v(
    node: NodeV,
    defaults: RecordV,
    base_transform: Transform,
    root_records: Seq<RecordV>,
) -> NodeV {
    NodeV {
        records: spec_merge_records(node.records, root_records),
        not_instantiated: false,
        transform: Some(
            (match node.transform_override {
                Some(t) => t,
                None => crate::PrefabTransformOverride::empty_spec(),
            }).overlay_spec(base_transform),
        ),
        transform_override: None,
        construct: None,
        data: if node.construct is Some {
            node.data
        } else {
            Some(
                apply_struct(
                    match node.overrides {
                        Some(o) => o,
                        None => crate::overrides::StructOverrideV { fields: Seq::empty() },
                    },
                    defaults,
                ),
            )
        },
        ..node
    }
}

/// The template root's records, each reference-bearing one rewritten into
/// instance space.
pub open spec fn spec_mapped_records(
    mapper: ComponentEntityMapperRegistry,
    m: Map<u32, u32>,
    records: Seq<RecordV>,
) -> Seq<RecordV> {
    Seq::new(
        records.len(),
        |j: int|
            if mapper.spec_registered(records[j].type_tag) {
                crate::mapped::spec_map_record(m, records[j])
            } else {
                records[j]
            },
    )
}

/// The instantiated root, under a given template expanded at a given base:
/// the default record and the template root's registered records are first
/// rewritten into instance space, as every other copied node is.
pub open spec fn spec_expanded_root(
    mapper: ComponentEntityMapperRegistry,
    node: NodeV,
    prefab: Prefab,
    root_entity: u32,
    base: int,
) -> NodeV {
    let m = spec_inst_map(prefab, root_entity, base);
    spec_expanded_root_v(
        node,
        crate::mapped::spec_map_record(m, prefab.defaults@),
        prefab.transform,
        spec_mapped_records(mapper, m, prefab.world@[prefab.root_entity as int].records),
    )
}

/// A construct invocation owed to the host after a pass: the node and the
/// stable identifier of the template type whose constructor is to run.
#[derive(Debug, Clone, Copy, PartialEq, Eq, Structural)]
pub struct ConstructRequest {
    pub entity: u32,
    pub uuid: u128,
}

/// The constructor an expanded node owes: its stored procedural construct,
/// else the expected type of its source document.
pub open spec fn spec_construct_uuid(node: NodeV) -> u128 {
    match node.construct {
        Some(u) => u,
        None => match node.expected_type {
            Some(u) => u,
            None => 0,
        },
    }
}

/// Every record type attached anywhere in the template is registered.
pub open spec fn prefab_tags_registered(creg: ComponentDescriptorRegistry, prefab: Prefab) -> bool {
    forall|t: int, j: int|
        0 <= t < prefab.world@.len() && 0 <= j < prefab.world@[t].records.len() ==> creg.has_tag(
            (#[trigger] prefab.world@[t].records[j]).type_tag,
        )
}

/// Every reference inside the template lies within its own graph.
pub open spec fn prefab_refs_closed(mapper: ComponentEntityMapperRegistry, prefab: Prefab) -> bool {
    crate::mapped::graph_refs_in(
        mapper,
        prefab.world@,
        Set::new(|t: u32| t < prefab.world@.len()),
    )
}

/// Every reference of the template's default record lies within its graph.
pub open spec fn prefab_defaults_closed(prefab: Prefab) -> bool {
    crate::mapped::record_refs_in(prefab.defaults@, Set::new(|t: u32| t < prefab.world@.len()))
}

/// A usable template: its designated root lies in its graph.
pub open spec fn prefab_wf(prefab: Prefab) -> bool {
    prefab.root_entity < prefab.world@.len()
}

/// Expands one template into the target graph, onto one pending root node:
/// copies every template node over (the template root onto the pending node
/// itself, without clobbering records it already carries), rewrites the
/// copies' references into instance space, parents them, composes the
/// root's transform, applies the root's override patch onto the template's
/// default record — itself rewritten into instance space first — and hands
/// back the construct invocation the host owes.
#[verifier::loop_isolation(false)]
#[verifier::rlimit(100)]
pub fn prefab_instantiate(
    world: &mut Graph,
    prefab: &Prefab,
    root_entity: u32,
    component_entity_mapper: &ComponentEntityMapperRegistry,
    component_registry: &ComponentDescriptorRegistry,
) -> (r: ConstructRequest)
    requires
        root_entity < old(world)@.len(),
        old(world)@[root_entity as int].not_instantiated,
        prefab_wf(*prefab),
        crate::graph::parents_valid(prefab.world@),
        prefab_refs_closed(*component_entity_mapper, *prefab),
        prefab_defaults_closed(*prefab),
        prefab_tags_registered(*component_registry, *prefab),
        old(world)@.len() + prefab.world@.len() < u32::MAX,
    ensures
        final(world)@.len() == old(world)@.len() + prefab.world@.len() - 1,
        forall|i: int|
            0 <= i < old(world)@.len() && i != root_entity as int ==> #[trigger] final(world)@[i]
                == old(world)@[i],
        final(world)@[root_entity as int] == spec_expanded_root(
            *component_entity_mapper,
            old(world)@[root_entity as int],
            *prefab,
            root_entity,
            old(world)@.len() as int,
        ),
        forall|t: int|
            0 <= t < prefab.world@.len() && t != prefab.root_entity as int
                ==> #[trigger] final(world)@[inst_of(
                prefab.root_entity,
                root_entity,
                old(world)@.len() as int,
                t,
            ) as int] == spec_fresh_node(
                *component_entity_mapper,
                *prefab,
                root_entity,
                old(world)@.len() as int,
                t,
            ),
        r.entity == root_entity,
        r.uuid == spec_construct_uuid(old(world)@[root_entity as int]),
{
    let base_exec = world.len();
    let ghost base = old(world)@.len() as int;
    let tn = prefab.world.len();
    let proot = prefab.root_entity;
    // Copy the template nodes over and build the handle map.
    let mut map = EntityMap::empty();
    let mut t: usize = 0;
    while t < tn
        invariant
            t <= tn,
            tn == prefab.world@.len(),
            proot == prefab.root_entity,
            proot < tn,
            base + tn < u32::MAX,
            world@.len() == base + (if t as int <= proot as int {
                t as int
            } else {
                t as int - 1
            }),
            forall|i: int|
                0 <= i < base && i != root_entity as int ==> #[trigger] world@[i] == old(
                    world,
                )@[i],
            world@[root_entity as int] == old(world)@[root_entity as int],
            forall|u: int|
                0 <= u < t as int && u != proot as int ==> #[trigger] world@[inst_of(
                    proot,
                    root_entity,
                    base,
                    u,
                ) as int] == prefab.world@[u],
            forall|a: u32|
                map@.dom().contains(a) <==> a < t as int,
            forall|a: u32| #[trigger]
                map@.dom().contains(a) ==> map@[a] == inst_of(proot, root_entity, base, a as int),
        decreases tn - t,
    {
        if t as u32 == proot {
            map.insert(t as u32, root_entity);
        } else {
            let nid = world.spawn();
            let tnode = prefab.world.get(t as u32);
            let copy = tnode.duplicate();
            let slot = world.get_mut(nid);
            *slot = copy;
            map.insert(t as u32, nid);
            proof {
                assert(inst_of(proot, root_entity, base, t as int) == nid);
            }
        }
        proof {
            assert forall|a: u32| map@.dom().contains(a) <==> a < t as int + 1 by {}
        }
        t = t + 1;
    }
    proof {
        assert(map@ =~= spec_inst_map(*prefab, root_entity, base));
    }
    // Rewrite the fresh copies into instance space and parent them.
    let mut t: usize = 0;
    while t < tn
        invariant
            t <= tn,
            tn == prefab.world@.len(),
            proot == prefab.root_entity,
            proot < tn,
            base + tn < u32::MAX,
            map@ == spec_inst_map(*prefab, root_entity, base),
            world@.len() == base + tn - 1,
            forall|i: int|
                0 <= i < base && i != root_entity as int ==> #[trigger] world@[i] == old(
                    world,
                )@[i],
            world@[root_entity as int] == old(world)@[root_entity as int],
            forall|u: int|
                t as int <= u < tn && u != proot as int ==> #[trigger] world@[inst_of(
                    proot,
                    root_entity,
                    base,
                    u,
                ) as int] == prefab.world@[u],
            forall|u: int|
                0 <= u < t as int && u != proot as int ==> #[trigger] world@[inst_of(
                    proot,
                    root_entity,
                    base,
                    u,
                ) as int] == spec_fresh_node(
                    *component_entity_mapper,
                    *prefab,
                    root_entity,
                    base,
                    u,
                ),
        decreases tn - t,
    {
        if t as u32 != proot {
            let ghost iid = inst_of(proot, root_entity, base, t as int);
            let nid = if (t as u32) < proot {
                (base_exec + t) as u32
            } else {
                (base_exec + t - 1) as u32
            };
            proof {
                assert(nid == iid);
                assert(world@[nid as int] == prefab.world@[t as int]);
            }
            let node = world.get_mut(nid);
            match component_entity_mapper.map_entity_components(node, &map) {
                Ok(_) => {},
                Err(_) => {
                    proof {
                        assert(node_refs_in(
                            *component_entity_mapper,
                            prefab.world@[t as int],
                            map@.dom(),
                        )) by {
                            assert(crate::mapped::graph_refs_in(
                                *component_entity_mapper,
                                prefab.world@,
                                Set::new(|u: u32| u < prefab.world@.len()),
                            ));
                            assert(node_refs_in(
                                *component_entity_mapper,
                                prefab.world@[t as int],
                                Set::new(|u: u32| u < prefab.world@.len()),
                            ));
                            assert(Set::new(|u: u32| u < prefab.world@.len()) =~= map@.dom());
                        }
                        assert(false);
                    }
                },
            }
            match node.parent {
                Some(tp) => {
                    match map.get(tp) {
                        Some(ip) => {
                            node.parent = Some(ip);
                        },
                        None => {
                            proof {
                                assert(prefab.world@[t as int].parent == Some(tp));
                                assert(tp < prefab.world@.len());
                                assert(map@.dom().contains(tp));
                                assert(false);
                            }
                            node.parent = Some(root_entity);
                        },
                    }
                },
                None => {
                    node.parent = Some(root_entity);
                },
            }
            proof {
                if prefab.world@[t as int].parent is Some {
                    let tp = prefab.world@[t as int].parent->0;
                    if tp < prefab.world@.len() {
                        assert(map@.dom().contains(tp));
                    }
                }
                assert(world@[iid as int] =~= spec_fresh_node(
                    *component_entity_mapper,
                    *prefab,
                    root_entity,
                    base,
                    t as int,
                ));
            }
        }
        t = t + 1;
    }
    // The root: merge the template root's records in without overriding.
    let troot = prefab.world.get(proot);
    let rn = troot.records.len();
    let mut j: usize = 0;
    while j < rn
        invariant
            j <= rn,
            rn == prefab.world@[proot as int].records.len(),
            proot == prefab.root_entity,
            proot < tn,
            tn == prefab.world@.len(),
            root_entity < world@.len(),
            world@.len() == base + tn - 1,
            forall|i: int|
                0 <= i < base && i != root_entity as int ==> #[trigger] world@[i] == old(
                    world,
                )@[i],
            forall|u: int|
                0 <= u < tn && u != proot as int ==> #[trigger] world@[inst_of(
                    proot,
                    root_entity,
                    base,
                    u,
                ) as int] == spec_fresh_node(
                    *component_entity_mapper,
                    *prefab,
                    root_entity,
                    base,
                    u,
                ),
            map@ == spec_inst_map(*prefab, root_entity, base),
            world@[root_entity as int] == (NodeV {
                records: spec_merge_records(
                    old(world)@[root_entity as int].records,
                    spec_mapped_records(
                        *component_entity_mapper,
                        map@,
                        prefab.world@[proot as int].records,
                    ).take(j as int),
                ),
                ..old(world)@[root_entity as int]
            }),
        decreases rn - j,
    {
        let ghost incoming = spec_mapped_records(
            *component_entity_mapper,
            map@,
            prefab.world@[proot as int].records,
        );
        proof {
            assert(incoming.take(j as int + 1).drop_last() =~= incoming.take(j as int));
            assert(incoming.take(j as int + 1).last() == incoming[j as int]);
        }
        let trec = &troot.records[j];
        let rec = if component_entity_mapper.registered(trec.type_tag) {
            match crate::mapped::map_record_refs(&map, trec) {
                Ok(out) => out,
                Err(_) => {
                    proof {
                        assert(node_refs_in(
                            *component_entity_mapper,
                            prefab.world@[proot as int],
                            map@.dom(),
                        )) by {
                            assert(crate::mapped::graph_refs_in(
                                *component_entity_mapper,
                                prefab.world@,
                                Set::new(|u: u32| u < prefab.world@.len()),
                            ));
                            assert(node_refs_in(
                                *component_entity_mapper,
                                prefab.world@[proot as int],
                                Set::new(|u: u32| u < prefab.world@.len()),
                            ));
                            assert(Set::new(|u: u32| u < prefab.world@.len()) =~= map@.dom());
                        }
                        assert(crate::mapped::record_refs_in(
                            prefab.world@[proot as int].records[j as int],
                            map@.dom(),
                        ));
                        assert(false);
                    }
                    trec.duplicate()
                },
            }
        } else {
            trec.duplicate()
        };
        let node = world.get_mut(root_entity);
        node.insert_record_if_absent(rec);
        j = j + 1;
    }
    proof {
        assert(spec_mapped_records(
            *component_entity_mapper,
            map@,
            prefab.world@[proot as int].records,
        ).take(rn as int) =~= spec_mapped_records(
            *component_entity_mapper,
            map@,
            prefab.world@[proot as int].records,
        ));
    }
    // The root: clear the pending marker, compose the transform, consume the
    // override patch and the stored construct.
    let root = world.get_mut(root_entity);
    let uuid = match &root.construct {
        Some(c) => c.0,
        None => match &root.expected_type {
            Some(t) => t.0,
            None => 0,
        },
    };
    root.not_instantiated = None;
    let overlay = match &root.transform_override {
        Some(t) => *t,
        None => crate::PrefabTransformOverride::empty(),
    };
    root.transform = Some(overlay.overlay(&prefab.transform));
    root.transform_override = None;
    let is_procedural = root.construct.is_some();
    root.construct = None;
    if !is_procedural {
        let mut effective = match crate::mapped::map_record_refs(&map, &prefab.defaults) {
            Ok(out) => out,
            Err(_) => {
                proof {
                    assert(crate::mapped::record_refs_in(
                        prefab.defaults@,
                        Set::new(|u: u32| u < prefab.world@.len()),
                    ));
                    assert(Set::new(|u: u32| u < prefab.world@.len()) =~= map@.dom());
                    assert(false);
                }
                prefab.defaults.duplicate()
            },
        };
        match &root.overrides {
            Some(o) => {
                o.apply_override(&mut effective);
            },
            None => {
                let blank = crate::overrides::StructOverride::blank();
                blank.apply_override(&mut effective);
                proof {
                    assert(blank@.fields.len() == 0);
                    assert(effective@ =~= apply_struct(
                        crate::overrides::StructOverrideV { fields: Seq::empty() },
                        crate::mapped::spec_map_record(map@, prefab.defaults@),
                    ));
                }
            },
        }
        root.data = Some(effective);
    }
    proof {
        assert(final(world)@[root_entity as int] =~= spec_expanded_root(
            *component_entity_mapper,
            old(world)@[root_entity as int],
            *prefab,
            root_entity,
            base,
        ));
    }
    ConstructRequest { entity: root_entity, uuid }
}

/// The index an asset lookup denotes is under the path, whenever some entry
/// is.
pub proof fn lemma_asset_index_holds(entries: Seq<AssetEntry>, path: Seq<char>)
    requires
        exists|i: int| 0 <= i < entries.len() && #[trigger] entries[i].path@ == path,
    ensures
        0 <= asset_path_index(entries, path) < entries.len(),
        entries[asset_path_index(entries, path)].path@ == path,
    decreases entries.len(),
{
    if entries.len() > 0 && entries[0].path@ != path {
        let rest = entries.drop_first();
        assert(exists|i: int| 0 <= i < rest.len() && #[trigger] rest[i].path@ == path) by {
            let w = choose|i: int| 0 <= i < entries.len() && #[trigger] entries[i].path@ == path;
            assert(rest[w - 1].path@ == path);
        }
        lemma_asset_index_holds(rest, path);
    }
}

/// Every loaded template is usable: its root and parent links lie in its
/// own graph, its references are closed over it, and every record type it
/// carries is registered.
pub open spec fn assets_wf(
    prefabs: Assets,
    mapper: ComponentEntityMapperRegistry,
    creg: ComponentDescriptorRegistry,
) -> bool {
    forall|i: int|
        0 <= i < prefabs.entries@.len() ==> {
            let p = (#[trigger] prefabs.entries@[i]).prefab;
            &&& prefab_wf(p)
            &&& crate::graph::parents_valid(p.world@)
            &&& prefab_refs_closed(mapper, p)
            &&& prefab_defaults_closed(p)
            &&& prefab_tags_registered(creg, p)
        }
}

/// Whether a pending node's expected source type matches the loaded asset's
/// actual type.
pub open spec fn uuid_ok(
    preg: PrefabDescriptorRegistry,
    node: NodeV,
    prefab: Prefab,
) -> bool {
    match node.expected_type {
        Some(exp) => preg.base.has_tag(prefab.defaults.type_tag) && preg.base.at_tag(
            prefab.defaults.type_tag,
        ).uuid == exp,
        None => true,
    }
}

/// A node whose expansion failed for good: the pending marker replaced by
/// the error marker.
pub open spec fn spec_error_node(node: NodeV) -> NodeV {
    NodeV {
        not_instantiated: false,
        error: Some(PrefabError::WrongExpectedSourcePrefab),
        ..node
    }
}

/// What a pass owes one queue entry: an entry whose source is loaded (or
/// who needs none) ends resolved — no longer pending — unless expanding it
/// would have overflowed the graph's handle space.
pub open spec fn entry_resolution_ok(prefabs: Assets, g: Seq<NodeV>, ent: Instantiate) -> bool {
    match ent.1 {
        Some(s) => prefabs.has_path(s.path@) ==> (!g[ent.0 as int].not_instantiated || g.len()
            + prefabs.at_path(s.path@).world@.len() >= u32::MAX),
        None => !g[ent.0 as int].not_instantiated || g.len() + 1 >= u32::MAX,
    }
}

/// Whether the queue still holds the entry.
pub open spec fn in_queue(q: Seq<Instantiate>, ent: Instantiate) -> bool {
    exists|k: int| 0 <= k < q.len() && q[k] == ent
}

/// What a pass owes one pending node: if its source is loaded (or it needs
/// none), the node at handle `i` ends resolved — no longer pending — unless
/// expanding it would have overflowed the graph's handle space.
pub open spec fn node_resolution_ok(prefabs: Assets, pre: NodeV, g: Seq<NodeV>, i: int) -> bool {
    match pre.source {
        Some(path) => prefabs.has_path(path) ==> (!g[i].not_instantiated || g.len()
            + prefabs.at_path(path).world@.len() >= u32::MAX),
        None => !g[i].not_instantiated || g.len() + 1 >= u32::MAX,
    }
}

/// What a scheduling pass may have done to the node at handle `i`: left it
/// untouched — always so while its asset is not loaded — or, for a pending
/// node, resolved it against its source: a matching asset expanded onto it
/// at some base of fresh handles, a mismatched one marked it failed, and a
/// node without a source expanded as a blank procedural template.
pub open spec fn node_outcome_ok(
    preg: PrefabDescriptorRegistry,
    mapper: ComponentEntityMapperRegistry,
    prefabs: Assets,
    i: int,
    pre: NodeV,
    cur: NodeV,
) -> bool {
    ||| cur == pre
    ||| (pre.not_instantiated && match pre.source {
        Some(path) => prefabs.has_path(path) && (if uuid_ok(preg, pre, prefabs.at_path(path)) {
            exists|base: int|
                base >= 0 && #[trigger] spec_expanded_root(
                    mapper,
                    pre,
                    prefabs.at_path(path),
                    i as u32,
                    base,
                ) == cur
        } else {
            cur == spec_error_node(pre)
        }),
        None => cur == spec_expanded_root_v(
            pre,
            RecordV { type_tag: crate::data::BLANK_PREFAB_TAG, fields: Seq::empty() },
            Transform::identity_spec(),
            Seq::empty(),
        ),
    })
}

/// The stand-in template of a node without a source document: one blank
/// root, no data fields, the identity transform.
pub fn blank_prefab() -> (r: Prefab)
    ensures
        r.root_entity == 0,
        r.world@.len() == 1,
        r.world@[0] == NodeV::blank_spec(),
        r.defaults@ == (RecordV { type_tag: crate::data::BLANK_PREFAB_TAG, fields: Seq::empty() }),
        r.transform == Transform::identity_spec(),
        prefab_wf(r),
        crate::graph::parents_valid(r.world@),
        forall|mapper: ComponentEntityMapperRegistry| prefab_refs_closed(mapper, r),
        forall|creg: ComponentDescriptorRegistry| prefab_tags_registered(creg, r),
        prefab_defaults_closed(r),
{
    let mut world = Graph::empty();
    let root = world.spawn();
    let defaults = Record { type_tag: crate::data::BLANK_PREFAB_TAG, fields: Vec::new() };
    let r = Prefab { root_entity: root, defaults, transform: Transform::identity(), world };
    proof {
        assert(r.defaults@.fields =~= Seq::<crate::values::FieldV>::empty());
        assert forall|mapper: ComponentEntityMapperRegistry| prefab_refs_closed(mapper, r) by {
            assert forall|i: int|
                0 <= i < r.world@.len() implies node_refs_in(
                mapper,
                #[trigger] r.world@[i],
                Set::new(|t: u32| t < r.world@.len()),
            ) by {
                assert(r.world@[i].records.len() == 0);
            }
        }
        assert forall|creg: ComponentDescriptorRegistry| prefab_tags_registered(creg, r) by {
            assert(r.world@[0].records.len() == 0);
        }
        assert(r.defaults@.fields.len() == 0);
    }
    r
}

/// Runs the work queue: every queued node is resolved against its source —
/// expanded, marked failed on a type mismatch, or left untouched while the
/// asset is not loaded — and newly created pending nodes are swept up and
/// resolved in turn, until no new work appears or the round budget runs
/// out.  The construct invocations owed to the host come back, one per
/// expansion.
#[verifier::loop_isolation(false)]
#[verifier::rlimit(100)]
pub fn prefab_spawner(
    world: &mut Graph,
    prefabs: &Assets,
    prefabs_queue: &mut Vec<Instantiate>,
    component_entity_mapper: &ComponentEntityMapperRegistry,
    component_registry: &ComponentDescriptorRegistry,
    prefab_registry: &PrefabDescriptorRegistry,
    fuel: u32,
) -> (requests: Vec<ConstructRequest>)
    requires
        old(world)@.len() <= u32::MAX,
        assets_wf(*prefabs, *component_entity_mapper, *component_registry),
        forall|k: int|
            0 <= k < old(prefabs_queue)@.len() ==> queue_entry_ok(
                old(world)@,
                #[trigger] old(prefabs_queue)@[k],
            ),
        forall|k1: int, k2: int|
            0 <= k1 < k2 < old(prefabs_queue)@.len() ==> (#[trigger] old(prefabs_queue)@[k1]).0
                != (#[trigger] old(prefabs_queue)@[k2]).0,
    ensures
        final(world)@.len() >= old(world)@.len(),
        final(world)@.len() <= u32::MAX,
        forall|i: int|
            0 <= i < old(world)@.len() ==> node_outcome_ok(
                *prefab_registry,
                *component_entity_mapper,
                *prefabs,
                i,
                old(world)@[i],
                #[trigger] final(world)@[i],
            ),
        forall|r1: int, r2: int|
            0 <= r1 < r2 < requests@.len() ==> (#[trigger] requests@[r1]).entity
                != (#[trigger] requests@[r2]).entity,
        forall|r: int|
            0 <= r < requests@.len() ==> {
                let e = (#[trigger] requests@[r]).entity;
                &&& e < final(world)@.len()
                &&& !final(world)@[e as int].not_instantiated
                &&& (e >= old(world)@.len() || old(world)@[e as int].not_instantiated)
                &&& (e < old(world)@.len() ==> requests@[r].uuid == spec_construct_uuid(
                    old(world)@[e as int],
                ))
            },
        forall|k: int|
            0 <= k < old(prefabs_queue)@.len() ==> entry_resolution_ok(
                *prefabs,
                final(world)@,
                #[trigger] old(prefabs_queue)@[k],
            ),
        old(prefabs_queue)@.len() == 0 ==> final(world)@ == old(world)@ && requests@.len() == 0,
{
    let ghost old_len = old(world)@.len() as int;
    let ghost old_q = old(prefabs_queue)@;
    let blank = blank_prefab();
    let mut requests: Vec<ConstructRequest> = Vec::new();
    let mut blacklist: Vec<u32> = Vec::new();
    let mut fuel_left = fuel;
    while prefabs_queue.len() > 0
        invariant
            world@.len() >= old_len,
            world@.len() <= u32::MAX,
            old_q.len() == 0 ==> world@ == old(world)@ && requests@.len() == 0
                && prefabs_queue@.len() == 0,
            forall|i: int|
                0 <= i < old_len ==> node_outcome_ok(
                    *prefab_registry,
                    *component_entity_mapper,
                    *prefabs,
                    i,
                    old(world)@[i],
                    #[trigger] world@[i],
                ),
            forall|k: int|
                0 <= k < prefabs_queue@.len() ==> queue_entry_ok(
                    world@,
                    #[trigger] prefabs_queue@[k],
                ),
            forall|k1: int, k2: int|
                0 <= k1 < k2 < prefabs_queue@.len() ==> (#[trigger] prefabs_queue@[k1]).0
                    != (#[trigger] prefabs_queue@[k2]).0,
            forall|r1: int, r2: int|
                0 <= r1 < r2 < requests@.len() ==> (#[trigger] requests@[r1]).entity
                    != (#[trigger] requests@[r2]).entity,
            forall|r: int|
                0 <= r < requests@.len() ==> {
                    let e = (#[trigger] requests@[r]).entity;
                    &&& e < world@.len()
                    &&& !world@[e as int].not_instantiated
                    &&& (e >= old_len || old(world)@[e as int].not_instantiated)
                    &&& (e < old_len ==> requests@[r].uuid == spec_construct_uuid(
                        old(world)@[e as int],
                    ))
                },
            forall|k: int|
                0 <= k < old_q.len() ==> in_queue(prefabs_queue@, #[trigger] old_q[k])
                    || entry_resolution_ok(*prefabs, world@, old_q[k]),
        decreases fuel_left, prefabs_queue@.len(),
    {
        let ghost q_before_pop = prefabs_queue@;
        let entry = match prefabs_queue.pop() {
            Some(entry) => entry,
            None => {
                proof {
                    assert(false);
                }
                Instantiate(0, None)
            },
        };
        let Instantiate(root_entity, source) = entry;
        let ghost popped = q_before_pop.last();
        let ghost pre_world = world@;
        let ghost pre_node = world@[root_entity as int];
        proof {
            assert(popped.0 == root_entity);
        }
        match &source {
            None => {
                // A procedural template: expand as a blank source.
                if world.len() < (u32::MAX - 1) as usize {
                    let req = prefab_instantiate(
                        world,
                        &blank,
                        root_entity,
                        component_entity_mapper,
                        component_registry,
                    );
                    proof {
                        let m = spec_inst_map(blank, root_entity, pre_world.len() as int);
                        assert(crate::mapped::spec_map_record(m, blank.defaults@) =~= (RecordV {
                            type_tag: crate::data::BLANK_PREFAB_TAG,
                            fields: Seq::empty(),
                        }));
                        assert(spec_mapped_records(*component_entity_mapper, m, blank.world@[0].records)
                            =~= Seq::<RecordV>::empty());
                        assert(world@[root_entity as int] == spec_expanded_root_v(
                            pre_node,
                            RecordV {
                                type_tag: crate::data::BLANK_PREFAB_TAG,
                                fields: Seq::empty(),
                            },
                            Transform::identity_spec(),
                            Seq::empty(),
                        ));
                        if root_entity < old_len {
                            assert(pre_node == old(world)@[root_entity as int]) by {
                                assert(node_outcome_ok(
                                    *prefab_registry,
                                    *component_entity_mapper,
                                    *prefabs,
                                    root_entity as int,
                                    old(world)@[root_entity as int],
                                    pre_world[root_entity as int],
                                ));
                            }
                        }
                    }
                    requests.push(req);
                } else {
                    blacklist.push(root_entity);
                }
            },
            Some(s) => {
                match prefabs.get(&s.path) {
                    None => {
                        blacklist.push(root_entity);
                    },
                    Some(asset) => {
                        proof {
                            lemma_asset_index_holds(prefabs.entries@, s.path@);
                        }
                        let type_matches = match &world.get(root_entity).expected_type {
                            Some(expected) => {
                                match prefab_registry.base.find_by_type(asset.defaults.type_tag) {
                                    Some(d) => d.uuid == expected.0,
                                    None => false,
                                }
                            },
                            None => true,
                        };
                        if !type_matches {
                            // Terminal: mark the node failed without loading.
                            let node = world.get_mut(root_entity);
                            node.not_instantiated = None;
                            node.error = Some(
                                PrefabErrorTag(PrefabError::WrongExpectedSourcePrefab),
                            );
                            proof {
                                assert(world@[root_entity as int] =~= spec_error_node(pre_node));
                                if root_entity < old_len {
                                    assert(pre_node == old(world)@[root_entity as int]) by {
                                        assert(node_outcome_ok(
                                            *prefab_registry,
                                            *component_entity_mapper,
                                            *prefabs,
                                            root_entity as int,
                                            old(world)@[root_entity as int],
                                            pre_world[root_entity as int],
                                        ));
                                    }
                                }
                            }
                        } else {
                            let limit: u64 = 0xffff_ffff;
                            let aw = asset.world.len();
                            let fits = aw < (u32::MAX as usize) && (world.len() as u64) + (aw
                                as u64) < limit;
                            if fits {
                                let req = prefab_instantiate(
                                    world,
                                    asset,
                                    root_entity,
                                    component_entity_mapper,
                                    component_registry,
                                );
                                proof {
                                    assert(spec_expanded_root(
                                        *component_entity_mapper,
                                        pre_node,
                                        *asset,
                                        root_entity,
                                        pre_world.len() as int,
                                    ) == world@[root_entity as int]);
                                    if root_entity < old_len {
                                        assert(pre_node == old(world)@[root_entity as int]) by {
                                            assert(node_outcome_ok(
                                                *prefab_registry,
                                                *component_entity_mapper,
                                                *prefabs,
                                                root_entity as int,
                                                old(world)@[root_entity as int],
                                                pre_world[root_entity as int],
                                            ));
                                        }
                                    }
                                }
                                requests.push(req);
                            } else {
                                blacklist.push(root_entity);
                            }
                        }
                    },
                }
            },
        }
        proof {
            assert forall|k: int|
                0 <= k < old_q.len() implies in_queue(prefabs_queue@, #[trigger] old_q[k])
                || entry_resolution_ok(*prefabs, world@, old_q[k]) by {
                if in_queue(q_before_pop, old_q[k]) {
                    let w = choose|w: int|
                        0 <= w < q_before_pop.len() && q_before_pop[w] == old_q[k];
                    if w < q_before_pop.len() - 1 {
                        assert(prefabs_queue@[w] == old_q[k]);
                        assert(in_queue(prefabs_queue@, old_q[k]));
                    } else {
                        assert(old_q[k] == popped);
                        assert(entry_resolution_ok(*prefabs, world@, popped));
                    }
                } else {
                    assert(entry_resolution_ok(*prefabs, pre_world, old_q[k]));
                    assert(world@.len() >= pre_world.len());
                    assert(old_q[k].0 < pre_world.len());
                    if !pre_world[old_q[k].0 as int].not_instantiated {
                        assert(world@[old_q[k].0 as int] == pre_world[old_q[k].0 as int]);
                    }
                }
            }
        }
        if prefabs_queue.len() == 0 && fuel_left > 0 {
            fuel_left = fuel_left - 1;
            let mut rescan: Vec<Instantiate> = Vec::new();
            enqueue_prefab_not_instantiated(world, &mut rescan);
            let m = rescan.len();
            let mut k: usize = 0;
            while k < m
                invariant
                    k <= m,
                    m == rescan@.len(),
                    forall|j: int|
                        0 <= j < rescan@.len() ==> queue_entry_ok(world@, #[trigger] rescan@[j]),
                    forall|j1: int, j2: int|
                        0 <= j1 < j2 < rescan@.len() ==> (#[trigger] rescan@[j1]).0
                            != (#[trigger] rescan@[j2]).0,
                    forall|j: int|
                        0 <= j < prefabs_queue@.len() ==> queue_entry_ok(
                            world@,
                            #[trigger] prefabs_queue@[j],
                        ),
                    forall|j1: int, j2: int|
                        0 <= j1 < j2 < prefabs_queue@.len() ==> (#[trigger] prefabs_queue@[j1]).0
                            != (#[trigger] prefabs_queue@[j2]).0,
                    forall|j: int|
                        0 <= j < prefabs_queue@.len() ==> exists|v: int|
                            0 <= v < k as int && (#[trigger] prefabs_queue@[j]).0 == rescan@[v].0,
                decreases m - k,
            {
                let keep = !crate::manager::blacklist_contains(&blacklist, rescan[k].0);
                if keep {
                    let item = Instantiate(
                        rescan[k].0,
                        match &rescan[k].1 {
                            Some(s) => Some(PrefabSource { path: s.path.clone() }),
                            None => None,
                        },
                    );
                    proof {
                        assert(queue_entry_ok(world@, item)) by {
                            assert(queue_entry_ok(world@, rescan@[k as int]));
                        }
                        assert forall|j: int|
                            0 <= j < prefabs_queue@.len() implies (#[trigger] prefabs_queue@[j]).0
                            != item.0 by {
                            let v = choose|v: int|
                                0 <= v < k as int && (#[trigger] prefabs_queue@[j]).0
                                    == rescan@[v].0;
                            assert(rescan@[v].0 != rescan@[k as int].0);
                        }
                    }
                    prefabs_queue.push(item);
                }
                k = k + 1;
            }
        }
    }
    requests
}

/// Whether the blacklist holds the node.
pub fn blacklist_contains(v: &Vec<u32>, x: u32) -> (r: bool)
    ensures
        r == v@.contains(x),
{
    let n = v.len();
    let mut i: usize = 0;
    while i < n
        invariant
            n == v@.len(),
            i <= n,
            forall|j: int| 0 <= j < i as int ==> v@[j] != x,
        decreases n - i,
    {
        if v[i] == x {
            return true;
        }
        i = i + 1;
    }
    false
}

/// One scheduling pass, as the host invokes it each tick: sweeps the graph
/// for pending nodes and runs the work queue over the loaded templates.
pub fn prefab_managing_system(
    world: &mut Graph,
    prefabs: &Assets,
    registry: &crate::de::PrefabDeserializer,
    fuel: u32,
) -> (requests: Vec<ConstructRequest>)
    requires
        old(world)@.len() <= u32::MAX,
        assets_wf(*prefabs, registry.component_entity_mapper, registry.component_registry),
    ensures
        final(world)@.len() >= old(world)@.len(),
        final(world)@.len() <= u32::MAX,
        forall|i: int|
            0 <= i < old(world)@.len() ==> node_outcome_ok(
                registry.prefab_registry,
                registry.component_entity_mapper,
                *prefabs,
                i,
                old(world)@[i],
                #[trigger] final(world)@[i],
            ),
        forall|r1: int, r2: int|
            0 <= r1 < r2 < requests@.len() ==> (#[trigger] requests@[r1]).entity
                != (#[trigger] requests@[r2]).entity,
        forall|r: int|
            0 <= r < requests@.len() ==> {
                let e = (#[trigger] requests@[r]).entity;
                &&& e < final(world)@.len()
                &&& !final(world)@[e as int].not_instantiated
                &&& (e >= old(world)@.len() || old(world)@[e as int].not_instantiated)
                &&& (e < old(world)@.len() ==> requests@[r].uuid == spec_construct_uuid(
                    old(world)@[e as int],
                ))
            },
        forall|i: int|
            0 <= i < old(world)@.len() && (#[trigger] old(world)@[i]).not_instantiated
                ==> node_resolution_ok(*prefabs, old(world)@[i], final(world)@, i),
        pending_count(old(world)@) == 0 ==> final(world)@ == old(world)@ && requests@.len() == 0,
{
    let mut prefabs_queue: Vec<Instantiate> = Vec::new();
    enqueue_prefab_not_instantiated(world, &mut prefabs_queue);
    let ghost q = prefabs_queue@;
    let requests = prefab_spawner(
        world,
        prefabs,
        &mut prefabs_queue,
        &registry.component_entity_mapper,
        &registry.component_registry,
        &registry.prefab_registry,
        fuel,
    );
    proof {
        assert forall|i: int|
            0 <= i < old(world)@.len() && (#[trigger] old(world)@[i]).not_instantiated implies
        node_resolution_ok(*prefabs, old(world)@[i], final(world)@, i) by {
            let k = choose|k: int| 0 <= k < q.len() && (#[trigger] q[k]).0 == i;
            assert(queue_entry_ok(old(world)@, q[k]));
            assert(entry_resolution_ok(*prefabs, final(world)@, q[k]));
        }
    }
    requests
}

} // verus!
