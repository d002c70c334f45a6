//! The engine's cross-cutting guarantees, each proved from the contracts the
//! components state: what decoding, reference rewriting, overriding and
//! scheduling promise when taken together.

use vstd::prelude::*;

use crate::component::ComponentDescriptorRegistry;
use crate::de::{spec_doc_valid, spec_decoded, spec_element_node, spec_element_parent,
    spec_scene_items, spec_body_id, spec_element_id};
use crate::document::DocValue;
use crate::graph::NodeV;
use crate::mapped::{spec_map_node, spec_map_record, ComponentEntityMapperRegistry};
use crate::manager::{node_outcome_ok, spec_fresh_node, Assets, spec_inst_map};
use crate::overrides::{apply_struct, apply_value, StructOverrideV};
use crate::prefab::PrefabDescriptorRegistry;
use crate::values::{RecordV, ValueV};
use crate::Prefab;

verus! {

/// A document in which two scene elements declare the same author id, or in
/// which a scene element declares the root's own id, is never well formed:
/// decoding must reject it.
pub proof fn lemma_conflicting_ids_rejected(
    creg: ComponentDescriptorRegistry,
    preg: PrefabDescriptorRegistry,
    mapper: ComponentEntityMapperRegistry,
    doc: DocValue,
    i: int,
    j: int,
)
    requires
        doc matches DocValue::Tagged(alias, body) && *body matches DocValue::Dict(entries) && {
            let items = spec_scene_items(entries@);
            &&& 0 <= i < j < items.len()
            &&& spec_element_id(items[i]) is Some
            &&& spec_element_id(items[i]) == spec_element_id(items[j])
        },
    ensures
        !spec_doc_valid(creg, preg, mapper, doc),
{
}

/// A generated author id never equals any declared id: whatever id the
/// generator hands back, it lies outside every set that holds all the
/// declared ids.
pub proof fn lemma_generated_id_fresh(declared: Seq<u32>, generated: u32, a: u32)
    requires
        !declared.contains(generated),
        declared.contains(a),
    ensures
        generated != a,
{
}

/// After a whole-graph rewriting pass, no reference-bearing field of a
/// registered record still holds an author-space id: every one of them is
/// the map's translation of a declared id, and so a valid handle of the
/// target space whenever the map's translations are.
pub proof fn lemma_remap_completeness(
    reg: ComponentEntityMapperRegistry,
    m: Map<u32, u32>,
    g: Seq<NodeV>,
    out: Seq<NodeV>,
    target_len: int,
    i: int,
    j: int,
    f: int,
)
    requires
        out == crate::mapped::spec_map_graph(reg, m, g),
        crate::mapped::graph_refs_in(reg, g, m.dom()),
        forall|a: u32| m.dom().contains(a) ==> #[trigger] m[a] < target_len,
        0 <= i < g.len(),
        0 <= j < g[i].records.len(),
        reg.spec_registered(g[i].records[j].type_tag),
        0 <= f < g[i].records[j].fields.len(),
        g[i].records[j].fields[f].value is Ref,
    ensures
        out[i].records[j].fields[f].value matches ValueV::Ref(e) && {
            &&& m.dom().contains(g[i].records[j].fields[f].value->Ref_0)
            &&& e == m[g[i].records[j].fields[f].value->Ref_0]
            &&& e < target_len
        },
{
    assert(crate::mapped::node_refs_in(reg, g[i], m.dom()));
    assert(crate::mapped::record_refs_in(g[i].records[j], m.dom()));
    assert(out[i] == spec_map_node(reg, m, g[i]));
    assert(out[i].records[j] == spec_map_record(m, g[i].records[j]));
}

/// While an asset is unresolved, a scheduling pass leaves the pending
/// node's attached data untouched: run after run, until the asset loads.
pub proof fn lemma_unresolved_unchanged(
    preg: PrefabDescriptorRegistry,
    mapper: ComponentEntityMapperRegistry,
    prefabs: Assets,
    i: int,
    pre: NodeV,
    cur: NodeV,
    path: Seq<char>,
)
    requires
        node_outcome_ok(preg, mapper, prefabs, i, pre, cur),
        pre.not_instantiated,
        pre.source == Some(path),
        !prefabs.has_path(path),
    ensures
        cur == pre,
{
}

/// Once a node is resolved, a later scheduling pass leaves it alone: the
/// expansion happens exactly once, never duplicated on subsequent passes.
pub proof fn lemma_resolved_node_left_alone(
    preg: PrefabDescriptorRegistry,
    mapper: ComponentEntityMapperRegistry,
    prefabs: Assets,
    i: int,
    pre: NodeV,
    cur: NodeV,
)
    requires
        node_outcome_ok(preg, mapper, prefabs, i, pre, cur),
        !pre.not_instantiated,
    ensures
        cur == pre,
{
}

/// Override precedence: applying a patch onto a record overwrites exactly
/// the fields the patch names — each takes its override — and every other
/// field keeps the base value, for every patch and every record.
pub proof fn lemma_override_precedence(ov: StructOverrideV, base: RecordV, i: int)
    requires
        0 <= i < base.fields.len(),
    ensures
        apply_struct(ov, base).fields.len() == base.fields.len(),
        apply_struct(ov, base).type_tag == base.type_tag,
        apply_struct(ov, base).fields[i].name == base.fields[i].name,
        !ov.has_field(base.fields[i].name) ==> apply_struct(ov, base).fields[i].value
            == base.fields[i].value,
        ov.has_field(base.fields[i].name) ==> apply_struct(ov, base).fields[i].value
            == apply_value(ov.field_value(base.fields[i].name), base.fields[i].value),
{
}

/// Round trip: a record field of a scene element that carries no node
/// reference reads back, on the instance node the scheduler created for the
/// element, exactly as the document authored it.  Identifier-bearing fields
/// are rewritten instead, as `lemma_remap_completeness` states.
pub proof fn lemma_round_trip(
    creg: ComponentDescriptorRegistry,
    preg: PrefabDescriptorRegistry,
    mapper: ComponentEntityMapperRegistry,
    doc: DocValue,
    prefab: Prefab,
    inst: NodeV,
    root_entity: u32,
    base: int,
    i: int,
    j: int,
    f: int,
)
    requires
        spec_doc_valid(creg, preg, mapper, doc),
        prefab@ == spec_decoded(creg, preg, mapper, doc),
        ({
            let items = spec_scene_items((*doc->Tagged_1)->Dict_0@);
            let authored = spec_element_node(creg, preg, items[i]);
            &&& 0 <= i < items.len()
            &&& 0 <= j < authored.records.len()
            &&& 0 <= f < authored.records[j].fields.len()
            &&& !(authored.records[j].fields[f].value is Ref)
        }),
        inst == spec_fresh_node(mapper, prefab, root_entity, base, i + 1),
    ensures
        ({
            let items = spec_scene_items((*doc->Tagged_1)->Dict_0@);
            let authored = spec_element_node(creg, preg, items[i]);
            &&& inst.records.len() == authored.records.len()
            &&& inst.records[j].fields.len() == authored.records[j].fields.len()
            &&& inst.records[j].type_tag == authored.records[j].type_tag
            &&& inst.records[j].fields[f] == authored.records[j].fields[f]
        }),
{
    let entries = (*doc->Tagged_1)->Dict_0@;
    let items = spec_scene_items(entries);
    let root_id = spec_body_id(entries);
    let m = crate::de::spec_binding(items, root_id);
    let pre = crate::de::spec_pre_nodes(creg, preg, entries, items);
    let mapped = crate::mapped::spec_map_graph(mapper, m, pre);
    let authored = spec_element_node(creg, preg, items[i]);
    let t = i + 1;
    // The decoded template node for element `i` is the authored node with
    // its references rewritten and possibly a parent bound.
    assert(prefab@.world[t].records == spec_map_node(mapper, m, pre[t]).records);
    assert(pre[t] == authored);
    assert(prefab.world@[t] == prefab@.world[t]);
    // Rewriting preserves every field that holds no reference.
    lemma_map_preserves_non_refs(mapper, m, authored, prefab@.world[t], j, f);
    // The instance node is the template node rewritten once more.
    let im = spec_inst_map(prefab, root_entity, base);
    assert(inst.records == spec_map_node(mapper, im, prefab.world@[t]).records);
    assert(prefab@.world[t].records[j].fields[f] == authored.records[j].fields[f]);
    assert(!(prefab@.world[t].records[j].fields[f].value is Ref));
    lemma_map_preserves_non_refs(
        mapper,
        im,
        prefab@.world[t],
        NodeV { records: inst.records, ..prefab@.world[t] },
        j,
        f,
    );
}

/// A template the decoder handed out is usable as a source of expansion:
/// its designated root is its first node, every parent link lies inside its
/// own graph, and every reference a registered record or an override patch
/// holds is a handle of its own graph.
pub proof fn lemma_decoded_template_usable(
    creg: ComponentDescriptorRegistry,
    preg: PrefabDescriptorRegistry,
    mapper: ComponentEntityMapperRegistry,
    doc: DocValue,
    prefab: Prefab,
)
    requires
        spec_doc_valid(creg, preg, mapper, doc),
        prefab@ == spec_decoded(creg, preg, mapper, doc),
    ensures
        crate::manager::prefab_wf(prefab),
        crate::graph::parents_valid(prefab.world@),
        crate::manager::prefab_refs_closed(mapper, prefab),
        crate::manager::prefab_defaults_closed(prefab),
{
    let entries = (*doc->Tagged_1)->Dict_0@;
    let items = spec_scene_items(entries);
    let root_id = spec_body_id(entries);
    let m = crate::de::spec_binding(items, root_id);
    let pre = crate::de::spec_pre_nodes(creg, preg, entries, items);
    let mapped = crate::mapped::spec_map_graph(mapper, m, pre);
    let w = prefab.world@;
    let n = w.len() as int;
    assert(prefab@.world == w);
    assert(n == items.len() + 1);
    assert(prefab.root_entity == 0);
    // Every translation the binding holds is a handle of the template graph.
    assert forall|a: u32| m.dom().contains(a) implies #[trigger] m[a] < n by {
        if !(root_id == Some(a)) {
            crate::de::lemma_element_id_index_holds(items, a);
        }
    }
    // Parent links: the root has none; an element node carries either the
    // translation of a declared id, or none.
    assert forall|i: int| 0 <= i < n implies match (#[trigger] w[i]).parent {
        Some(p) => p < n,
        None => true,
    } by {
        lemma_pre_node_parent_none(creg, preg, entries, items, i);
        if i >= 1 && spec_element_parent(items[i - 1]) is Some {
            let p = spec_element_parent(items[i - 1])->0;
            assert(crate::de::declared_in(items, root_id, p));
            assert(m.dom().contains(p));
            assert(w[i].parent == Some(m[p]));
        } else {
            assert(w[i] == mapped[i]);
            assert(w[i].parent == pre[i].parent);
        }
    }
    // References: the validity of the document puts every reference of the
    // pre-rewrite graph in the binding's domain, and rewriting turns each
    // into a bounded handle.
    let dom_set = Set::new(|t: u32| t < prefab.world@.len());
    assert forall|i: int|
        0 <= i < n implies crate::mapped::node_refs_in(mapper, #[trigger] w[i], dom_set) by {
        assert(crate::mapped::node_refs_in(mapper, pre[i], m.dom()));
        assert(w[i].records == mapped[i].records);
        assert(w[i].overrides == mapped[i].overrides);
        assert(mapped[i] == spec_map_node(mapper, m, pre[i]));
        lemma_mapped_node_refs_bounded(mapper, m, pre[i], n);
        assert(crate::mapped::node_refs_in(
            mapper,
            spec_map_node(mapper, m, pre[i]),
            Set::new(|t: u32| t < n),
        ));
        assert(dom_set =~= Set::new(|t: u32| t < n));
        assert(crate::mapped::node_refs_in(mapper, w[i], dom_set)) by {
            let out = spec_map_node(mapper, m, pre[i]);
            assert forall|j: int|
                0 <= j < w[i].records.len() && mapper.spec_registered(
                    (#[trigger] w[i].records[j]).type_tag,
                ) implies crate::mapped::record_refs_in(w[i].records[j], dom_set) by {
                assert(w[i].records[j] == out.records[j]);
                assert(crate::mapped::record_refs_in(out.records[j], Set::new(|t: u32| t < n)));
            }
        }
    }
    // The default record was itself rewritten through the binding, so each
    // of its references is a bounded handle too.
    let raw = crate::de::spec_defaults(preg.base.at_alias(doc->Tagged_0@), entries);
    assert(prefab.defaults@ == spec_map_record(m, raw));
    assert(crate::mapped::record_refs_in(raw, m.dom()));
    assert forall|f: int|
        0 <= f < prefab.defaults@.fields.len() implies match (#[trigger] prefab.defaults@.fields[f].value) {
        ValueV::Ref(e) => dom_set.contains(e),
        _ => true,
    } by {
        assert(prefab.defaults@.fields[f].value == crate::mapped::spec_map_value(
            m,
            raw.fields[f].value,
        ));
        match raw.fields[f].value {
            ValueV::Ref(a) => {
                assert(m.dom().contains(a));
            },
            _ => {},
        }
    }
}

/// Every node of the pre-rewrite template graph has no parent link yet:
/// parents are bound only by the later resolution pass.
proof fn lemma_pre_node_parent_none(
    creg: ComponentDescriptorRegistry,
    preg: PrefabDescriptorRegistry,
    entries: Seq<crate::document::DocEntry>,
    items: Seq<DocValue>,
    i: int,
)
    requires
        0 <= i < items.len() + 1,
    ensures
        crate::de::spec_pre_nodes(creg, preg, entries, items)[i].parent is None,
{
    if i == 0 {
        crate::de::lemma_components_effect_markers(
            creg,
            crate::de::spec_components_items(entries),
            NodeV::blank_spec(),
        );
    } else {
        match items[i - 1] {
            DocValue::Tagged(tag, body) => {
                match *body {
                    DocValue::Dict(e) => {
                        crate::de::lemma_components_effect_markers(
                            creg,
                            crate::de::spec_components_items(e@),
                            NodeV::blank_spec(),
                        );
                    },
                    _ => {},
                }
            },
            _ => {},
        }
    }
}

/// Rewriting a node through a map whose translations are bounded leaves all
/// its registered references bounded.
proof fn lemma_mapped_node_refs_bounded(
    mapper: ComponentEntityMapperRegistry,
    m: Map<u32, u32>,
    node: NodeV,
    bound: int,
)
    requires
        crate::mapped::node_refs_in(mapper, node, m.dom()),
        forall|a: u32| m.dom().contains(a) ==> #[trigger] m[a] < bound,
    ensures
        crate::mapped::node_refs_in(
            mapper,
            spec_map_node(mapper, m, node),
            Set::new(|t: u32| t < bound),
        ),
{
    let out = spec_map_node(mapper, m, node);
    let dom = Set::new(|t: u32| t < bound);
    assert forall|j: int|
        0 <= j < out.records.len() && mapper.spec_registered(
            (#[trigger] out.records[j]).type_tag,
        ) implies crate::mapped::record_refs_in(out.records[j], dom) by {
        assert(out.records[j] == spec_map_record(m, node.records[j]));
        assert(node.records[j].type_tag == out.records[j].type_tag);
        assert(crate::mapped::record_refs_in(node.records[j], m.dom()));
        assert forall|f: int|
            0 <= f < out.records[j].fields.len() implies match (#[trigger] out.records[j].fields[f].value) {
            ValueV::Ref(e) => dom.contains(e),
            _ => true,
        } by {
            assert(out.records[j].fields[f].value == crate::mapped::spec_map_value(
                m,
                node.records[j].fields[f].value,
            ));
            match node.records[j].fields[f].value {
                ValueV::Ref(a) => {
                    assert(m.dom().contains(a));
                },
                _ => {},
            }
        }
    }
    match node.overrides {
        Some(o) => {
            assert(out.overrides == Some(crate::mapped::spec_map_override(m, o)));
            let oo = crate::mapped::spec_map_override(m, o);
            assert forall|f: int|
                0 <= f < oo.fields.len() implies match (#[trigger] oo.fields[f].value) {
                crate::overrides::OverrideValueV::Whole(ValueV::Ref(e)) => dom.contains(e),
                _ => true,
            } by {
                match o.fields[f].value {
                    crate::overrides::OverrideValueV::Whole(ValueV::Ref(a)) => {
                        assert(m.dom().contains(a));
                        assert(oo.fields[f].value == crate::overrides::OverrideValueV::Whole(
                            ValueV::Ref(m[a]),
                        ));
                    },
                    _ => {},
                }
            }
            assert(oo.refs_in(dom));
        },
        None => {},
    }
}

/// Rewriting a node's references leaves the shape of its records, and every
/// field holding no reference, untouched.
proof fn lemma_map_preserves_non_refs(
    mapper: ComponentEntityMapperRegistry,
    m: Map<u32, u32>,
    node: NodeV,
    out: NodeV,
    j: int,
    f: int,
)
    requires
        out.records == spec_map_node(mapper, m, node).records,
        0 <= j < node.records.len(),
        0 <= f < node.records[j].fields.len(),
        !(node.records[j].fields[f].value is Ref),
    ensures
        out.records.len() == node.records.len(),
        out.records[j].type_tag == node.records[j].type_tag,
        out.records[j].fields.len() == node.records[j].fields.len(),
        out.records[j].fields[f] == node.records[j].fields[f],
{
    if mapper.spec_registered(node.records[j].type_tag) {
        assert(out.records[j] == spec_map_record(m, node.records[j]));
        assert(out.records[j].fields[f].value == crate::mapped::spec_map_value(
            m,
            node.records[j].fields[f].value,
        ));
    }
}

} // verus!
