//! Collecting the elements that a KeyValues2 text stores, and which of them
//! stand at the top level of the text.
//!
//! The walk is depth first: an element is collected, then the references of
//! its attributes are met in order; an element met for the first time is
//! walked at once. An element stands at the top level when it is the root,
//! when the text is flat, or when it is met again after it was collected;
//! the others are written inside the attribute that first refers to them.
//! Elements are told apart by id.

use vstd::prelude::*;
use indexmap::IndexMap;
use crate::attribute::{AttributeValue, SpecAttributeValue, UuidBytes};
use crate::collections::{
    attribute_entries, attribute_map_get_index, attribute_map_len, id_map_entries,
    id_map_get_index_of, id_map_insert, id_map_new, key_position, lemma_key_position,
};
use crate::element::{entries_view, ElementGraph, ElementView};
use crate::serializers::collect::{
    attribute_refs, distinct_ids, graph_refs_in, id_entries, id_map_view, lemma_attribute_refs_push,
    lemma_collected_len, lemma_id_map_key_position, lemma_some_refs_push, ref_in, some_refs,
    value_refs, value_refs_in,
};

verus! {

/// The state of the walk: the collected elements and whether each stands at the top level.
pub struct KvCollected {
    pub c: Seq<usize>,
    pub top: Seq<bool>,
}

/// Collecting `root` (not yet collected) and walking its references, with
/// `fuel` as a bound on the depth of the walk.
pub open spec fn kv_collect(g: Seq<ElementView>, st: KvCollected, root: usize, flat: bool, fuel: nat) -> KvCollected
    decreases fuel, 0nat,
{
    if fuel == 0 {
        st
    } else {
        let st1 = kv_state(st.c.push(root), st.top.push(flat || st.c.len() == 0));
        kv_collect_refs(g, st1, attribute_refs(g[root as int].attributes), flat, (fuel - 1) as nat)
    }
}

/// Meeting references in order: one already collected now stands at the top
/// level; one not yet collected is walked.
pub open spec fn kv_collect_refs(g: Seq<ElementView>, st: KvCollected, refs: Seq<usize>, flat: bool, fuel: nat) -> KvCollected
    decreases fuel, refs.len() + 1,
{
    if refs.len() == 0 {
        st
    } else {
        let st1 = kv_collect_refs(g, st, refs.drop_last(), flat, fuel);
        let r = refs.last();
        match key_position(id_entries(g, st1.c), g[r as int].id) {
            Some(i) => kv_mark(st1, i),
            None => kv_collect(g, st1, r, flat, fuel),
        }
    }
}

/// The elements that `root` reaches and their places in the text.
pub open spec fn kv_collect_all(g: Seq<ElementView>, root: usize, flat: bool) -> KvCollected {
    kv_collect(g, kv_state(seq![], seq![]), root, flat, g.len() + 1)
}

/// A walk state.
pub open spec fn kv_state(c: Seq<usize>, top: Seq<bool>) -> KvCollected {
    KvCollected { c, top }
}

/// Marking the collected element at position `i` as standing at the top level.
pub open spec fn kv_mark(st: KvCollected, i: int) -> KvCollected {
    KvCollected { top: st.top.update(i, true), ..st }
}

/// The walk state in code agrees with a specification state.
pub open spec fn kv_state_inv(g: Seq<ElementView>, order: Seq<usize>, top: Seq<bool>, ids: Seq<(UuidBytes, usize)>) -> bool {
    &&& id_map_view(ids) == id_entries(g, order)
    &&& distinct_ids(g, order)
    &&& top.len() == order.len()
    &&& forall|i: int| 0 <= i < order.len() ==> order[i] < g.len()
}

/// Meeting one more reference after a list.
proof fn lemma_kv_refs_push(g: Seq<ElementView>, st: KvCollected, refs: Seq<usize>, r: usize, flat: bool, fuel: nat)
    ensures
        kv_collect_refs(g, st, refs.push(r), flat, fuel) == ({
            let st1 = kv_collect_refs(g, st, refs, flat, fuel);
            match key_position(id_entries(g, st1.c), g[r as int].id) {
                Some(i) => kv_mark(st1, i),
                None => kv_collect(g, st1, r, flat, fuel),
            }
        }),
{
    assert(refs.push(r).drop_last() =~= refs);
}

/// Collects `root` and walks its references.
fn kv_collect_exec(
    graph: &ElementGraph,
    root: usize,
    flat: bool,
    fuel: usize,
    order: &mut Vec<usize>,
    top: &mut Vec<bool>,
    ids: &mut IndexMap<UuidBytes, usize>,
)
    requires
        root < graph@.len(),
        graph_refs_in(graph@),
        kv_state_inv(graph@, old(order)@, old(top)@, id_map_entries(*old(ids))),
        key_position(id_entries(graph@, old(order)@), graph@[root as int].id) is None,
        fuel >= graph@.len() - old(order)@.len(),
    ensures
        kv_state_inv(graph@, final(order)@, final(top)@, id_map_entries(*final(ids))),
        kv_state(final(order)@, final(top)@) == kv_collect(
            graph@,
            kv_state(old(order)@, old(top)@),
            root,
            flat,
            fuel as nat,
        ),
        final(order)@.len() > old(order)@.len(),
    decreases fuel, 0nat,
{
    let ghost g = graph@;
    let ghost c0 = order@;
    let ghost t0 = top@;
    let id = graph.elements[root].id;
    proof {
        assert(g[root as int].id == id@);
        lemma_id_map_key_position(id_map_entries(*ids), id);
        lemma_key_position(id_entries(g, c0), id@);
    }
    let first = order.len() == 0;
    let ghost before = id_map_entries(*ids);
    id_map_insert(ids, id, root);
    order.push(root);
    top.push(flat || first);
    proof {
        assert(id_map_view(before.push((id, root))) =~= id_map_view(before).push((id@, root)));
        assert(id_entries(g, c0.push(root)) =~= id_entries(g, c0).push((g[root as int].id, root)));
        assert forall|i: int, j: int| 0 <= i < j < order@.len() implies g[order@[i] as int].id != g[order@[j] as int].id by {
            if j == c0.len() {
                assert(id_entries(g, c0)[i].0 == g[c0[i] as int].id);
            }
        }
        lemma_collected_len(g, order@);
    }
    let ghost st1 = kv_state(order@, top@);
    let element = &graph.elements[root];
    let ghost attrs = g[root as int].attributes;
    let ghost ex = attribute_entries(element.attributes);
    assert(attrs == entries_view(ex));
    let count = attribute_map_len(&element.attributes);
    let mut i: usize = 0;
    while i < count
        invariant
            g == graph@,
            graph_refs_in(g),
            root < g.len(),
            element == graph.elements@[root as int],
            ex == attribute_entries(element.attributes),
            attrs == entries_view(ex),
            attrs == g[root as int].attributes,
            count == ex.len(),
            i <= count,
            fuel >= 1,
            fuel - 1 >= g.len() - st1.c.len(),
            kv_state_inv(g, order@, top@, id_map_entries(*ids)),
            order@.len() >= st1.c.len(),
            st1.c.len() == c0.len() + 1,
            kv_state(order@, top@) == kv_collect_refs(
                g,
                st1,
                attribute_refs(attrs.take(i as int)),
                flat,
                (fuel - 1) as nat,
            ),
        decreases count - i,
    {
        let entry = attribute_map_get_index(&element.attributes, i);
        let (_, value) = entry.unwrap();
        let ghost before_refs = attribute_refs(attrs.take(i as int));
        proof {
            assert(attrs.take(i + 1) =~= attrs.take(i as int).push(attrs[i as int]));
            lemma_attribute_refs_push(attrs.take(i as int), attrs[i as int]);
            assert(value@ == attrs[i as int].1);
            assert(value_refs_in(g.len() as int, g[root as int].attributes[i as int].1));
        }
        match value {
            AttributeValue::Element(Some(r)) => {
                proof {
                    lemma_kv_refs_push(g, st1, before_refs, *r, flat, (fuel - 1) as nat);
                    assert(before_refs + value_refs(value@) =~= before_refs.push(*r));
                }
                kv_visit(graph, *r, flat, fuel - 1, order, top, ids);
            },
            AttributeValue::ElementArray(rs) => {
                assert(forall|k: int| 0 <= k < rs@.len() ==> ref_in(g.len() as int, #[trigger] rs@[k]));
                let mut j: usize = 0;
                while j < rs.len()
                    invariant
                        g == graph@,
                        graph_refs_in(g),
                        forall|k: int| 0 <= k < rs@.len() ==> ref_in(g.len() as int, #[trigger] rs@[k]),
                        j <= rs@.len(),
                        fuel >= 1,
                        fuel - 1 >= g.len() - st1.c.len(),
                        kv_state_inv(g, order@, top@, id_map_entries(*ids)),
                        order@.len() >= st1.c.len(),
                        kv_state(order@, top@) == kv_collect_refs(
                            g,
                            st1,
                            before_refs + some_refs(rs@.take(j as int)),
                            flat,
                            (fuel - 1) as nat,
                        ),
                    decreases rs@.len() - j,
                {
                    proof {
                        assert(rs@.take(j + 1) =~= rs@.take(j as int).push(rs@[j as int]));
                        lemma_some_refs_push(rs@.take(j as int), rs@[j as int]);
                        assert(ref_in(g.len() as int, rs@[j as int]));
                    }
                    match rs[j] {
                        Some(r) => {
                            proof {
                                lemma_kv_refs_push(g, st1, before_refs + some_refs(rs@.take(j as int)), r, flat, (fuel - 1) as nat);
                                assert(before_refs + some_refs(rs@.take(j + 1)) =~= (before_refs + some_refs(rs@.take(j as int))).push(r));
                            }
                            kv_visit(graph, r, flat, fuel - 1, order, top, ids);
                        },
                        None => {
                            assert(before_refs + some_refs(rs@.take(j + 1)) =~= before_refs + some_refs(rs@.take(j as int)));
                        },
                    }
                    j = j + 1;
                }
                proof {
                    assert(rs@.take(rs@.len() as int) =~= rs@);
                }
            },
            _ => {
                assert(before_refs + value_refs(value@) =~= before_refs);
            },
        }
        i = i + 1;
    }
    proof {
        assert(attrs.take(count as int) =~= attrs);
    }
}

/// Meets the reference `r`: marks an element already collected, or walks a new one.
fn kv_visit(
    graph: &ElementGraph,
    r: usize,
    flat: bool,
    fuel: usize,
    order: &mut Vec<usize>,
    top: &mut Vec<bool>,
    ids: &mut IndexMap<UuidBytes, usize>,
)
    requires
        r < graph@.len(),
        graph_refs_in(graph@),
        kv_state_inv(graph@, old(order)@, old(top)@, id_map_entries(*old(ids))),
        fuel >= graph@.len() - old(order)@.len(),
    ensures
        kv_state_inv(graph@, final(order)@, final(top)@, id_map_entries(*final(ids))),
        kv_state(final(order)@, final(top)@) == ({
            let st1 = kv_state(old(order)@, old(top)@);
            match key_position(id_entries(graph@, st1.c), graph@[r as int].id) {
                Some(i) => kv_mark(st1, i),
                None => kv_collect(graph@, st1, r, flat, fuel as nat),
            }
        }),
        final(order)@.len() >= old(order)@.len(),
    decreases fuel, 1nat,
{
    let id = graph.elements[r].id;
    proof {
        assert(graph@[r as int].id == id@);
        lemma_id_map_key_position(id_map_entries(*ids), id);
    }
    match id_map_get_index_of(ids, &id) {
        Some(i) => {
            proof {
                lemma_key_position(id_entries(graph@, order@), id@);
            }
            top.set(i, true);
        },
        None => {
            proof {
                lemma_key_position(id_entries(graph@, order@), id@);
            }
            kv_collect_exec(graph, r, flat, fuel, order, top, ids);
        },
    }
}

/// Collects the elements that `root` reaches, in the order of the walk,
/// with whether each stands at the top level and a map from ids to graph
/// positions.
pub fn kv_collect_elements(graph: &ElementGraph, root: usize, flat: bool) -> (r: (Vec<usize>, Vec<bool>, IndexMap<UuidBytes, usize>))
    requires
        root < graph@.len(),
        graph_refs_in(graph@),
        graph@.len() < usize::MAX,
    ensures
        kv_state(r.0@, r.1@) == kv_collect_all(graph@, root, flat),
        kv_state_inv(graph@, r.0@, r.1@, id_map_entries(r.2)),
{
    let mut order: Vec<usize> = Vec::new();
    let mut top: Vec<bool> = Vec::new();
    let mut ids = id_map_new();
    proof {
        assert(id_map_view(id_map_entries(ids)) =~= id_entries(graph@, order@));
        assert(id_entries(graph@, order@) =~= Seq::<(Seq<u8>, usize)>::empty());
        assert(order@ =~= Seq::<usize>::empty());
        assert(top@ =~= Seq::<bool>::empty());
    }
    kv_collect_exec(graph, root, flat, graph.elements.len() + 1, &mut order, &mut top, &mut ids);
    (order, top, ids)
}

} // verus!
