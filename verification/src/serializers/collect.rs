//! Collecting the elements that a root reaches, in the order in which the
//! binary encoding stores them.
//!
//! Elements are told apart by id: of several elements with one id only the
//! first met is collected. The walk keeps a stack: it starts with the root,
//! and each step takes the element on top of the stack and goes through the
//! references of its attributes in order, collecting and pushing each element
//! whose id has not been collected yet.

use vstd::prelude::*;
use indexmap::{IndexMap, IndexSet};
use crate::attribute::{AttributeValue, SpecAttributeValue, UuidBytes};
use crate::collections::{
    attribute_entries, attribute_map_get_index, attribute_map_len, id_map_entries,
    id_map_get_index_of, id_map_insert, id_map_new, key_position, lemma_key_position,
    item_position, lemma_item_position, set_insert, set_swap_remove, string_set_insert,
    string_set_items, string_set_new,
    string_set_swap_remove,
};
use crate::serializers::binary_format::{VERSION_GLOBAL_STRING_TABLE, VERSION_STRING_TABLE};
use crate::element::{entries_view, ElementGraph, ElementView};

verus! {

// ---------------------------------------------------------------------------
// References
// ---------------------------------------------------------------------------

/// The elements that a list of optional references names, in order.
pub open spec fn some_refs(rs: Seq<Option<usize>>) -> Seq<usize>
    decreases rs.len(),
{
    if rs.len() == 0 {
        seq![]
    } else {
        match rs.last() {
            Some(r) => some_refs(rs.drop_last()).push(r),
            None => some_refs(rs.drop_last()),
        }
    }
}

/// The elements that an attribute value refers to, in order.
pub open spec fn value_refs(v: SpecAttributeValue) -> Seq<usize> {
    match v {
        SpecAttributeValue::Element(Some(r)) => seq![r],
        SpecAttributeValue::ElementArray(rs) => some_refs(rs),
        _ => seq![],
    }
}

/// The elements that a list of attributes refers to, in order.
pub open spec fn attribute_refs(attrs: Seq<(Seq<char>, SpecAttributeValue)>) -> Seq<usize>
    decreases attrs.len(),
{
    if attrs.len() == 0 {
        seq![]
    } else {
        attribute_refs(attrs.drop_last()) + value_refs(attrs.last().1)
    }
}

/// A reference that is empty or names an element of a graph of `n` elements.
pub open spec fn ref_in(n: int, r: Option<usize>) -> bool {
    r matches Some(x) ==> x < n
}

/// The references of a value name elements of a graph of `n` elements.
pub open spec fn value_refs_in(n: int, v: SpecAttributeValue) -> bool {
    match v {
        SpecAttributeValue::Element(r) => ref_in(n, r),
        SpecAttributeValue::ElementArray(rs) => forall|j: int| 0 <= j < rs.len() ==> ref_in(n, #[trigger] rs[j]),
        _ => true,
    }
}

/// Every reference of every element names an element of the graph.
pub open spec fn graph_refs_in(g: Seq<ElementView>) -> bool {
    forall|e: int, i: int|
        0 <= e < g.len() && 0 <= i < g[e].attributes.len() ==> value_refs_in(
            g.len() as int,
            #[trigger] g[e].attributes[i].1,
        )
}

// ---------------------------------------------------------------------------
// The walk
// ---------------------------------------------------------------------------

/// The collected elements keyed by id, in order.
pub open spec fn id_entries(g: Seq<ElementView>, c: Seq<usize>) -> Seq<(Seq<u8>, usize)> {
    c.map_values(|p: usize| (g[p as int].id, p))
}

/// Whether an element with the id of element `r` has been collected.
pub open spec fn is_collected(g: Seq<ElementView>, c: Seq<usize>, r: usize) -> bool {
    key_position(id_entries(g, c), g[r as int].id) is Some
}

/// Meeting a reference: a new id is collected and pushed.
pub open spec fn visit_one(g: Seq<ElementView>, c: Seq<usize>, s: Seq<usize>, r: usize) -> (Seq<usize>, Seq<usize>) {
    if is_collected(g, c, r) {
        (c, s)
    } else {
        (c.push(r), s.push(r))
    }
}

/// Meeting references in order.
pub open spec fn visit(g: Seq<ElementView>, c: Seq<usize>, s: Seq<usize>, refs: Seq<usize>) -> (Seq<usize>, Seq<usize>)
    decreases refs.len(),
{
    if refs.len() == 0 {
        (c, s)
    } else {
        let (c1, s1) = visit(g, c, s, refs.drop_last());
        visit_one(g, c1, s1, refs.last())
    }
}

/// One step of the walk: the element on top of the stack is taken and its
/// references are met.
pub open spec fn collect_step(g: Seq<ElementView>, c: Seq<usize>, s: Seq<usize>) -> (Seq<usize>, Seq<usize>) {
    if s.len() == 0 {
        (c, s)
    } else {
        visit(g, c, s.drop_last(), attribute_refs(g[s.last() as int].attributes))
    }
}

/// `k` steps of the walk.
pub open spec fn collect_run(g: Seq<ElementView>, c: Seq<usize>, s: Seq<usize>, k: nat) -> (Seq<usize>, Seq<usize>)
    decreases k,
{
    if k == 0 {
        (c, s)
    } else {
        let (c1, s1) = collect_run(g, c, s, (k - 1) as nat);
        collect_step(g, c1, s1)
    }
}

/// The elements that `root` reaches, in the order of the walk. The walk ends
/// within as many steps as the graph has elements.
pub open spec fn collect_order(g: Seq<ElementView>, root: usize) -> Seq<usize> {
    collect_run(g, seq![root], seq![root], g.len()).0
}

/// The collected elements have distinct ids.
pub open spec fn distinct_ids(g: Seq<ElementView>, c: Seq<usize>) -> bool {
    forall|i: int, j: int| 0 <= i < j < c.len() ==> g[c[i] as int].id != g[c[j] as int].id
}

/// The view of the entries of an id map.
pub open spec fn id_map_view(e: Seq<(UuidBytes, usize)>) -> Seq<(Seq<u8>, usize)> {
    e.map_values(|x: (UuidBytes, usize)| (x.0@, x.1))
}

// ---------------------------------------------------------------------------
// Lemmas
// ---------------------------------------------------------------------------

/// Two ids with the same bytes are the same id.
pub proof fn lemma_uuid_view_injective(a: UuidBytes, b: UuidBytes)
    requires
        a@ == b@,
    ensures
        a == b,
{
    assert forall|i: int| 0 <= i < 16 implies a[i] == b[i] by {
        assert(a@[i] == b@[i]);
    }
    assert(a =~= b);
}

/// Looking a key up in an id map is looking its bytes up in the map's view.
pub proof fn lemma_id_map_key_position(e: Seq<(UuidBytes, usize)>, k: UuidBytes)
    ensures
        key_position(id_map_view(e), k@) == key_position(e, k),
    decreases e.len(),
{
    if e.len() > 0 {
        if e[0].0@ == k@ {
            lemma_uuid_view_injective(e[0].0, k);
        }
        assert(id_map_view(e).drop_first() =~= id_map_view(e.drop_first()));
        lemma_id_map_key_position(e.drop_first(), k);
    }
}

/// A sequence of distinct numbers below `n` has at most `n` items.
pub proof fn lemma_distinct_below(s: Seq<usize>, n: nat)
    requires
        forall|i: int, j: int| 0 <= i < j < s.len() ==> s[i] != s[j],
        forall|i: int| 0 <= i < s.len() ==> s[i] < n,
    ensures
        s.len() <= n,
    decreases n,
{
    if s.len() > 0 {
        if n == 0 {
            assert(s[0] < 0);
        } else {
            let top = (n - 1) as usize;
            let t = if exists|j: int| 0 <= j < s.len() && s[j] == top {
                let j = choose|j: int| 0 <= j < s.len() && s[j] == top;
                s.remove(j)
            } else {
                s
            };
            assert(t.len() + 1 >= s.len());
            assert forall|i: int| 0 <= i < t.len() implies t[i] < (n - 1) as nat by {
                if exists|j: int| 0 <= j < s.len() && s[j] == top {
                    let j = choose|j: int| 0 <= j < s.len() && s[j] == top;
                    if i < j {
                        assert(t[i] == s[i]);
                    } else {
                        assert(t[i] == s[i + 1]);
                    }
                }
            }
            assert forall|i: int, k: int| 0 <= i < k < t.len() implies t[i] != t[k] by {
                if exists|j: int| 0 <= j < s.len() && s[j] == top {
                    let j = choose|j: int| 0 <= j < s.len() && s[j] == top;
                    let a = if i < j { i } else { i + 1 };
                    let b = if k < j { k } else { k + 1 };
                    assert(t[i] == s[a]);
                    assert(t[k] == s[b]);
                }
            }
            lemma_distinct_below(t, (n - 1) as nat);
        }
    }
}

/// Collected elements with distinct ids are distinct, so there are at most as
/// many as the graph has elements.
pub proof fn lemma_collected_len(g: Seq<ElementView>, c: Seq<usize>)
    requires
        distinct_ids(g, c),
        forall|i: int| 0 <= i < c.len() ==> c[i] < g.len(),
    ensures
        c.len() <= g.len(),
{
    assert forall|i: int, j: int| 0 <= i < j < c.len() implies c[i] != c[j] by {
        if c[i] == c[j] {
            assert(g[c[i] as int].id == g[c[j] as int].id);
        }
    }
    lemma_distinct_below(c, g.len());
}

/// Meeting one more reference after a list.
pub proof fn lemma_visit_push(g: Seq<ElementView>, c: Seq<usize>, s: Seq<usize>, refs: Seq<usize>, r: usize)
    ensures
        visit(g, c, s, refs.push(r)) == ({
            let (c1, s1) = visit(g, c, s, refs);
            visit_one(g, c1, s1, r)
        }),
{
    assert(refs.push(r).drop_last() =~= refs);
}

/// The references of one more attribute.
pub proof fn lemma_attribute_refs_push(attrs: Seq<(Seq<char>, SpecAttributeValue)>, a: (Seq<char>, SpecAttributeValue))
    ensures
        attribute_refs(attrs.push(a)) == attribute_refs(attrs) + value_refs(a.1),
{
    assert(attrs.push(a).drop_last() =~= attrs);
}

/// The references of one more optional reference.
pub proof fn lemma_some_refs_push(rs: Seq<Option<usize>>, r: Option<usize>)
    ensures
        some_refs(rs.push(r)) == match r {
            Some(x) => some_refs(rs).push(x),
            None => some_refs(rs),
        },
{
    assert(rs.push(r).drop_last() =~= rs);
}

/// Once the stack is empty the walk stays where it is.
pub proof fn lemma_collect_run_done(g: Seq<ElementView>, c: Seq<usize>, s: Seq<usize>, k: nat, m: nat)
    requires
        k <= m,
        collect_run(g, c, s, k).1.len() == 0,
    ensures
        collect_run(g, c, s, m) == collect_run(g, c, s, k),
    decreases m - k,
{
    if k < m {
        lemma_collect_run_done(g, c, s, k, (m - 1) as nat);
    }
}

/// The references of a value name collected elements.
pub open spec fn value_refs_collected(g: Seq<ElementView>, c: Seq<usize>, v: SpecAttributeValue) -> bool {
    match v {
        SpecAttributeValue::Element(Some(r)) => is_collected(g, c, r),
        SpecAttributeValue::ElementArray(rs) => forall|j: int|
            0 <= j < rs.len() ==> (#[trigger] rs[j] matches Some(r) ==> is_collected(g, c, r)),
        _ => true,
    }
}

/// All references of the element at position `e` name collected elements.
pub open spec fn element_refs_collected(g: Seq<ElementView>, c: Seq<usize>, e: usize) -> bool {
    forall|i: int|
        0 <= i < g[e as int].attributes.len() ==> value_refs_collected(g, c, #[trigger] g[e as int].attributes[i].1)
}

/// What has been collected stays collected when more is collected.
pub proof fn lemma_is_collected_push(g: Seq<ElementView>, c: Seq<usize>, x: usize, r: usize)
    requires
        is_collected(g, c, r),
    ensures
        is_collected(g, c.push(x), r),
{
    let k = g[r as int].id;
    assert(id_entries(g, c.push(x)) =~= id_entries(g, c).push((g[x as int].id, x)));
    lemma_key_position(id_entries(g, c), k);
    lemma_key_position(id_entries(g, c.push(x)), k);
    let i = key_position(id_entries(g, c), k)->0;
    assert(id_entries(g, c.push(x))[i] == id_entries(g, c)[i]);
}

/// References that name collected elements still do when more is collected.
pub proof fn lemma_refs_collected_grow(g: Seq<ElementView>, c: Seq<usize>, c2: Seq<usize>)
    requires
        forall|x: usize| is_collected(g, c, x) ==> #[trigger] is_collected(g, c2, x),
    ensures
        forall|v: SpecAttributeValue| value_refs_collected(g, c, v) ==> #[trigger] value_refs_collected(g, c2, v),
        forall|e: usize| element_refs_collected(g, c, e) ==> #[trigger] element_refs_collected(g, c2, e),
{
    assert forall|v: SpecAttributeValue| value_refs_collected(g, c, v) implies #[trigger] value_refs_collected(g, c2, v) by {
        match v {
            SpecAttributeValue::ElementArray(rs) => {
                assert forall|j: int| 0 <= j < rs.len() implies (#[trigger] rs[j] matches Some(r) ==> is_collected(g, c2, r)) by {
                    if let Some(r) = rs[j] {
                        assert(is_collected(g, c, r));
                    }
                }
            },
            _ => {},
        }
    }
    assert forall|e: usize| element_refs_collected(g, c, e) implies #[trigger] element_refs_collected(g, c2, e) by {
        assert forall|i: int| 0 <= i < g[e as int].attributes.len() implies value_refs_collected(g, c2, #[trigger] g[e as int].attributes[i].1) by {
            assert(value_refs_collected(g, c, g[e as int].attributes[i].1));
        }
    }
}

// ---------------------------------------------------------------------------
// The walk in code
// ---------------------------------------------------------------------------

/// The state of a walk: collected elements, the stack and ids found so far.
pub open spec fn walk_inv(
    g: Seq<ElementView>,
    order: Seq<usize>,
    stack: Seq<usize>,
    ids: Seq<(UuidBytes, usize)>,
) -> bool {
    &&& id_map_view(ids) == id_entries(g, order)
    &&& distinct_ids(g, order)
    &&& forall|i: int| 0 <= i < order.len() ==> order[i] < g.len()
    &&& forall|i: int| 0 <= i < stack.len() ==> stack[i] < g.len()
}

/// After meeting a reference, every collected element other than `e` is
/// still on the stack or has all its references collected.
proof fn lemma_walk_grow(
    g: Seq<ElementView>,
    c: Seq<usize>,
    s: Seq<usize>,
    c2: Seq<usize>,
    s2: Seq<usize>,
    e: usize,
    r: usize,
)
    requires
        (c2, s2) == visit_one(g, c, s, r),
        forall|j: int| 0 <= j < c.len() ==> c[j] == e || s.contains(#[trigger] c[j]) || element_refs_collected(g, c, c[j]),
        forall|x: usize| is_collected(g, c, x) ==> #[trigger] is_collected(g, c2, x),
    ensures
        forall|j: int| 0 <= j < c2.len() ==> c2[j] == e || s2.contains(#[trigger] c2[j]) || element_refs_collected(g, c2, c2[j]),
        forall|v: SpecAttributeValue| value_refs_collected(g, c, v) ==> #[trigger] value_refs_collected(g, c2, v),
{
    lemma_refs_collected_grow(g, c, c2);
    assert forall|j: int| 0 <= j < c2.len() implies c2[j] == e || s2.contains(#[trigger] c2[j])
        || element_refs_collected(g, c2, c2[j]) by {
        if j < c.len() {
            assert(c2[j] == c[j]);
            if c[j] != e && s.contains(c[j]) {
                let k = choose|k: int| 0 <= k < s.len() && s[k] == c[j];
                assert(s2[k] == c[j]);
            } else if c[j] != e {
                assert(element_refs_collected(g, c, c[j]));
            }
        } else {
            assert(s2[s.len() as int] == c2[j]);
        }
    }
}

/// Meets the reference `r` of the walk.
fn visit_ref(
    graph: &ElementGraph,
    r: usize,
    order: &mut Vec<usize>,
    stack: &mut Vec<usize>,
    ids: &mut IndexMap<UuidBytes, usize>,
)
    requires
        r < graph@.len(),
        walk_inv(graph@, old(order)@, old(stack)@, id_map_entries(*old(ids))),
    ensures
        walk_inv(graph@, final(order)@, final(stack)@, id_map_entries(*final(ids))),
        (final(order)@, final(stack)@) == visit_one(graph@, old(order)@, old(stack)@, r),
        is_collected(graph@, final(order)@, r),
        forall|x: usize| is_collected(graph@, old(order)@, x) ==> #[trigger] is_collected(graph@, final(order)@, x),
        forall|y: usize| old(stack)@.contains(y) ==> #[trigger] final(stack)@.contains(y),
{
    let id = graph.elements[r].id;
    proof {
        lemma_id_map_key_position(id_map_entries(*ids), id);
        assert(graph@[r as int].id == id@);
    }
    match id_map_get_index_of(ids, &id) {
        Some(_) => {},
        None => {
            let ghost before = id_map_entries(*ids);
            let ghost c = order@;
            id_map_insert(ids, id, r);
            order.push(r);
            stack.push(r);
            proof {
                let g = graph@;
                assert(id_map_view(before.push((id, r))) =~= id_map_view(before).push((id@, r)));
                assert(id_entries(g, c.push(r)) =~= id_entries(g, c).push((g[r as int].id, r)));
                lemma_key_position(id_entries(g, c), id@);
                lemma_key_position(id_entries(g, c.push(r)), id@);
                assert(id_entries(g, c.push(r))[c.len() as int].0 == id@);
                assert forall|x: usize| is_collected(g, c, x) implies #[trigger] is_collected(g, c.push(r), x) by {
                    lemma_is_collected_push(g, c, r, x);
                }
                assert forall|y: usize| old(stack)@.contains(y) implies #[trigger] stack@.contains(y) by {
                    let k = choose|k: int| 0 <= k < old(stack)@.len() && old(stack)@[k] == y;
                    assert(stack@[k] == y);
                }
                assert forall|i: int, j: int| 0 <= i < j < order@.len() implies g[order@[i] as int].id
                    != g[order@[j] as int].id by {
                    if j == c.len() {
                        assert(id_entries(g, c)[i].0 == g[c[i] as int].id);
                    }
                }
            }
        },
    }
}

/// Collects the elements that `root` reaches, in the order of the walk,
/// with a map from their ids to their positions in the graph.
pub fn collect_elements(graph: &ElementGraph, root: usize) -> (r: (Vec<usize>, IndexMap<UuidBytes, usize>))
    requires
        root < graph@.len(),
        graph_refs_in(graph@),
    ensures
        r.0@ == collect_order(graph@, root),
        id_map_view(id_map_entries(r.1)) == id_entries(graph@, r.0@),
        distinct_ids(graph@, r.0@),
        forall|i: int| 0 <= i < r.0@.len() ==> r.0@[i] < graph@.len(),
        forall|k: int| 0 <= k < r.0@.len() ==> element_refs_collected(graph@, r.0@, #[trigger] r.0@[k]),
{
    let ghost g = graph@;
    let ghost n = g.len();
    let mut order: Vec<usize> = Vec::new();
    let mut stack: Vec<usize> = Vec::new();
    let mut ids = id_map_new();
    proof {
        assert(id_map_view(id_map_entries(ids)) =~= id_entries(g, order@));
    }
    visit_ref(graph, root, &mut order, &mut stack, &mut ids);
    proof {
        assert(id_entries(g, seq![]) =~= Seq::<(Seq<u8>, usize)>::empty());
        assert(order@ =~= seq![root]);
        assert(stack@ =~= seq![root]);
        assert(stack@[0] == order@[0]);
    }
    let ghost mut steps: nat = 0;
    while stack.len() > 0
        invariant
            g == graph@,
            n == g.len(),
            graph_refs_in(g),
            walk_inv(g, order@, stack@, id_map_entries(ids)),
            (order@, stack@) == collect_run(g, seq![root], seq![root], steps),
            steps + stack@.len() == order@.len(),
            forall|j: int| 0 <= j < order@.len() ==> stack@.contains(#[trigger] order@[j])
                || element_refs_collected(g, order@, order@[j]),
        decreases 2 * (n - order@.len()) + stack@.len(),
    {
        proof {
            lemma_collected_len(g, order@);
        }
        let ghost c0 = order@;
        let ghost s0 = stack@;
        let e = stack.pop().unwrap();
        assert(stack@ == s0.drop_last());
        assert forall|j: int| 0 <= j < order@.len() implies order@[j] == e || stack@.contains(#[trigger] order@[j])
            || element_refs_collected(g, order@, order@[j]) by {
            if s0.contains(order@[j]) && order@[j] != e {
                let k = choose|k: int| 0 <= k < s0.len() && s0[k] == order@[j];
                assert(k != s0.len() - 1);
                assert(stack@[k] == order@[j]);
            }
        }
        let element = &graph.elements[e];
        let ghost attrs = g[e as int].attributes;
        let ghost ex = attribute_entries(element.attributes);
        assert(attrs == entries_view(ex));
        let count = attribute_map_len(&element.attributes);
        let mut i: usize = 0;
        while i < count
            invariant
                g == graph@,
                n == g.len(),
                graph_refs_in(g),
                e < n,
                element == graph.elements@[e as int],
                ex == attribute_entries(element.attributes),
                attrs == entries_view(ex),
                count == ex.len(),
                i <= count,
                walk_inv(g, order@, stack@, id_map_entries(ids)),
                (order@, stack@) == visit(g, c0, s0.drop_last(), attribute_refs(attrs.take(i as int))),
                order@.len() >= c0.len(),
                order@.len() - c0.len() == stack@.len() - (s0.len() - 1),
                forall|j: int| 0 <= j < order@.len() ==> order@[j] == e || stack@.contains(#[trigger] order@[j])
                    || element_refs_collected(g, order@, order@[j]),
                forall|i2: int| 0 <= i2 < i ==> value_refs_collected(g, order@, #[trigger] attrs[i2].1),
            decreases count - i,
        {
            let entry = attribute_map_get_index(&element.attributes, i);
            let (_, value) = entry.unwrap();
            let ghost before = attribute_refs(attrs.take(i as int));
            proof {
                assert(attrs.take(i + 1) =~= attrs.take(i as int).push(attrs[i as int]));
                lemma_attribute_refs_push(attrs.take(i as int), attrs[i as int]);
                assert(value@ == attrs[i as int].1);
                assert(value_refs_in(n as int, g[e as int].attributes[i as int].1));
            }
            match value {
                AttributeValue::Element(Some(r)) => {
                    proof {
                        lemma_visit_push(g, c0, s0.drop_last(), before, *r);
                        assert(before + value_refs(value@) =~= before.push(*r));
                    }
                    let ghost c1 = order@;
                    let ghost s1 = stack@;
                    visit_ref(graph, *r, &mut order, &mut stack, &mut ids);
                    proof {
                        lemma_walk_grow(g, c1, s1, order@, stack@, e, *r);
                    }
                },
                AttributeValue::ElementArray(rs) => {
                    assert(forall|k: int| 0 <= k < rs@.len() ==> ref_in(n as int, #[trigger] rs@[k]));
                    let mut j: usize = 0;
                    while j < rs.len()
                        invariant
                            g == graph@,
                            n == g.len(),
                            forall|k: int| 0 <= k < rs@.len() ==> ref_in(n as int, #[trigger] rs@[k]),
                            j <= rs@.len(),
                            walk_inv(g, order@, stack@, id_map_entries(ids)),
                            (order@, stack@) == visit(g, c0, s0.drop_last(), before + some_refs(rs@.take(j as int))),
                            order@.len() >= c0.len(),
                            order@.len() - c0.len() == stack@.len() - (s0.len() - 1),
                            forall|j2: int| 0 <= j2 < order@.len() ==> order@[j2] == e || stack@.contains(#[trigger] order@[j2])
                                || element_refs_collected(g, order@, order@[j2]),
                            forall|i2: int| 0 <= i2 < i ==> value_refs_collected(g, order@, #[trigger] attrs[i2].1),
                            forall|j2: int| 0 <= j2 < j ==> (#[trigger] rs@[j2] matches Some(r) ==> is_collected(g, order@, r)),
                        decreases rs@.len() - j,
                    {
                        proof {
                            assert(rs@.take(j + 1) =~= rs@.take(j as int).push(rs@[j as int]));
                            lemma_some_refs_push(rs@.take(j as int), rs@[j as int]);
                            assert(ref_in(n as int, rs@[j as int]));
                        }
                        match rs[j] {
                            Some(r) => {
                                proof {
                                    lemma_visit_push(g, c0, s0.drop_last(), before + some_refs(rs@.take(j as int)), r);
                                    assert(before + some_refs(rs@.take(j + 1)) =~= (before + some_refs(rs@.take(j as int))).push(r));
                                }
                                let ghost c1 = order@;
                                let ghost s1 = stack@;
                                visit_ref(graph, r, &mut order, &mut stack, &mut ids);
                                proof {
                                    lemma_walk_grow(g, c1, s1, order@, stack@, e, r);
                                    assert forall|j2: int| 0 <= j2 < j + 1 implies (#[trigger] rs@[j2] matches Some(x) ==> is_collected(g, order@, x)) by {
                                        if j2 < j {
                                            if let Some(x) = rs@[j2] {
                                                assert(is_collected(g, c1, x));
                                            }
                                        }
                                    }
                                }
                            },
                            None => {
                                assert(before + some_refs(rs@.take(j + 1)) =~= before + some_refs(rs@.take(j as int)));
                            },
                        }
                        j = j + 1;
                    }
                    proof {
                        assert(rs@.take(rs@.len() as int) =~= rs@);
                        assert(value_refs_collected(g, order@, value@));
                    }
                },
                _ => {
                    assert(before + value_refs(value@) =~= before);
                },
            }
            i = i + 1;
        }
        proof {
            assert(attrs.take(count as int) =~= attrs);
            assert(collect_step(g, c0, s0) == (order@, stack@));
            steps = steps + 1;
            lemma_collected_len(g, order@);
            assert(element_refs_collected(g, order@, e));
        }
    }
    proof {
        lemma_collected_len(g, order@);
        lemma_collect_run_done(g, seq![root], seq![root], steps, n);
        assert forall|k: int| 0 <= k < order@.len() implies element_refs_collected(g, order@, #[trigger] order@[k]) by {
            if stack@.contains(order@[k]) {
                let x = choose|x: int| 0 <= x < stack@.len() && stack@[x] == order@[k];
            }
        }
    }
    (order, ids)
}

// ---------------------------------------------------------------------------
// The string table
// ---------------------------------------------------------------------------

/// The strings of some attributes added to a table: each name, and from
/// version 4 each string value.
pub open spec fn attribute_strings(t: Seq<Seq<char>>, attrs: Seq<(Seq<char>, SpecAttributeValue)>, version: i32) -> Seq<Seq<char>>
    decreases attrs.len(),
{
    if attrs.len() == 0 {
        t
    } else {
        let t1 = set_insert(attribute_strings(t, attrs.drop_last(), version), attrs.last().0);
        match attrs.last().1 {
            SpecAttributeValue::String(v) => if version >= VERSION_GLOBAL_STRING_TABLE {
                set_insert(t1, v)
            } else {
                t1
            },
            _ => t1,
        }
    }
}

/// The strings of an element added to a table: its class, then those of its attributes.
pub open spec fn element_strings(t: Seq<Seq<char>>, e: ElementView, version: i32) -> Seq<Seq<char>> {
    attribute_strings(set_insert(t, e.class), e.attributes, version)
}

/// The strings of the first `k` collected elements.
pub open spec fn strings_upto(g: Seq<ElementView>, c: Seq<usize>, version: i32, k: nat) -> Seq<Seq<char>>
    decreases k,
{
    if k == 0 {
        seq![]
    } else {
        element_strings(strings_upto(g, c, version, (k - 1) as nat), g[c[k - 1] as int], version)
    }
}

/// The string table of a version: none before version 2, else the strings of
/// all collected elements in order of first use, without the empty string
/// (whose place the last string takes).
pub open spec fn collected_strings(g: Seq<ElementView>, c: Seq<usize>, version: i32) -> Seq<Seq<char>> {
    if version < VERSION_STRING_TABLE {
        seq![]
    } else {
        set_swap_remove(strings_upto(g, c, version, c.len()), seq![])
    }
}

/// Collects the string table of the collected elements `order`.
pub fn collect_strings(graph: &ElementGraph, order: &Vec<usize>, version: i32) -> (r: IndexSet<String>)
    requires
        forall|i: int| 0 <= i < order@.len() ==> order@[i] < graph@.len(),
    ensures
        string_set_items(r) == collected_strings(graph@, order@, version),
{
    let ghost g = graph@;
    let mut t = string_set_new();
    if version < VERSION_STRING_TABLE {
        return t;
    }
    let mut k: usize = 0;
    while k < order.len()
        invariant
            g == graph@,
            forall|i: int| 0 <= i < order@.len() ==> order@[i] < g.len(),
            k <= order@.len(),
            string_set_items(t) == strings_upto(g, order@, version, k as nat),
        decreases order@.len() - k,
    {
        let e = order[k];
        let element = &graph.elements[e];
        let ghost attrs = g[e as int].attributes;
        let ghost ex = attribute_entries(element.attributes);
        assert(attrs == entries_view(ex));
        let ghost t0 = string_set_items(t);
        string_set_insert(&mut t, element.class.clone());
        let count = attribute_map_len(&element.attributes);
        let mut i: usize = 0;
        while i < count
            invariant
                element == graph.elements@[e as int],
                ex == attribute_entries(element.attributes),
                attrs == entries_view(ex),
                count == ex.len(),
                i <= count,
                string_set_items(t) == attribute_strings(set_insert(t0, element.class@), attrs.take(i as int), version),
            decreases count - i,
        {
            let entry = attribute_map_get_index(&element.attributes, i);
            let (name, value) = entry.unwrap();
            proof {
                assert(attrs.take(i + 1) =~= attrs.take(i as int).push(attrs[i as int]));
                assert(attrs.take(i + 1).drop_last() =~= attrs.take(i as int));
            }
            string_set_insert(&mut t, name.clone());
            match value {
                AttributeValue::String(v) => {
                    if version >= VERSION_GLOBAL_STRING_TABLE {
                        string_set_insert(&mut t, v.clone());
                    }
                },
                _ => {},
            }
            i = i + 1;
        }
        proof {
            assert(attrs.take(count as int) =~= attrs);
        }
        k = k + 1;
    }
    let empty = String::new();
    string_set_swap_remove(&mut t, empty.as_str());
    t
}

/// A string value that the version stores in the table is there.
pub open spec fn value_string_in(version: i32, table: Seq<Seq<char>>, v: SpecAttributeValue) -> bool {
    match v {
        SpecAttributeValue::String(s) => version >= VERSION_GLOBAL_STRING_TABLE && s.len() > 0 ==> item_position(table, s) is Some,
        _ => true,
    }
}

/// Inserting into a set keeps its items and adds the new one.
pub proof fn lemma_set_insert_contains<T>(s: Seq<T>, x: T)
    ensures
        set_insert(s, x).contains(x),
        forall|y: T| s.contains(y) ==> #[trigger] set_insert(s, x).contains(y),
{
    lemma_item_position(s, x);
    match item_position(s, x) {
        Some(i) => {
            assert(s[i] == x);
        },
        None => {
            assert(s.push(x)[s.len() as int] == x);
            assert forall|y: T| s.contains(y) implies #[trigger] s.push(x).contains(y) by {
                let k = choose|k: int| 0 <= k < s.len() && s[k] == y;
                assert(s.push(x)[k] == y);
            }
        },
    }
}

/// Swap-removing an item keeps every other item.
pub proof fn lemma_set_swap_remove_contains<T>(s: Seq<T>, x: T, y: T)
    requires
        s.contains(y),
        y != x,
    ensures
        set_swap_remove(s, x).contains(y),
{
    lemma_item_position(s, x);
    match item_position(s, x) {
        Some(i) => {
            let k = choose|k: int| 0 <= k < s.len() && s[k] == y;
            let r = s.update(i, s.last()).drop_last();
            if k == s.len() - 1 {
                assert(r[i] == y);
            } else {
                assert(k != i);
                assert(r[k] == y);
            }
        },
        None => {},
    }
}

/// A set contains an item exactly when it has a position for it.
pub proof fn lemma_contains_position<T>(s: Seq<T>, x: T)
    requires
        s.contains(x),
    ensures
        item_position(s, x) is Some,
{
    lemma_item_position(s, x);
}

/// The strings that some attributes add are in the table afterwards, with
/// all that was there before.
pub proof fn lemma_attribute_strings_contain(t: Seq<Seq<char>>, attrs: Seq<(Seq<char>, SpecAttributeValue)>, version: i32)
    ensures
        forall|y: Seq<char>| t.contains(y) ==> #[trigger] attribute_strings(t, attrs, version).contains(y),
        forall|i: int| 0 <= i < attrs.len() ==> attribute_strings(t, attrs, version).contains(#[trigger] attrs[i].0),
        forall|i: int|
            0 <= i < attrs.len() && version >= VERSION_GLOBAL_STRING_TABLE ==> (#[trigger] attrs[i].1 matches SpecAttributeValue::String(v)
                ==> attribute_strings(t, attrs, version).contains(v)),
    decreases attrs.len(),
{
    if attrs.len() > 0 {
        let pre = attrs.drop_last();
        lemma_attribute_strings_contain(t, pre, version);
        let t0 = attribute_strings(t, pre, version);
        let t1 = set_insert(t0, attrs.last().0);
        lemma_set_insert_contains(t0, attrs.last().0);
        let full = attribute_strings(t, attrs, version);
        match attrs.last().1 {
            SpecAttributeValue::String(v) => {
                if version >= VERSION_GLOBAL_STRING_TABLE {
                    lemma_set_insert_contains(t1, v);
                }
            },
            _ => {},
        }
        assert forall|y: Seq<char>| t1.contains(y) implies #[trigger] full.contains(y) by {}
        assert forall|i: int| 0 <= i < attrs.len() implies full.contains(#[trigger] attrs[i].0) by {
            if i < attrs.len() - 1 {
                assert(attrs[i] == pre[i]);
                assert(t0.contains(pre[i].0));
            }
        }
        assert forall|i: int|
            0 <= i < attrs.len() && version >= VERSION_GLOBAL_STRING_TABLE implies (#[trigger] attrs[i].1 matches SpecAttributeValue::String(v)
                ==> full.contains(v)) by {
            if i < attrs.len() - 1 {
                assert(attrs[i] == pre[i]);
            }
        }
    }
}

/// Strings of the first `k` collected elements are in the strings of the first `m >= k`.
pub proof fn lemma_strings_upto_grow(g: Seq<ElementView>, c: Seq<usize>, version: i32, k: nat, m: nat, y: Seq<char>)
    requires
        k <= m,
        strings_upto(g, c, version, k).contains(y),
    ensures
        strings_upto(g, c, version, m).contains(y),
    decreases m - k,
{
    if k < m {
        lemma_strings_upto_grow(g, c, version, k, (m - 1) as nat, y);
        let t = strings_upto(g, c, version, (m - 1) as nat);
        let e = g[c[m - 1] as int];
        lemma_set_insert_contains(t, e.class);
        lemma_attribute_strings_contain(set_insert(t, e.class), e.attributes, version);
    }
}

/// Every non-empty string that the element table and the attributes of a
/// collected element store by index is in the string table.
pub proof fn lemma_collected_strings_contain(g: Seq<ElementView>, c: Seq<usize>, version: i32, k: int)
    requires
        0 <= k < c.len(),
        version >= VERSION_STRING_TABLE,
    ensures
        g[c[k] as int].class.len() > 0 ==> item_position(collected_strings(g, c, version), g[c[k] as int].class) is Some,
        forall|i: int|
            0 <= i < g[c[k] as int].attributes.len() && (#[trigger] g[c[k] as int].attributes[i]).0.len() > 0
                ==> item_position(collected_strings(g, c, version), g[c[k] as int].attributes[i].0) is Some,
        forall|i: int|
            0 <= i < g[c[k] as int].attributes.len() ==> value_string_in(
                version,
                collected_strings(g, c, version),
                #[trigger] g[c[k] as int].attributes[i].1,
            ),
{
    let e = g[c[k] as int];
    let before = strings_upto(g, c, version, k as nat);
    let t1 = set_insert(before, e.class);
    let after = strings_upto(g, c, version, (k + 1) as nat);
    let full = strings_upto(g, c, version, c.len());
    let table = collected_strings(g, c, version);
    lemma_set_insert_contains(before, e.class);
    lemma_attribute_strings_contain(t1, e.attributes, version);
    assert(after == attribute_strings(t1, e.attributes, version));
    if e.class.len() > 0 {
        lemma_strings_upto_grow(g, c, version, (k + 1) as nat, c.len(), e.class);
        lemma_set_swap_remove_contains(full, seq![], e.class);
        lemma_contains_position(table, e.class);
    }
    assert forall|i: int|
        0 <= i < e.attributes.len() && (#[trigger] e.attributes[i]).0.len() > 0 implies item_position(table, e.attributes[i].0) is Some by {
        let y = e.attributes[i].0;
        assert(after.contains(y));
        lemma_strings_upto_grow(g, c, version, (k + 1) as nat, c.len(), y);
        lemma_set_swap_remove_contains(full, seq![], y);
        lemma_contains_position(table, y);
    }
    assert forall|i: int| 0 <= i < e.attributes.len() implies value_string_in(version, table, #[trigger] e.attributes[i].1) by {
        if let SpecAttributeValue::String(v) = e.attributes[i].1 {
            if v.len() > 0 && version >= VERSION_GLOBAL_STRING_TABLE {
                assert(after.contains(v));
                lemma_strings_upto_grow(g, c, version, (k + 1) as nat, c.len(), v);
                lemma_set_swap_remove_contains(full, seq![], v);
                lemma_contains_position(table, v);
            }
        }
    }
}

} // verus!
