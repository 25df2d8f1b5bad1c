//! The `indexmap` collections that elements and encoders use, with the
//! contracts that their documented behaviour gives.
//!
//! Each collection's contents are named by a specification function; the
//! wrappers below state, over those names, what each method does.

use vstd::prelude::*;
use indexmap::{IndexMap, IndexSet};
use crate::attribute::{AttributeValue, UuidBytes};

verus! {

#[verifier::external_type_specification]
#[verifier::external_body]
#[verifier::reject_recursive_types(K)]
#[verifier::reject_recursive_types(V)]
#[verifier::reject_recursive_types(S)]
pub struct ExIndexMap<K, V, S>(IndexMap<K, V, S>);

#[verifier::external_type_specification]
#[verifier::external_body]
#[verifier::reject_recursive_types(T)]
#[verifier::reject_recursive_types(S)]
pub struct ExIndexSet<T, S>(IndexSet<T, S>);

/// The position of the first entry of `e` whose key is `k`.
pub open spec fn key_position<K, V>(e: Seq<(K, V)>, k: K) -> Option<int>
    decreases e.len(),
{
    if e.len() == 0 {
        None
    } else if e[0].0 == k {
        Some(0)
    } else {
        match key_position(e.drop_first(), k) {
            Some(i) => Some(i + 1),
            None => None,
        }
    }
}

/// The position of the first item of `e` equal to `x`.
pub open spec fn item_position<T>(e: Seq<T>, x: T) -> Option<int>
    decreases e.len(),
{
    if e.len() == 0 {
        None
    } else if e[0] == x {
        Some(0)
    } else {
        match item_position(e.drop_first(), x) {
            Some(i) => Some(i + 1),
            None => None,
        }
    }
}

/// `key_position` is the first position that holds the key.
pub proof fn lemma_key_position<K, V>(e: Seq<(K, V)>, k: K)
    ensures
        match key_position(e, k) {
            Some(i) => 0 <= i < e.len() && e[i].0 == k && forall|j: int|
                0 <= j < i ==> (#[trigger] e[j]).0 != k,
            None => forall|j: int| 0 <= j < e.len() ==> (#[trigger] e[j]).0 != k,
        },
    decreases e.len(),
{
    if e.len() > 0 && e[0].0 != k {
        lemma_key_position(e.drop_first(), k);
        match key_position(e.drop_first(), k) {
            Some(i) => {
                assert forall|j: int| 0 <= j < i + 1 implies (#[trigger] e[j]).0 != k by {
                    if j > 0 {
                        assert(e[j] == e.drop_first()[j - 1]);
                    }
                }
            },
            None => {
                assert forall|j: int| 0 <= j < e.len() implies (#[trigger] e[j]).0 != k by {
                    if j > 0 {
                        assert(e[j] == e.drop_first()[j - 1]);
                    }
                }
            },
        }
    }
}

/// `item_position` is the first position that holds the item.
pub proof fn lemma_item_position<T>(e: Seq<T>, x: T)
    ensures
        match item_position(e, x) {
            Some(i) => 0 <= i < e.len() && e[i] == x && forall|j: int|
                0 <= j < i ==> #[trigger] e[j] != x,
            None => forall|j: int| 0 <= j < e.len() ==> #[trigger] e[j] != x,
        },
    decreases e.len(),
{
    if e.len() > 0 && e[0] != x {
        lemma_item_position(e.drop_first(), x);
        match item_position(e.drop_first(), x) {
            Some(i) => {
                assert forall|j: int| 0 <= j < i + 1 implies #[trigger] e[j] != x by {
                    if j > 0 {
                        assert(e[j] == e.drop_first()[j - 1]);
                    }
                }
            },
            None => {
                assert forall|j: int| 0 <= j < e.len() implies #[trigger] e[j] != x by {
                    if j > 0 {
                        assert(e[j] == e.drop_first()[j - 1]);
                    }
                }
            },
        }
    }
}

/// The entries of an `IndexMap` after `insert(k, v)`: the value of an
/// existing key is replaced in place, a new key is appended.
pub open spec fn map_insert<K, V>(e: Seq<(K, V)>, k: K, v: V) -> Seq<(K, V)> {
    match key_position(e, k) {
        Some(i) => e.update(i, (e[i].0, v)),
        None => e.push((k, v)),
    }
}

/// The entries of an `IndexMap` after `shift_remove(k)`.
pub open spec fn map_shift_remove<K, V>(e: Seq<(K, V)>, k: K) -> Seq<(K, V)> {
    match key_position(e, k) {
        Some(i) => e.remove(i),
        None => e,
    }
}

/// The value stored under a key.
pub open spec fn map_get<K, V>(e: Seq<(K, V)>, k: K) -> Option<V> {
    match key_position(e, k) {
        Some(i) => Some(e[i].1),
        None => None,
    }
}

/// No key occurs twice.
pub open spec fn unique_keys<K, V>(e: Seq<(K, V)>) -> bool {
    forall|i: int, j: int| 0 <= i < j < e.len() ==> (#[trigger] e[i]).0 != (#[trigger] e[j]).0
}

/// Entries that differ only in values at positions with other keys give the
/// same position for `k`.
proof fn lemma_key_position_update<K, V>(e: Seq<(K, V)>, i: int, x: (K, V), k: K)
    requires
        0 <= i < e.len(),
        x.0 == e[i].0,
    ensures
        key_position(e.update(i, x), k) == key_position(e, k),
{
    let f = e.update(i, x);
    lemma_key_position(e, k);
    lemma_key_position(f, k);
    assert forall|j: int| 0 <= j < e.len() implies (#[trigger] f[j]).0 == e[j].0 by {}
    match key_position(e, k) {
        Some(p) => {
            assert(f[p].0 == k);
            match key_position(f, k) {
                Some(q) => {
                    assert(e[q].0 == k);
                },
                None => {},
            }
        },
        None => {
            match key_position(f, k) {
                Some(q) => {
                    assert(e[q].0 == k);
                },
                None => {},
            }
        },
    }
}

/// Inserting under a key and then reading it gives the value inserted; every
/// other key keeps its value (what `IndexMap::insert` then `get` give).
pub proof fn law_insert_then_get<K, V>(e: Seq<(K, V)>, k: K, v: V, other: K)
    ensures
        map_get(map_insert(e, k, v), k) == Some(v),
        other != k ==> map_get(map_insert(e, k, v), other) == map_get(e, other),
{
    lemma_key_position(e, k);
    lemma_key_position(e, other);
    match key_position(e, k) {
        Some(i) => {
            let f = e.update(i, (e[i].0, v));
            lemma_key_position_update(e, i, (e[i].0, v), k);
            lemma_key_position_update(e, i, (e[i].0, v), other);
            if other != k {
                if let Some(j) = key_position(e, other) {
                    assert(j != i);
                }
            }
        },
        None => {
            let f = e.push((k, v));
            lemma_key_position(f, k);
            lemma_key_position(f, other);
            assert forall|j: int| 0 <= j < e.len() implies #[trigger] f[j] == e[j] by {}
            match key_position(f, k) {
                Some(q) => {
                    if q < e.len() {
                        assert(e[q].0 == k);
                    }
                },
                None => {
                    assert(f[e.len() as int].0 == k);
                },
            }
            if other != k {
                match key_position(f, other) {
                    Some(q) => {
                        assert(q < e.len());
                        if let Some(p) = key_position(e, other) {
                            if p < q {
                                assert(f[p].0 == other);
                            }
                            if q < p {
                                assert(e[q].0 == other);
                            }
                        } else {
                            assert(e[q].0 == other);
                        }
                    },
                    None => {
                        if let Some(p) = key_position(e, other) {
                            assert(f[p].0 == other);
                        }
                    },
                }
            }
        },
    }
}

/// After `shift_remove(k)` on entries whose keys are distinct, `k` is gone.
pub proof fn law_remove_then_get<K, V>(e: Seq<(K, V)>, k: K)
    requires
        unique_keys(e),
    ensures
        map_get(map_shift_remove(e, k), k) is None,
{
    lemma_key_position(e, k);
    if let Some(i) = key_position(e, k) {
        let f = e.remove(i);
        lemma_key_position(f, k);
        if let Some(q) = key_position(f, k) {
            if q < i {
                assert(f[q] == e[q]);
            } else {
                assert(f[q] == e[q + 1]);
                assert(e[i].0 != e[q + 1].0);
            }
        }
    }
}

/// The items of an `IndexSet` after `insert(x)`.
pub open spec fn set_insert<T>(e: Seq<T>, x: T) -> Seq<T> {
    match item_position(e, x) {
        Some(_) => e,
        None => e.push(x),
    }
}

/// The items of an `IndexSet` after `swap_remove(x)`: the last item takes the
/// place of the removed one.
pub open spec fn set_swap_remove<T>(e: Seq<T>, x: T) -> Seq<T> {
    match item_position(e, x) {
        Some(i) => e.update(i, e.last()).drop_last(),
        None => e,
    }
}

// ---------------------------------------------------------------------------
// The attributes of an element: IndexMap<String, AttributeValue>
// ---------------------------------------------------------------------------

/// The entries of an attribute map, in order, keyed by the attribute names' characters.
pub uninterp spec fn attribute_entries(m: IndexMap<String, AttributeValue>) -> Seq<(Seq<char>, AttributeValue)>;

/// `IndexMap::new`: an empty map.
#[verifier::external_body]
pub(crate) fn attribute_map_new() -> (m: IndexMap<String, AttributeValue>)
    ensures
        attribute_entries(m) == Seq::<(Seq<char>, AttributeValue)>::empty(),
{
    IndexMap::new()
}

/// `IndexMap::len`: the number of entries.
#[verifier::external_body]
pub(crate) fn attribute_map_len(m: &IndexMap<String, AttributeValue>) -> (r: usize)
    ensures
        r == attribute_entries(*m).len(),
{
    m.len()
}

/// `IndexMap::get_index`: the entry at a position, in insertion order.
#[verifier::external_body]
pub(crate) fn attribute_map_get_index(m: &IndexMap<String, AttributeValue>, i: usize) -> (r: Option<(&String, &AttributeValue)>)
    ensures
        match r {
            Some((k, v)) => i < attribute_entries(*m).len() && k@ == attribute_entries(*m)[i as int].0
                && *v == attribute_entries(*m)[i as int].1,
            None => i >= attribute_entries(*m).len(),
        },
{
    m.get_index(i)
}

/// `IndexMap::get`: the value stored under a key.
#[verifier::external_body]
pub(crate) fn attribute_map_get<'a>(m: &'a IndexMap<String, AttributeValue>, key: &str) -> (r: Option<&'a AttributeValue>)
    ensures
        match r {
            Some(v) => key_position(attribute_entries(*m), key@) matches Some(i) && *v
                == attribute_entries(*m)[i].1,
            None => key_position(attribute_entries(*m), key@) is None,
        },
{
    m.get(key)
}

/// `IndexMap::contains_key`.
#[verifier::external_body]
pub(crate) fn attribute_map_contains_key(m: &IndexMap<String, AttributeValue>, key: &str) -> (r: bool)
    ensures
        r == key_position(attribute_entries(*m), key@) is Some,
{
    m.contains_key(key)
}

/// `IndexMap::insert`: replaces the value of an existing key in place and
/// returns the old value, or appends a new entry and returns `None`.
#[verifier::external_body]
pub(crate) fn attribute_map_insert(m: &mut IndexMap<String, AttributeValue>, key: String, value: AttributeValue) -> (r: Option<AttributeValue>)
    ensures
        attribute_entries(*final(m)) == map_insert(attribute_entries(*old(m)), key@, value),
        r == match key_position(attribute_entries(*old(m)), key@) {
            Some(i) => Some(attribute_entries(*old(m))[i].1),
            None => None,
        },
{
    m.insert(key, value)
}

/// `IndexMap::shift_remove`: removes an entry, keeping the order of the others.
#[verifier::external_body]
pub(crate) fn attribute_map_shift_remove(m: &mut IndexMap<String, AttributeValue>, key: &str) -> (r: Option<AttributeValue>)
    ensures
        attribute_entries(*final(m)) == map_shift_remove(attribute_entries(*old(m)), key@),
        r == match key_position(attribute_entries(*old(m)), key@) {
            Some(i) => Some(attribute_entries(*old(m))[i].1),
            None => None,
        },
{
    m.shift_remove(key)
}

// ---------------------------------------------------------------------------
// A table of strings: IndexSet<String>
// ---------------------------------------------------------------------------

/// The strings of a string set, in order.
pub uninterp spec fn string_set_items(s: IndexSet<String>) -> Seq<Seq<char>>;

/// `IndexSet::new`: an empty set.
#[verifier::external_body]
pub(crate) fn string_set_new() -> (s: IndexSet<String>)
    ensures
        string_set_items(s) == Seq::<Seq<char>>::empty(),
{
    IndexSet::new()
}

/// `IndexSet::len`.
#[verifier::external_body]
pub(crate) fn string_set_len(s: &IndexSet<String>) -> (r: usize)
    ensures
        r == string_set_items(*s).len(),
{
    s.len()
}

/// `IndexSet::insert`: appends the string when it is not yet there.
#[verifier::external_body]
pub(crate) fn string_set_insert(s: &mut IndexSet<String>, value: String) -> (r: bool)
    ensures
        string_set_items(*final(s)) == set_insert(string_set_items(*old(s)), value@),
        r == item_position(string_set_items(*old(s)), value@) is None,
{
    s.insert(value)
}

/// `IndexSet::get_index_of`: the position of a string.
#[verifier::external_body]
pub(crate) fn string_set_get_index_of(s: &IndexSet<String>, value: &str) -> (r: Option<usize>)
    ensures
        match r {
            Some(i) => item_position(string_set_items(*s), value@) == Some(i as int),
            None => item_position(string_set_items(*s), value@) is None,
        },
{
    s.get_index_of(value)
}

/// `IndexSet::swap_remove`: removes a string; the last string takes its place.
#[verifier::external_body]
pub(crate) fn string_set_swap_remove(s: &mut IndexSet<String>, value: &str) -> (r: bool)
    ensures
        string_set_items(*final(s)) == set_swap_remove(string_set_items(*old(s)), value@),
        r == item_position(string_set_items(*old(s)), value@) is Some,
{
    s.swap_remove(value)
}

/// `IndexSet::get_index`: the string at a position.
#[verifier::external_body]
pub(crate) fn string_set_get_index(s: &IndexSet<String>, i: usize) -> (r: Option<&String>)
    ensures
        match r {
            Some(v) => i < string_set_items(*s).len() && v@ == string_set_items(*s)[i as int],
            None => i >= string_set_items(*s).len(),
        },
{
    s.get_index(i)
}

// ---------------------------------------------------------------------------
// Elements found by their id: IndexMap<UuidBytes, usize>
// ---------------------------------------------------------------------------

/// The entries of an id map, in order.
pub uninterp spec fn id_map_entries(m: IndexMap<UuidBytes, usize>) -> Seq<(UuidBytes, usize)>;

/// `IndexMap::new`: an empty map.
#[verifier::external_body]
pub(crate) fn id_map_new() -> (m: IndexMap<UuidBytes, usize>)
    ensures
        id_map_entries(m) == Seq::<(UuidBytes, usize)>::empty(),
{
    IndexMap::new()
}


/// `IndexMap::insert`: replaces the value of an existing key in place, or appends.
#[verifier::external_body]
pub(crate) fn id_map_insert(m: &mut IndexMap<UuidBytes, usize>, key: UuidBytes, value: usize) -> (r: Option<usize>)
    ensures
        id_map_entries(*final(m)) == map_insert(id_map_entries(*old(m)), key, value),
        r == match key_position(id_map_entries(*old(m)), key) {
            Some(i) => Some(id_map_entries(*old(m))[i].1),
            None => None,
        },
{
    m.insert(key, value)
}

/// `IndexMap::get`: the value stored under a key.
#[verifier::external_body]
pub(crate) fn id_map_get(m: &IndexMap<UuidBytes, usize>, key: &UuidBytes) -> (r: Option<usize>)
    ensures
        r == match key_position(id_map_entries(*m), *key) {
            Some(i) => Some(id_map_entries(*m)[i].1),
            None => None,
        },
{
    m.get(key).copied()
}

/// `IndexMap::get_index_of`: the position of a key.
#[verifier::external_body]
pub(crate) fn id_map_get_index_of(m: &IndexMap<UuidBytes, usize>, key: &UuidBytes) -> (r: Option<usize>)
    ensures
        match r {
            Some(i) => key_position(id_map_entries(*m), *key) == Some(i as int),
            None => key_position(id_map_entries(*m), *key) is None,
        },
{
    m.get_index_of(key)
}


/// `IndexMap::shift_remove`: removes an entry, keeping the order of the others.
#[verifier::external_body]
pub(crate) fn id_map_shift_remove(m: &mut IndexMap<UuidBytes, usize>, key: &UuidBytes) -> (r: Option<usize>)
    ensures
        id_map_entries(*final(m)) == map_shift_remove(id_map_entries(*old(m)), *key),
        r == match key_position(id_map_entries(*old(m)), *key) {
            Some(i) => Some(id_map_entries(*old(m))[i].1),
            None => None,
        },
{
    m.shift_remove(key)
}

} // verus!
