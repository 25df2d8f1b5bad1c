//! What reading a whole binary document gives back of what writing it gave:
//! the collected elements in table order, each with its class and id, its
//! name as its first attribute, and its other attributes with element
//! references renumbered to table positions.

use vstd::prelude::*;
use crate::attribute::SpecAttributeValue;
use crate::collections::{
    item_position, key_position, law_insert_then_get, lemma_item_position, lemma_key_position, map_get, map_insert,
    set_insert, set_swap_remove, unique_keys,
};
use crate::element::{with_attribute, ElementView};
use crate::serializers::binary_document::{
    decode_binary, item_header, name_key, p_bodies, p_body, p_body_entries, p_body_entry, p_body_value, p_document,
    p_elements, p_header, p_prefix, p_ref, p_refs, p_table, p_table_size, table_element,
};
use crate::serializers::binary_encode::{
    array_id, enc_attribute, enc_attributes, enc_bodies, enc_body, enc_header, enc_headers, enc_items, enc_ref,
    enc_table, enc_value, enc_versioned_string, encode_binary, ref_index, stored_count,
};
use crate::serializers::binary_format::{
    array_offset, enc_i16, enc_i32, enc_i8, enc_string, enc_uuid, is_element_array_type, item_string,
    law_i32_round_trip, law_string_round_trip, law_uuid_round_trip, p_attribute, p_i16, p_i32, p_i8, p_many, p_size,
    p_string, p_versioned_string, table_string, wrap_i16, wrap_i32, SpecBinaryError, ATTRIBUTE_ELEMENT_ID,
    ATTRIBUTE_STRING_ID, BINARY_VERSION, MAX_ARRAY_SIZE, VERSION_DEPRECATE_LINK_TYPE, VERSION_GLOBAL_STRING_TABLE,
    VERSION_LARGE_STRING_INDEX, VERSION_LINK_TYPE, VERSION_PREFIX_ELEMENT, VERSION_STRING_TABLE,
};
use crate::serializers::binary_laws::{
    law_value_round_trip, lemma_array_items, lemma_many, lemma_split, lemma_type_id, reads_back, stands_alone,
};
use crate::serializers::collect::{
    attribute_refs, attribute_strings, collect_order, collect_run, collected_strings, id_entries,
    lemma_collected_strings_contain, strings_upto, value_string_in, visit,
};
use crate::serializers::keyvalues2_values::ParsedTime;
use crate::serializing::{
    binary_name, format_word, header_end, header_start, law_header_round_trip, lemma_int_decimal_word, line_end,
    spec_create_header, spec_deserialize, SpecSerializationError,
};
use crate::attribute::UuidBytes;
use crate::text::{int_decimal, is_word, lemma_utf8_add, utf8_lossy};

verus! {

/// A string without NUL characters, which a zero-terminated string keeps whole.
pub open spec fn nul_free(s: Seq<char>) -> bool {
    forall|k: int| 0 <= k < s.len() ==> s[k] != '\0'
}

/// What `Writer::write_integer` writes in front of any bytes,
/// `Reader::read_integer` reads back: the integer, four bytes on.
pub proof fn law_integer_reads_back(v: i32, rest: Seq<u8>)
    ensures
        p_i32(enc_i32(v) + rest, 0) == Ok::<(i32, int), SpecBinaryError>((v, 4)),
{
    let d = enc_i32(v) + rest;
    assert(d.subrange(0, 4) =~= enc_i32(v));
    law_i32_round_trip(d, 0, v);
}

/// What `Writer::write_string` writes in front of any bytes,
/// `Reader::read_string` reads back, for a string without NUL characters:
/// the string, its bytes and the terminating zero on.
pub proof fn law_string_reads_back(s: Seq<char>, rest: Seq<u8>)
    requires
        nul_free(s),
    ensures
        p_string(enc_string(s) + rest, 0) == (s, enc_string(s).len() as int),
{
    let d = enc_string(s) + rest;
    assert(d.subrange(0, enc_string(s).len() as int) =~= enc_string(s));
    law_string_round_trip(d, 0, s);
}

/// Reading an `i16` where one was written gives it back.
proof fn lemma_i16_round_trip(d: Seq<u8>, p: int, v: i16)
    requires
        0 <= p,
        p + 2 <= d.len(),
        d.subrange(p, p + 2) == enc_i16(v),
    ensures
        p_i16(d, p) == Ok::<(i16, int), SpecBinaryError>((v, p + 2)),
{
    assert(d[p] == d.subrange(p, p + 2)[0]);
    assert(d[p + 1] == d.subrange(p, p + 2)[1]);
}

/// A string without NUL characters reads back wherever it was written.
proof fn lemma_string_reads_back(d: Seq<u8>, s: Seq<char>)
    requires
        nul_free(s),
    ensures
        reads_back(d, item_string(), |x: Seq<char>| enc_string(x), s),
{
    assert forall|q: int|
        0 <= q && q + enc_string(s).len() <= d.len() && d.subrange(q, q + enc_string(s).len()) == enc_string(s)
        implies #[trigger] item_string()(d, q) == Ok::<(Seq<char>, int), SpecBinaryError>((s, q + enc_string(s).len())) by {
        law_string_round_trip(d, q, s);
    }
}

/// The string table size that a version can read back.
pub open spec fn table_fits(version: i32, n: int) -> bool {
    if version >= VERSION_GLOBAL_STRING_TABLE {
        n < 2147483648
    } else {
        n < 32768
    }
}

/// A written string table reads back.
proof fn lemma_table(d: Seq<u8>, p: int, version: i32, t: Seq<Seq<char>>)
    requires
        version >= VERSION_STRING_TABLE || t.len() == 0,
        table_fits(version, t.len() as int),
        forall|i: int| 0 <= i < t.len() ==> nul_free(#[trigger] t[i]),
        0 <= p,
        p + enc_table(version, t).len() <= d.len(),
        d.subrange(p, p + enc_table(version, t).len()) == enc_table(version, t),
    ensures
        p_table(d, p, version) == Ok::<(Seq<Seq<char>>, int), SpecBinaryError>((t, p + enc_table(version, t).len())),
{
    let f = |x: Seq<char>| enc_string(x);
    let items = enc_items(t, f);
    assert forall|i: int| 0 <= i < t.len() implies reads_back(d, item_string(), f, #[trigger] t[i]) by {
        lemma_string_reads_back(d, t[i]);
    }
    if version >= VERSION_GLOBAL_STRING_TABLE {
        let size = enc_i32(wrap_i32(t.len() as int));
        lemma_split(d, p, size, items);
        assert(wrap_i32(t.len() as int) == t.len());
        law_i32_round_trip(d, p, wrap_i32(t.len() as int));
        assert(p_size(d, p) == Ok::<(int, int), SpecBinaryError>((t.len() as int, p + 4)));
        assert(p_table_size(d, p, version) == Ok::<(int, int), SpecBinaryError>((t.len() as int, p + 4)));
        lemma_many(d, p + 4, t, f, item_string());
    } else if version >= VERSION_STRING_TABLE {
        let size = enc_i16(wrap_i16(t.len() as int));
        lemma_split(d, p, size, items);
        assert(wrap_i16(t.len() as int) == t.len());
        lemma_i16_round_trip(d, p, wrap_i16(t.len() as int));
        assert(p_table_size(d, p, version) == Ok::<(int, int), SpecBinaryError>((t.len() as int, p + 2)));
        lemma_many(d, p + 2, t, f, item_string());
    } else {
        assert(t =~= Seq::<Seq<char>>::empty());
    }
}

/// Whether the writer can store `s` in table `t` in a version that stores it
/// from version `from`: by index when it is empty or in the table, or
/// inline when it has no NUL character.
pub open spec fn string_stored(s: Seq<char>, version: i32, from: i32, t: Seq<Seq<char>>) -> bool {
    if version >= from {
        s.len() == 0 || item_position(t, s) is Some
    } else {
        nul_free(s)
    }
}

/// A string that the writer stores by table index or inline reads back.
proof fn lemma_versioned_string(d: Seq<u8>, p: int, version: i32, from: i32, t: Seq<Seq<char>>, s: Seq<char>)
    requires
        from == VERSION_STRING_TABLE || from == VERSION_GLOBAL_STRING_TABLE,
        string_stored(s, version, from, t),
        indices_fit(version, t),
        0 <= p,
        p + enc_versioned_string(s, version, from, t).len() <= d.len(),
        d.subrange(p, p + enc_versioned_string(s, version, from, t).len()) == enc_versioned_string(s, version, from, t),
    ensures
        p_versioned_string(d, p, version, VERSION_LARGE_STRING_INDEX, from, t) == Ok::<(Seq<char>, int), SpecBinaryError>(
            (s, p + enc_versioned_string(s, version, from, t).len()),
        ),
{
    if version >= from {
        lemma_item_position(t, s);
        let index: int = if s.len() == 0 {
            -1
        } else {
            item_position(t, s)->0
        };
        if s.len() == 0 {
            assert(s =~= Seq::<char>::empty());
        }
        assert(table_string(index as i32, t) == Ok::<Seq<char>, SpecBinaryError>(s));
        if version >= VERSION_LARGE_STRING_INDEX {
            law_i32_round_trip(d, p, index as i32);
        } else {
            lemma_i16_round_trip(d, p, index as i16);
        }
    } else {
        law_string_round_trip(d, p, s);
    }
}

/// The name that the element table stores for an element: its "name"
/// attribute, or the empty string when it has none.
pub open spec fn stored_name(attrs: Seq<(Seq<char>, SpecAttributeValue)>) -> Seq<char> {
    match key_position(attrs, name_key()) {
        Some(i) => match attrs[i].1 {
            SpecAttributeValue::String(s) => s,
            _ => seq![],
        },
        None => seq![],
    }
}

/// The bounds on a string table under which the indices that a version
/// writes read back.
pub open spec fn indices_fit(version: i32, t: Seq<Seq<char>>) -> bool {
    &&& version < VERSION_LARGE_STRING_INDEX ==> t.len() <= 32768
    &&& t.len() < 2147483648
}

/// A written element table entry reads back as the element's class, name and id.
proof fn lemma_header(d: Seq<u8>, p: int, version: i32, t: Seq<Seq<char>>, e: ElementView, pos: int, b: Seq<u8>)
    requires
        enc_header(e, pos, version, t) == Ok::<Seq<u8>, SpecBinaryError>(b),
        e.id.len() == 16,
        string_stored(e.class, version, VERSION_STRING_TABLE, t),
        string_stored(stored_name(e.attributes), version, VERSION_GLOBAL_STRING_TABLE, t),
        indices_fit(version, t),
        0 <= p,
        p + b.len() <= d.len(),
        d.subrange(p, p + b.len()) == b,
    ensures
        p_header(d, p, version, t) == Ok::<(ElementView, int), SpecBinaryError>(
            (table_element(e.class, stored_name(e.attributes), e.id), p + b.len()),
        ),
{
    reveal(p_header);
    let class = enc_versioned_string(e.class, version, VERSION_STRING_TABLE, t);
    let link = if VERSION_LINK_TYPE <= version && version < VERSION_DEPRECATE_LINK_TYPE {
        enc_i32(-1i32)
    } else {
        seq![]
    };
    let name = stored_name(e.attributes);
    let nb = enc_versioned_string(name, version, VERSION_GLOBAL_STRING_TABLE, t);
    let id = enc_uuid(e.id);
    assert(b == class + link + nb + id);
    lemma_split(d, p, class + link + nb, id);
    lemma_split(d, p, class + link, nb);
    lemma_split(d, p, class, link);
    lemma_versioned_string(d, p, version, VERSION_STRING_TABLE, t, e.class);
    let q1 = p + class.len() + link.len();
    if VERSION_LINK_TYPE <= version && version < VERSION_DEPRECATE_LINK_TYPE {
        law_i32_round_trip(d, p + class.len(), -1i32);
    }
    lemma_versioned_string(d, q1, version, VERSION_GLOBAL_STRING_TABLE, t, name);
    law_uuid_round_trip(d, q1 + nb.len(), e.id);
}

/// What the element table gives for the element at graph position `r`.
pub open spec fn header_view(g: Seq<ElementView>, r: int) -> ElementView {
    table_element(g[r].class, stored_name(g[r].attributes), g[r].id)
}

/// Whether the element table entry of an element reads back.
pub open spec fn header_stored(e: ElementView, version: i32, t: Seq<Seq<char>>) -> bool {
    &&& e.id.len() == 16
    &&& string_stored(e.class, version, VERSION_STRING_TABLE, t)
    &&& string_stored(stored_name(e.attributes), version, VERSION_GLOBAL_STRING_TABLE, t)
}

/// The element table entries of the first `k` collected elements read back.
proof fn lemma_headers(
    d: Seq<u8>,
    p: int,
    version: i32,
    t: Seq<Seq<char>>,
    g: Seq<ElementView>,
    c: Seq<usize>,
    k: nat,
    b: Seq<u8>,
)
    requires
        k <= c.len(),
        enc_headers(g, c, version, t, k) == Ok::<Seq<u8>, SpecBinaryError>(b),
        forall|j: int| 0 <= j < k ==> header_stored(g[#[trigger] c[j] as int], version, t),
        indices_fit(version, t),
        0 <= p,
        p + b.len() <= d.len(),
        d.subrange(p, p + b.len()) == b,
    ensures
        p_many(d, p, k, item_header(version, t)) == Ok::<(Seq<ElementView>, int), SpecBinaryError>(
            (Seq::new(k, |j: int| header_view(g, c[j] as int)), p + b.len()),
        ),
    decreases k,
{
    if k > 0 {
        let a = enc_headers(g, c, version, t, (k - 1) as nat)->Ok_0;
        let r = c[k - 1] as int;
        let hb = enc_header(g[r], r, version, t)->Ok_0;
        assert(b == a + hb);
        lemma_split(d, p, a, hb);
        lemma_headers(d, p, version, t, g, c, (k - 1) as nat, a);
        assert(header_stored(g[c[k - 1] as int], version, t));
        lemma_header(d, p + a.len(), version, t, g[r], r, hb);
        assert(Seq::new((k - 1) as nat, |j: int| header_view(g, c[j] as int)).push(header_view(g, r))
            =~= Seq::new(k, |j: int| header_view(g, c[j] as int)));
    } else {
        assert(Seq::new(k, |j: int| header_view(g, c[j] as int)) =~= Seq::<ElementView>::empty());
    }
}

/// What the reader gives for an element reference that the writer stored:
/// the table position of the collected element with the referred element's
/// id, or none.
pub open spec fn stored_ref(g: Seq<ElementView>, c: Seq<usize>, r: Option<usize>) -> Option<usize> {
    match r {
        Some(x) => if ref_index(g, c, x) >= 0 {
            Some(ref_index(g, c, x) as usize)
        } else {
            None
        },
        None => None,
    }
}

/// A stored reference is -1 or a table position.
proof fn lemma_ref_index(g: Seq<ElementView>, c: Seq<usize>, x: usize)
    ensures
        -1 <= ref_index(g, c, x) < c.len(),
{
    lemma_key_position(id_entries(g, c), g[x as int].id);
}

/// A written element reference reads back as the stored reference.
proof fn lemma_ref(d: Seq<u8>, p: int, g: Seq<ElementView>, c: Seq<usize>, es: Seq<ElementView>, r: Option<usize>)
    requires
        c.len() < 2147483648,
        0 <= p,
        p + 4 <= d.len(),
        d.subrange(p, p + 4) == enc_ref(g, c, r),
    ensures
        p_ref(d, p, c.len() as int, es) == Ok::<(Option<usize>, Seq<ElementView>, int), SpecBinaryError>(
            (stored_ref(g, c, r), es, p + 4),
        ),
{
    match r {
        Some(x) => {
            lemma_ref_index(g, c, x);
            law_i32_round_trip(d, p, ref_index(g, c, x) as i32);
        },
        None => {
            law_i32_round_trip(d, p, -1i32);
        },
    }
}

/// Written element references read back one after the other.
proof fn lemma_refs(d: Seq<u8>, p: int, g: Seq<ElementView>, c: Seq<usize>, es: Seq<ElementView>, rs: Seq<Option<usize>>)
    requires
        c.len() < 2147483648,
        0 <= p,
        p + enc_items(rs, |r: Option<usize>| enc_ref(g, c, r)).len() <= d.len(),
        d.subrange(p, p + enc_items(rs, |r: Option<usize>| enc_ref(g, c, r)).len()) == enc_items(
            rs,
            |r: Option<usize>| enc_ref(g, c, r),
        ),
    ensures
        p_refs(d, p, c.len() as int, es, rs.len()) == Ok::<(Seq<Option<usize>>, Seq<ElementView>, int), SpecBinaryError>(
            (
                rs.map_values(|r: Option<usize>| stored_ref(g, c, r)),
                es,
                p + enc_items(rs, |r: Option<usize>| enc_ref(g, c, r)).len(),
            ),
        ),
    decreases rs.len(),
{
    let f = |r: Option<usize>| enc_ref(g, c, r);
    if rs.len() > 0 {
        let ys = rs.drop_last();
        let a = enc_items(ys, f);
        let b = f(rs.last());
        assert(enc_items(rs, f) == a + b);
        lemma_split(d, p, a, b);
        lemma_refs(d, p, g, c, es, ys);
        assert(((rs.len() - 1) as nat) == ys.len());
        lemma_ref(d, p + a.len(), g, c, es, rs.last());
        assert(ys.map_values(|r: Option<usize>| stored_ref(g, c, r)).push(stored_ref(g, c, rs.last()))
            =~= rs.map_values(|r: Option<usize>| stored_ref(g, c, r)));
    } else {
        assert(rs.map_values(|r: Option<usize>| stored_ref(g, c, r)) =~= Seq::<Option<usize>>::empty());
    }
}

/// What the reader gives for an attribute value that the writer stored:
/// the value, with element references renumbered to table positions.
pub open spec fn stored_value(g: Seq<ElementView>, c: Seq<usize>, v: SpecAttributeValue) -> SpecAttributeValue {
    match v {
        SpecAttributeValue::Element(r) => SpecAttributeValue::Element(stored_ref(g, c, r)),
        SpecAttributeValue::ElementArray(rs) => SpecAttributeValue::ElementArray(
            rs.map_values(|r: Option<usize>| stored_ref(g, c, r)),
        ),
        _ => v,
    }
}

/// Whether a value that the writer stores reads back: strings without NUL
/// characters (or, from version 4, in the string table), arrays and blocks
/// shorter than 2^31, ids of sixteen bytes and matrices of sixteen entries.
pub open spec fn value_stored(version: i32, t: Seq<Seq<char>>, v: SpecAttributeValue) -> bool {
    match v {
        SpecAttributeValue::Element(_) => true,
        SpecAttributeValue::ElementArray(rs) => rs.len() < MAX_ARRAY_SIZE,
        SpecAttributeValue::String(s) => string_stored(s, version, VERSION_GLOBAL_STRING_TABLE, t),
        SpecAttributeValue::StringArray(xs) => xs.len() < MAX_ARRAY_SIZE && forall|i: int|
            0 <= i < xs.len() ==> nul_free(#[trigger] xs[i]),
        _ => stands_alone(v),
    }
}

/// The type id that the writer stores first for a value of neither element
/// nor string type is none of the ids that the reader treats apart.
proof fn lemma_alone_type(
    g: Seq<ElementView>,
    c: Seq<usize>,
    version: i32,
    t: Seq<Seq<char>>,
    name: Seq<char>,
    pos: int,
    v: SpecAttributeValue,
    b: Seq<u8>,
)
    requires
        1 <= version <= BINARY_VERSION,
        stands_alone(v),
        enc_value(g, c, version, t, name, pos, v) == Ok::<Seq<u8>, SpecBinaryError>(b),
    ensures
        b.len() >= 1,
        b[0] < 128,
        b[0] != ATTRIBUTE_ELEMENT_ID,
        b[0] != ATTRIBUTE_STRING_ID,
        b[0] != ATTRIBUTE_ELEMENT_ID + array_offset(version),
{
    reveal(enc_value);
}


/// An element reference value reads back.
proof fn lemma_body_element(
    d: Seq<u8>,
    p: int,
    g: Seq<ElementView>,
    c: Seq<usize>,
    version: i32,
    t: Seq<Seq<char>>,
    name: Seq<char>,
    pos: int,
    v: SpecAttributeValue,
    b: Seq<u8>,
    es: Seq<ElementView>,
)
    requires
        1 <= version <= BINARY_VERSION,
        enc_value(g, c, version, t, name, pos, v) == Ok::<Seq<u8>, SpecBinaryError>(b),
        value_stored(version, t, v),
        indices_fit(version, t),
        c.len() < 2147483648,
        0 <= p,
        p + b.len() <= d.len(),
        d.subrange(p, p + b.len()) == b,
        v is Element,
    ensures
        p_i8(d, p) matches Ok((ty, q)) && q == p + 1 && p_body_value(d, q, version, t, c.len() as int, es, ty)
            == Ok::<(SpecAttributeValue, Seq<ElementView>, int), SpecBinaryError>((stored_value(g, c, v), es, p + b.len())),
{
    reveal(enc_value);
    reveal(p_body_value);
    let r = v->Element_0;
    let rb = enc_ref(g, c, r);
    lemma_split(d, p, enc_i8(ATTRIBUTE_ELEMENT_ID), rb);
    lemma_type_id(d, p, ATTRIBUTE_ELEMENT_ID);
    lemma_ref(d, p + 1, g, c, es, r);
}

/// An element array value reads back.
proof fn lemma_body_element_array(
    d: Seq<u8>,
    p: int,
    g: Seq<ElementView>,
    c: Seq<usize>,
    version: i32,
    t: Seq<Seq<char>>,
    name: Seq<char>,
    pos: int,
    v: SpecAttributeValue,
    b: Seq<u8>,
    es: Seq<ElementView>,
)
    requires
        1 <= version <= BINARY_VERSION,
        enc_value(g, c, version, t, name, pos, v) == Ok::<Seq<u8>, SpecBinaryError>(b),
        value_stored(version, t, v),
        indices_fit(version, t),
        c.len() < 2147483648,
        0 <= p,
        p + b.len() <= d.len(),
        d.subrange(p, p + b.len()) == b,
        v is ElementArray,
    ensures
        p_i8(d, p) matches Ok((ty, q)) && q == p + 1 && p_body_value(d, q, version, t, c.len() as int, es, ty)
            == Ok::<(SpecAttributeValue, Seq<ElementView>, int), SpecBinaryError>((stored_value(g, c, v), es, p + b.len())),
{
    reveal(enc_value);
    reveal(p_body_value);
    let rs = v->ElementArray_0;
    let f = |r: Option<usize>| enc_ref(g, c, r);
    let ty = array_id(version, ATTRIBUTE_ELEMENT_ID);
    let size = enc_i32(wrap_i32(rs.len() as int));
    let items = enc_items(rs, f);
    assert(b == enc_i8(ty) + size + items);
    lemma_split(d, p, enc_i8(ty) + size, items);
    lemma_split(d, p, enc_i8(ty), size);
    lemma_type_id(d, p, ty);
    assert(wrap_i32(rs.len() as int) == rs.len());
    law_i32_round_trip(d, p + 1, wrap_i32(rs.len() as int));
    assert(is_element_array_type(version, ty));
    lemma_refs(d, p + 5, g, c, es, rs);
}

/// A string value reads back.
proof fn lemma_body_string(
    d: Seq<u8>,
    p: int,
    g: Seq<ElementView>,
    c: Seq<usize>,
    version: i32,
    t: Seq<Seq<char>>,
    name: Seq<char>,
    pos: int,
    v: SpecAttributeValue,
    b: Seq<u8>,
    es: Seq<ElementView>,
)
    requires
        1 <= version <= BINARY_VERSION,
        enc_value(g, c, version, t, name, pos, v) == Ok::<Seq<u8>, SpecBinaryError>(b),
        value_stored(version, t, v),
        indices_fit(version, t),
        c.len() < 2147483648,
        0 <= p,
        p + b.len() <= d.len(),
        d.subrange(p, p + b.len()) == b,
        v is String,
    ensures
        p_i8(d, p) matches Ok((ty, q)) && q == p + 1 && p_body_value(d, q, version, t, c.len() as int, es, ty)
            == Ok::<(SpecAttributeValue, Seq<ElementView>, int), SpecBinaryError>((stored_value(g, c, v), es, p + b.len())),
{
    reveal(enc_value);
    reveal(p_body_value);
    let x = v->String_0;
    let sb = enc_versioned_string(x, version, VERSION_GLOBAL_STRING_TABLE, t);
    lemma_split(d, p, enc_i8(ATTRIBUTE_STRING_ID), sb);
    lemma_type_id(d, p, ATTRIBUTE_STRING_ID);
    lemma_versioned_string(d, p + 1, version, VERSION_GLOBAL_STRING_TABLE, t, x);
}

/// A string array value reads back.
proof fn lemma_body_string_array(
    d: Seq<u8>,
    p: int,
    g: Seq<ElementView>,
    c: Seq<usize>,
    version: i32,
    t: Seq<Seq<char>>,
    name: Seq<char>,
    pos: int,
    v: SpecAttributeValue,
    b: Seq<u8>,
    es: Seq<ElementView>,
)
    requires
        1 <= version <= BINARY_VERSION,
        enc_value(g, c, version, t, name, pos, v) == Ok::<Seq<u8>, SpecBinaryError>(b),
        value_stored(version, t, v),
        indices_fit(version, t),
        c.len() < 2147483648,
        0 <= p,
        p + b.len() <= d.len(),
        d.subrange(p, p + b.len()) == b,
        v is StringArray,
    ensures
        p_i8(d, p) matches Ok((ty, q)) && q == p + 1 && p_body_value(d, q, version, t, c.len() as int, es, ty)
            == Ok::<(SpecAttributeValue, Seq<ElementView>, int), SpecBinaryError>((stored_value(g, c, v), es, p + b.len())),
{
    reveal(enc_value);
    let xs = v->StringArray_0;
    let f = |x: Seq<char>| enc_string(x);
    assert forall|i: int| 0 <= i < xs.len() implies reads_back(d, item_string(), f, #[trigger] xs[i]) by {
        lemma_string_reads_back(d, xs[i]);
    }
    lemma_array_items(d, p, version, ATTRIBUTE_STRING_ID, xs, f, item_string(), b);
    let ty = array_id(version, ATTRIBUTE_STRING_ID);
    reveal(p_attribute);
    assert((ty - array_offset(version)) as i8 == ATTRIBUTE_STRING_ID);
    assert(p_attribute(d, p + 1, version, ty) == Ok::<(SpecAttributeValue, int), SpecBinaryError>(
        (SpecAttributeValue::StringArray(xs), p + b.len()),
    ));
    reveal(p_body_value);
}

/// A value of neither element nor string type reads back.
proof fn lemma_body_alone(
    d: Seq<u8>,
    p: int,
    g: Seq<ElementView>,
    c: Seq<usize>,
    version: i32,
    t: Seq<Seq<char>>,
    name: Seq<char>,
    pos: int,
    v: SpecAttributeValue,
    b: Seq<u8>,
    es: Seq<ElementView>,
)
    requires
        1 <= version <= BINARY_VERSION,
        enc_value(g, c, version, t, name, pos, v) == Ok::<Seq<u8>, SpecBinaryError>(b),
        value_stored(version, t, v),
        indices_fit(version, t),
        c.len() < 2147483648,
        0 <= p,
        p + b.len() <= d.len(),
        d.subrange(p, p + b.len()) == b,
        stands_alone(v),
    ensures
        p_i8(d, p) matches Ok((ty, q)) && q == p + 1 && p_body_value(d, q, version, t, c.len() as int, es, ty)
            == Ok::<(SpecAttributeValue, Seq<ElementView>, int), SpecBinaryError>((stored_value(g, c, v), es, p + b.len())),
{
    lemma_alone_type(g, c, version, t, name, pos, v, b);
    law_value_round_trip(g, c, version, t, name, pos, v, b, d, p);
    assert(d[p] == b[0]) by {
        assert(d[p] == d.subrange(p, p + b.len())[0]);
    }
    reveal(p_body_value);
}

/// A written attribute value reads back, after its type id, as the stored
/// value; reading it adds no element.
proof fn lemma_body_value(
    d: Seq<u8>,
    p: int,
    g: Seq<ElementView>,
    c: Seq<usize>,
    version: i32,
    t: Seq<Seq<char>>,
    name: Seq<char>,
    pos: int,
    v: SpecAttributeValue,
    b: Seq<u8>,
    es: Seq<ElementView>,
)
    requires
        1 <= version <= BINARY_VERSION,
        enc_value(g, c, version, t, name, pos, v) == Ok::<Seq<u8>, SpecBinaryError>(b),
        value_stored(version, t, v),
        indices_fit(version, t),
        c.len() < 2147483648,
        0 <= p,
        p + b.len() <= d.len(),
        d.subrange(p, p + b.len()) == b,
    ensures
        p_i8(d, p) matches Ok((ty, q)) && q == p + 1 && p_body_value(d, q, version, t, c.len() as int, es, ty)
            == Ok::<(SpecAttributeValue, Seq<ElementView>, int), SpecBinaryError>((stored_value(g, c, v), es, p + b.len())),
{
    match v {
        SpecAttributeValue::Element(_) => lemma_body_element(d, p, g, c, version, t, name, pos, v, b, es),
        SpecAttributeValue::ElementArray(_) => lemma_body_element_array(d, p, g, c, version, t, name, pos, v, b, es),
        SpecAttributeValue::String(_) => lemma_body_string(d, p, g, c, version, t, name, pos, v, b, es),
        SpecAttributeValue::StringArray(_) => lemma_body_string_array(d, p, g, c, version, t, name, pos, v, b, es),
        _ => lemma_body_alone(d, p, g, c, version, t, name, pos, v, b, es),
    }
}

/// The attributes that reading back the first `k` of the attributes `attrs`
/// gives: the element table's name first, then each written attribute set
/// in turn (the "name" attribute is not written again).
pub open spec fn stored_attributes(
    g: Seq<ElementView>,
    c: Seq<usize>,
    attrs: Seq<(Seq<char>, SpecAttributeValue)>,
    k: nat,
) -> Seq<(Seq<char>, SpecAttributeValue)>
    decreases k,
{
    if k == 0 {
        seq![(name_key(), SpecAttributeValue::String(stored_name(attrs)))]
    } else {
        let prev = stored_attributes(g, c, attrs, (k - 1) as nat);
        if attrs[k - 1].0 == name_key() {
            prev
        } else {
            map_insert(prev, attrs[k - 1].0, stored_value(g, c, attrs[k - 1].1))
        }
    }
}

/// How many of the first `k` attributes are written after the element table.
pub open spec fn written_count(attrs: Seq<(Seq<char>, SpecAttributeValue)>, k: nat) -> nat
    decreases k,
{
    if k == 0 {
        0
    } else {
        written_count(attrs, (k - 1) as nat) + if attrs[k - 1].0 == name_key() {
            0nat
        } else {
            1nat
        }
    }
}

/// Whether the attributes of an element read back: their names as the
/// version stores them, and their values.
pub open spec fn attributes_stored(attrs: Seq<(Seq<char>, SpecAttributeValue)>, version: i32, t: Seq<Seq<char>>) -> bool {
    forall|j: int|
        0 <= j < attrs.len() ==> string_stored((#[trigger] attrs[j]).0, version, VERSION_STRING_TABLE, t)
            && value_stored(version, t, attrs[j].1)
}

/// The first `k` written attributes of the element at graph position `pos`
/// read back into the element at position `idx` of the elements read so far.
proof fn lemma_entries(
    d: Seq<u8>,
    p: int,
    g: Seq<ElementView>,
    c: Seq<usize>,
    version: i32,
    t: Seq<Seq<char>>,
    pos: int,
    idx: int,
    es: Seq<ElementView>,
    k: nat,
    b: Seq<u8>,
)
    requires
        1 <= version <= BINARY_VERSION,
        k <= g[pos].attributes.len(),
        enc_attributes(g, c, version, t, pos, g[pos].attributes, k) == Ok::<Seq<u8>, SpecBinaryError>(b),
        attributes_stored(g[pos].attributes, version, t),
        indices_fit(version, t),
        c.len() < 2147483648,
        0 <= idx < es.len(),
        es[idx].attributes == stored_attributes(g, c, g[pos].attributes, 0),
        0 <= p,
        p + b.len() <= d.len(),
        d.subrange(p, p + b.len()) == b,
    ensures
        p_body_entries(d, p, version, t, c.len() as int, es, idx, written_count(g[pos].attributes, k)) == Ok::<
            (Seq<ElementView>, int),
            SpecBinaryError,
        >((es.update(idx, ElementView { attributes: stored_attributes(g, c, g[pos].attributes, k), ..es[idx] }), p + b.len())),
    decreases k,
{
    let attrs = g[pos].attributes;
    if k == 0 {
        assert(es.update(idx, ElementView { attributes: stored_attributes(g, c, attrs, 0), ..es[idx] }) =~= es);
    } else {
        let a = enc_attributes(g, c, version, t, pos, attrs, (k - 1) as nat)->Ok_0;
        let x = attrs[k - 1];
        let xb = enc_attribute(g, c, version, t, pos, x)->Ok_0;
        assert(b == a + xb);
        lemma_split(d, p, a, xb);
        lemma_entries(d, p, g, c, version, t, pos, idx, es, (k - 1) as nat, a);
        let prev = stored_attributes(g, c, attrs, (k - 1) as nat);
        let es1 = es.update(idx, ElementView { attributes: prev, ..es[idx] });
        let q = p + a.len();
        if x.0 == name_key() {
            assert(xb =~= Seq::<u8>::empty());
            assert(b =~= a);
        } else {
            assert(string_stored(attrs[k - 1].0, version, VERSION_STRING_TABLE, t) && value_stored(version, t, attrs[k - 1].1));
            let nb = enc_versioned_string(x.0, version, VERSION_STRING_TABLE, t);
            let vb = enc_value(g, c, version, t, x.0, pos, x.1)->Ok_0;
            assert(xb == nb + vb);
            lemma_split(d, q, nb, vb);
            lemma_versioned_string(d, q, version, VERSION_STRING_TABLE, t, x.0);
            lemma_body_value(d, q + nb.len(), g, c, version, t, x.0, pos, x.1, vb, es1);
            let e2 = with_attribute(es1[idx], x.0, stored_value(g, c, x.1));
            assert(p_body_entry(d, q, version, t, c.len() as int, es1, idx) == Ok::<(Seq<ElementView>, int), SpecBinaryError>(
                (es1.update(idx, e2), p + b.len()),
            ));
            assert(es1.update(idx, e2) =~= es.update(
                idx,
                ElementView { attributes: stored_attributes(g, c, attrs, k), ..es[idx] },
            ));
        }
    }
}

/// With no key twice, every attribute but a "name" one is written after
/// the element table.
proof fn lemma_written_count(attrs: Seq<(Seq<char>, SpecAttributeValue)>, k: nat)
    requires
        unique_keys(attrs),
        k <= attrs.len(),
    ensures
        written_count(attrs, k) == k - if exists|j: int| 0 <= j < k && (#[trigger] attrs[j]).0 == name_key() {
            1int
        } else {
            0int
        },
    decreases k,
{
    if k > 0 {
        lemma_written_count(attrs, (k - 1) as nat);
        if attrs[k - 1].0 == name_key() {
            assert forall|j: int| 0 <= j < k - 1 implies (#[trigger] attrs[j]).0 != name_key() by {
                assert(attrs[j].0 != attrs[k - 1].0);
            }
        }
    }
}

/// The count that the writer stores before the attributes of an element is
/// the number of attributes that follow it.
proof fn lemma_stored_count(attrs: Seq<(Seq<char>, SpecAttributeValue)>)
    requires
        unique_keys(attrs),
    ensures
        written_count(attrs, attrs.len()) == stored_count(attrs),
{
    lemma_written_count(attrs, attrs.len());
    lemma_key_position(attrs, name_key());
}

/// Whether the element table entry and the attributes of an element read
/// back: an id of sixteen bytes, its strings as the version stores them, no
/// key twice and fewer than 2^31 attributes after the table.
pub open spec fn element_stored(e: ElementView, version: i32, t: Seq<Seq<char>>) -> bool {
    &&& header_stored(e, version, t)
    &&& unique_keys(e.attributes)
    &&& attributes_stored(e.attributes, version, t)
    &&& stored_count(e.attributes) < MAX_ARRAY_SIZE
}

/// The written attributes of the element at graph position `pos` read back
/// into the element at position `idx` of the elements read so far.
proof fn lemma_body(
    d: Seq<u8>,
    p: int,
    g: Seq<ElementView>,
    c: Seq<usize>,
    version: i32,
    t: Seq<Seq<char>>,
    pos: int,
    idx: int,
    es: Seq<ElementView>,
    b: Seq<u8>,
)
    requires
        1 <= version <= BINARY_VERSION,
        enc_body(g, c, version, t, pos) == Ok::<Seq<u8>, SpecBinaryError>(b),
        element_stored(g[pos], version, t),
        indices_fit(version, t),
        c.len() < 2147483648,
        0 <= idx < es.len(),
        es[idx].attributes == stored_attributes(g, c, g[pos].attributes, 0),
        0 <= p,
        p + b.len() <= d.len(),
        d.subrange(p, p + b.len()) == b,
    ensures
        p_body(d, p, version, t, c.len() as int, es, idx) == Ok::<(Seq<ElementView>, int), SpecBinaryError>(
            (
                es.update(idx, ElementView { attributes: stored_attributes(g, c, g[pos].attributes, g[pos].attributes.len()), ..es[idx] }),
                p + b.len(),
            ),
        ),
{
    let attrs = g[pos].attributes;
    let count = stored_count(attrs);
    let size = enc_i32(wrap_i32(count));
    let ab = enc_attributes(g, c, version, t, pos, attrs, attrs.len())->Ok_0;
    assert(b == size + ab);
    lemma_split(d, p, size, ab);
    assert(wrap_i32(count) == count);
    law_i32_round_trip(d, p, wrap_i32(count));
    lemma_stored_count(attrs);
    lemma_entries(d, p + 4, g, c, version, t, pos, idx, es, attrs.len(), ab);
}

/// An element read back from the document: its class and id, and its
/// attributes as [stored_attributes] gives them.
pub open spec fn stored_element(g: Seq<ElementView>, c: Seq<usize>, r: int) -> ElementView {
    ElementView {
        class: g[r].class,
        id: g[r].id,
        attributes: stored_attributes(g, c, g[r].attributes, g[r].attributes.len()),
    }
}

/// The elements read back after the attributes of the first `k` table
/// elements: those read back whole, then the element table's entries.
pub open spec fn read_so_far(g: Seq<ElementView>, c: Seq<usize>, k: int) -> Seq<ElementView> {
    Seq::new(c.len(), |j: int| if j < k { stored_element(g, c, c[j] as int) } else { header_view(g, c[j] as int) })
}

/// The written attributes of the first `k` collected elements read back.
proof fn lemma_bodies(
    d: Seq<u8>,
    p: int,
    g: Seq<ElementView>,
    c: Seq<usize>,
    version: i32,
    t: Seq<Seq<char>>,
    k: nat,
    b: Seq<u8>,
)
    requires
        1 <= version <= BINARY_VERSION,
        k <= c.len(),
        enc_bodies(g, c, version, t, k) == Ok::<Seq<u8>, SpecBinaryError>(b),
        forall|j: int| 0 <= j < k ==> element_stored(g[#[trigger] c[j] as int], version, t),
        indices_fit(version, t),
        c.len() < 2147483648,
        0 <= p,
        p + b.len() <= d.len(),
        d.subrange(p, p + b.len()) == b,
    ensures
        p_bodies(d, p, version, t, c.len() as int, read_so_far(g, c, 0), k) == Ok::<(Seq<ElementView>, int), SpecBinaryError>(
            (read_so_far(g, c, k as int), p + b.len()),
        ),
    decreases k,
{
    if k > 0 {
        let a = enc_bodies(g, c, version, t, (k - 1) as nat)->Ok_0;
        let r = c[k - 1] as int;
        let bb = enc_body(g, c, version, t, r)->Ok_0;
        assert(b == a + bb);
        lemma_split(d, p, a, bb);
        lemma_bodies(d, p, g, c, version, t, (k - 1) as nat, a);
        let es1 = read_so_far(g, c, k - 1);
        assert(element_stored(g[c[k - 1] as int], version, t));
        assert(es1[k - 1] == header_view(g, r));
        lemma_body(d, p + a.len(), g, c, version, t, r, k - 1, es1, bb);
        assert(es1.update(k - 1, ElementView { attributes: stored_attributes(g, c, g[r].attributes, g[r].attributes.len()), ..es1[k - 1] })
            =~= read_so_far(g, c, k as int));
    }
}

// ---------------------------------------------------------------------------
// The collected elements and the string table
// ---------------------------------------------------------------------------

/// Meeting references only adds collected elements.
proof fn lemma_visit_grows(g: Seq<ElementView>, c: Seq<usize>, s: Seq<usize>, refs: Seq<usize>)
    requires
        c.len() >= 1,
    ensures
        visit(g, c, s, refs).0.len() >= c.len(),
        visit(g, c, s, refs).0[0] == c[0],
    decreases refs.len(),
{
    if refs.len() > 0 {
        lemma_visit_grows(g, c, s, refs.drop_last());
    }
}

/// The walk only adds collected elements.
proof fn lemma_run_grows(g: Seq<ElementView>, c: Seq<usize>, s: Seq<usize>, k: nat)
    requires
        c.len() >= 1,
    ensures
        collect_run(g, c, s, k).0.len() >= c.len(),
        collect_run(g, c, s, k).0[0] == c[0],
    decreases k,
{
    if k > 0 {
        lemma_run_grows(g, c, s, (k - 1) as nat);
        let (c1, s1) = collect_run(g, c, s, (k - 1) as nat);
        if s1.len() > 0 {
            lemma_visit_grows(g, c1, s1.drop_last(), attribute_refs(g[s1.last() as int].attributes));
        }
    }
}

/// The root is the first collected element.
proof fn lemma_collect_root(g: Seq<ElementView>, root: usize)
    ensures
        collect_order(g, root).len() >= 1,
        collect_order(g, root)[0] == root,
{
    lemma_run_grows(g, seq![root], seq![root], g.len());
}

/// Every item of a table satisfies `nul_free`.
pub open spec fn all_nul_free(t: Seq<Seq<char>>) -> bool {
    forall|i: int| 0 <= i < t.len() ==> nul_free(#[trigger] t[i])
}

proof fn lemma_set_insert_nul_free(t: Seq<Seq<char>>, x: Seq<char>)
    requires
        all_nul_free(t),
        nul_free(x),
    ensures
        all_nul_free(set_insert(t, x)),
{
    assert forall|i: int| 0 <= i < set_insert(t, x).len() implies nul_free(#[trigger] set_insert(t, x)[i]) by {
        if i < t.len() {
            assert(set_insert(t, x)[i] == t[i]);
        }
    }
}

proof fn lemma_set_swap_remove_nul_free(t: Seq<Seq<char>>, x: Seq<char>)
    requires
        all_nul_free(t),
    ensures
        all_nul_free(set_swap_remove(t, x)),
{
    lemma_item_position(t, x);
    let r = set_swap_remove(t, x);
    assert forall|i: int| 0 <= i < r.len() implies nul_free(#[trigger] r[i]) by {
        match item_position(t, x) {
            Some(j) => {
                if i == j {
                    assert(r[i] == t[t.len() - 1]);
                } else {
                    assert(r[i] == t[i]);
                }
            },
            None => {},
        }
    }
}

/// Whether a value of an element that the writer stores reads back, NUL
/// characters, array lengths and the sizes of ids and matrices aside.
pub open spec fn value_whole(v: SpecAttributeValue) -> bool {
    match v {
        SpecAttributeValue::Element(_) => true,
        SpecAttributeValue::ElementArray(rs) => rs.len() < MAX_ARRAY_SIZE,
        SpecAttributeValue::String(s) => nul_free(s),
        SpecAttributeValue::StringArray(xs) => xs.len() < MAX_ARRAY_SIZE && forall|i: int|
            0 <= i < xs.len() ==> nul_free(#[trigger] xs[i]),
        _ => stands_alone(v),
    }
}

/// Whether an element reads back whole: an id of sixteen bytes, no
/// attribute name twice, fewer than 2^31 attributes after the element table,
/// and no NUL character in its class, its attribute names and its strings.
pub open spec fn element_whole(e: ElementView) -> bool {
    &&& e.id.len() == 16
    &&& unique_keys(e.attributes)
    &&& stored_count(e.attributes) < MAX_ARRAY_SIZE
    &&& nul_free(e.class)
    &&& forall|i: int| 0 <= i < e.attributes.len() ==> nul_free((#[trigger] e.attributes[i]).0) && value_whole(e.attributes[i].1)
}

proof fn lemma_attribute_strings_nul_free(t: Seq<Seq<char>>, attrs: Seq<(Seq<char>, SpecAttributeValue)>, version: i32)
    requires
        all_nul_free(t),
        forall|i: int| 0 <= i < attrs.len() ==> nul_free((#[trigger] attrs[i]).0) && value_whole(attrs[i].1),
    ensures
        all_nul_free(attribute_strings(t, attrs, version)),
    decreases attrs.len(),
{
    if attrs.len() > 0 {
        let pre = attrs.drop_last();
        assert forall|i: int| 0 <= i < pre.len() implies nul_free((#[trigger] pre[i]).0) && value_whole(pre[i].1) by {
            assert(pre[i] == attrs[i]);
        }
        lemma_attribute_strings_nul_free(t, pre, version);
        let t0 = attribute_strings(t, pre, version);
        assert(nul_free(attrs[attrs.len() - 1].0) && value_whole(attrs[attrs.len() - 1].1));
        lemma_set_insert_nul_free(t0, attrs.last().0);
        if let SpecAttributeValue::String(v) = attrs.last().1 {
            lemma_set_insert_nul_free(set_insert(t0, attrs.last().0), v);
        }
    }
}

proof fn lemma_strings_upto_nul_free(g: Seq<ElementView>, c: Seq<usize>, version: i32, k: nat)
    requires
        k <= c.len(),
        forall|j: int| 0 <= j < c.len() ==> element_whole(g[#[trigger] c[j] as int]),
    ensures
        all_nul_free(strings_upto(g, c, version, k)),
    decreases k,
{
    if k > 0 {
        lemma_strings_upto_nul_free(g, c, version, (k - 1) as nat);
        let e = g[c[k - 1] as int];
        assert(element_whole(g[c[k - 1] as int]));
        lemma_set_insert_nul_free(strings_upto(g, c, version, (k - 1) as nat), e.class);
        lemma_attribute_strings_nul_free(set_insert(strings_upto(g, c, version, (k - 1) as nat), e.class), e.attributes, version);
    }
}

/// The strings of the table have no NUL character.
proof fn lemma_table_nul_free(g: Seq<ElementView>, c: Seq<usize>, version: i32)
    requires
        forall|j: int| 0 <= j < c.len() ==> element_whole(g[#[trigger] c[j] as int]),
    ensures
        all_nul_free(collected_strings(g, c, version)),
{
    if version >= VERSION_STRING_TABLE {
        lemma_strings_upto_nul_free(g, c, version, c.len());
        lemma_set_swap_remove_nul_free(strings_upto(g, c, version, c.len()), seq![]);
    }
}

/// The string table sizes under which a version's table and indices read
/// back: below 2^31 from version 5, up to 2^15 in version 4 (16-bit
/// indices), and below 2^15 before (a 16-bit size).
pub open spec fn table_reads_back(version: i32, n: int) -> bool {
    if version >= VERSION_LARGE_STRING_INDEX {
        n < 2147483648
    } else if version >= VERSION_GLOBAL_STRING_TABLE {
        n <= 32768
    } else {
        n < 32768
    }
}

/// A collected element that reads back whole is stored so that it reads back.
proof fn lemma_element_stored(g: Seq<ElementView>, c: Seq<usize>, version: i32, k: int)
    requires
        0 <= k < c.len(),
        element_whole(g[c[k] as int]),
    ensures
        element_stored(g[c[k] as int], version, collected_strings(g, c, version)),
{
    let e = g[c[k] as int];
    let t = collected_strings(g, c, version);
    if version >= VERSION_STRING_TABLE {
        lemma_collected_strings_contain(g, c, version, k);
    }
    lemma_key_position(e.attributes, name_key());
    match key_position(e.attributes, name_key()) {
        Some(i) => {
            assert(value_string_in(version, t, e.attributes[i].1) || version < VERSION_STRING_TABLE);
            assert(nul_free(e.attributes[i].0) && value_whole(e.attributes[i].1));
        },
        None => {},
    }
    assert forall|j: int| 0 <= j < e.attributes.len() implies string_stored((#[trigger] e.attributes[j]).0, version, VERSION_STRING_TABLE, t)
        && value_stored(version, t, e.attributes[j].1) by {
        assert(nul_free(e.attributes[j].0) && value_whole(e.attributes[j].1));
        if version >= VERSION_STRING_TABLE {
            assert(value_string_in(version, t, e.attributes[j].1));
        }
    }
}

// ---------------------------------------------------------------------------
// The document
// ---------------------------------------------------------------------------

/// Whether the elements that `root` reaches read back whole: fewer than
/// 2^31 of them, a string table that the version reads back, and each
/// element as [element_whole] says.
pub open spec fn graph_whole(g: Seq<ElementView>, root: usize, version: i32) -> bool {
    let c = collect_order(g, root);
    &&& c.len() < 2147483648
    &&& table_reads_back(version, collected_strings(g, c, version).len() as int)
    &&& forall|j: int| 0 <= j < c.len() ==> element_whole(g[#[trigger] c[j] as int])
}

/// The parts of a written document: the header line and (from version 7)
/// an empty prefix element, the string table, the element count, the
/// element table and the attributes.
proof fn lemma_encoded_parts(header: Seq<char>, g: Seq<ElementView>, root: usize, version: i32)
    requires
        encode_binary(header, g, root, version) is Ok,
    ensures
        ({
            let c = collect_order(g, root);
            let t = collected_strings(g, c, version);
            &&& 1 <= version <= BINARY_VERSION
            &&& enc_headers(g, c, version, t, c.len()) is Ok
            &&& enc_bodies(g, c, version, t, c.len()) is Ok
            &&& encode_binary(header, g, root, version)->Ok_0 == enc_string(header) + (if version >= VERSION_PREFIX_ELEMENT {
                enc_i32(0)
            } else {
                seq![]
            }) + (enc_table(version, t) + enc_i32(wrap_i32(c.len() as int)) + enc_headers(g, c, version, t, c.len())->Ok_0
                + enc_bodies(g, c, version, t, c.len())->Ok_0)
        }),
{
    let c = collect_order(g, root);
    let t = collected_strings(g, c, version);
    let hs = enc_string(header);
    let prefix: Seq<u8> = if version >= VERSION_PREFIX_ELEMENT {
        enc_i32(0)
    } else {
        seq![]
    };
    let tb = enc_table(version, t);
    let nb = enc_i32(wrap_i32(c.len() as int));
    let hb = enc_headers(g, c, version, t, c.len())->Ok_0;
    let bb = enc_bodies(g, c, version, t, c.len())->Ok_0;
    assert(hs + prefix + tb + nb + hb + bb =~= hs + prefix + (tb + nb + hb + bb));
}

/// What follows the prefix element of a written document reads back.
proof fn lemma_elements(d: Seq<u8>, p: int, g: Seq<ElementView>, root: usize, version: i32)
    requires
        ({
            let c = collect_order(g, root);
            let t = collected_strings(g, c, version);
            &&& 1 <= version <= BINARY_VERSION
            &&& enc_headers(g, c, version, t, c.len()) is Ok
            &&& enc_bodies(g, c, version, t, c.len()) is Ok
            &&& 0 <= p <= d.len()
            &&& d.subrange(p, d.len() as int) == enc_table(version, t) + enc_i32(wrap_i32(c.len() as int)) + enc_headers(
                g,
                c,
                version,
                t,
                c.len(),
            )->Ok_0 + enc_bodies(g, c, version, t, c.len())->Ok_0
        }),
        graph_whole(g, root, version),
    ensures
        p_elements(d, p, version) == Ok::<Seq<ElementView>, SpecBinaryError>(read_so_far(g, collect_order(g, root), collect_order(g, root).len() as int)),
{
    let c = collect_order(g, root);
    let t = collected_strings(g, c, version);
    let n = c.len();
    let tb = enc_table(version, t);
    let nb = enc_i32(wrap_i32(n as int));
    let hb = enc_headers(g, c, version, t, n)->Ok_0;
    let bb = enc_bodies(g, c, version, t, n)->Ok_0;
    let p3 = p + tb.len();
    let p4 = p3 + 4;
    let p5 = p4 + hb.len();
    let end = p5 + bb.len();
    assert(end == d.len()) by {
        assert(d.subrange(p, d.len() as int).len() == (tb + nb + hb + bb).len());
    }
    lemma_split(d, p, tb + nb + hb, bb);
    lemma_split(d, p, tb + nb, hb);
    lemma_split(d, p, tb, nb);
    assert(p_table(d, p, version) == Ok::<(Seq<Seq<char>>, int), SpecBinaryError>((t, p3))) by {
        lemma_table_nul_free(g, c, version);
        lemma_table(d, p, version, t);
    }
    assert(p_size(d, p3) == Ok::<(int, int), SpecBinaryError>((n as int, p4))) by {
        assert(wrap_i32(n as int) == n);
        law_i32_round_trip(d, p3, wrap_i32(n as int));
    }
    assert forall|j: int| 0 <= j < n implies element_stored(g[#[trigger] c[j] as int], version, t) by {
        lemma_element_stored(g, c, version, j);
    }
    assert(p_many(d, p4, n, item_header(version, t)) == Ok::<(Seq<ElementView>, int), SpecBinaryError>(
        (read_so_far(g, c, 0), p5),
    )) by {
        assert forall|j: int| 0 <= j < n implies header_stored(g[#[trigger] c[j] as int], version, t) by {
            assert(element_stored(g[c[j] as int], version, t));
        }
        lemma_headers(d, p4, version, t, g, c, n, hb);
        assert(Seq::new(n, |j: int| header_view(g, c[j] as int)) =~= read_so_far(g, c, 0));
    }
    assert(p_bodies(d, p5, version, t, n as int, read_so_far(g, c, 0), n) == Ok::<(Seq<ElementView>, int), SpecBinaryError>(
        (read_so_far(g, c, n as int), end),
    )) by {
        lemma_bodies(d, p5, g, c, version, t, n, bb);
    }
    assert(n != 0) by {
        lemma_collect_root(g, root);
    }
}

/// The header line and the prefix element of a written document read back.
proof fn lemma_head(d: Seq<u8>, header: Seq<char>, version: i32, rest: Seq<u8>)
    requires
        nul_free(header),
        d == enc_string(header) + (if version >= VERSION_PREFIX_ELEMENT {
            enc_i32(0)
        } else {
            seq![]
        }) + rest,
    ensures
        ({
            let p2 = d.len() - rest.len();
            &&& 0 <= p2 <= d.len()
            &&& p_prefix(d, p_string(d, 0).1, version) == Ok::<int, SpecBinaryError>(p2)
            &&& d.subrange(p2, d.len() as int) == rest
        }),
{
    let hs = enc_string(header);
    let prefix: Seq<u8> = if version >= VERSION_PREFIX_ELEMENT {
        enc_i32(0)
    } else {
        seq![]
    };
    let p1 = hs.len() as int;
    let p2 = p1 + prefix.len();
    assert(d.subrange(0, d.len() as int) =~= d);
    lemma_split(d, 0, hs + prefix, rest);
    lemma_split(d, 0, hs, prefix);
    law_string_round_trip(d, 0, header);
    if version >= VERSION_PREFIX_ELEMENT {
        law_i32_round_trip(d, p1, 0i32);
    }
}

/// A written document reads back.
proof fn lemma_document(d: Seq<u8>, header: Seq<char>, g: Seq<ElementView>, root: usize, version: i32)
    requires
        ({
            let c = collect_order(g, root);
            let t = collected_strings(g, c, version);
            &&& 1 <= version <= BINARY_VERSION
            &&& enc_headers(g, c, version, t, c.len()) is Ok
            &&& enc_bodies(g, c, version, t, c.len()) is Ok
            &&& d == enc_string(header) + (if version >= VERSION_PREFIX_ELEMENT {
                enc_i32(0)
            } else {
                seq![]
            }) + (enc_table(version, t) + enc_i32(wrap_i32(c.len() as int)) + enc_headers(g, c, version, t, c.len())->Ok_0
                + enc_bodies(g, c, version, t, c.len())->Ok_0)
        }),
        nul_free(header),
        graph_whole(g, root, version),
    ensures
        p_document(d, version) == Ok::<Seq<ElementView>, SpecBinaryError>(
            read_so_far(g, collect_order(g, root), collect_order(g, root).len() as int),
        ),
{
    let c = collect_order(g, root);
    let t = collected_strings(g, c, version);
    let rest = enc_table(version, t) + enc_i32(wrap_i32(c.len() as int)) + enc_headers(g, c, version, t, c.len())->Ok_0
        + enc_bodies(g, c, version, t, c.len())->Ok_0;
    lemma_head(d, header, version, rest);
    lemma_elements(d, d.len() - rest.len(), g, root, version);
}

/// Reading back a binary document that the writer wrote gives the elements
/// that `root` reaches, in the order of the element table (the root first):
/// each with its class and id, its name as its first attribute, its other
/// attributes in order, and its element references renumbered to table
/// positions. It holds of every document whose elements read back whole
/// ([graph_whole]) and whose header line has no NUL character.
pub proof fn law_binary_round_trip(header: Seq<char>, g: Seq<ElementView>, root: usize, version: i32)
    requires
        1 <= version <= BINARY_VERSION,
        encode_binary(header, g, root, version) is Ok,
        nul_free(header),
        graph_whole(g, root, version),
    ensures
        decode_binary(encode_binary(header, g, root, version)->Ok_0, binary_name(), version) == Ok::<
            Seq<ElementView>,
            SpecBinaryError,
        >(Seq::new(collect_order(g, root).len(), |j: int| stored_element(g, collect_order(g, root), collect_order(g, root)[j] as int))),
{
    let c = collect_order(g, root);
    let d = encode_binary(header, g, root, version)->Ok_0;
    lemma_encoded_parts(header, g, root, version);
    lemma_document(d, header, g, root, version);
    assert(read_so_far(g, c, c.len() as int) =~= Seq::new(c.len(), |j: int| stored_element(g, c, c[j] as int)));
}

/// The value that reading back gives for the attribute `k` of attributes
/// `attrs`: its stored value, if it has one.
pub open spec fn stored_get(
    g: Seq<ElementView>,
    c: Seq<usize>,
    attrs: Seq<(Seq<char>, SpecAttributeValue)>,
    k: Seq<char>,
) -> Option<SpecAttributeValue> {
    match map_get(attrs, k) {
        Some(v) => Some(stored_value(g, c, v)),
        None => None,
    }
}

/// With no key twice, the value of a key in the first `n` entries is the
/// last entry's when that entry has the key.
proof fn lemma_take_get(attrs: Seq<(Seq<char>, SpecAttributeValue)>, n: int, k: Seq<char>)
    requires
        unique_keys(attrs),
        0 < n <= attrs.len(),
    ensures
        map_get(attrs.take(n), k) == if attrs[n - 1].0 == k {
            Some(attrs[n - 1].1)
        } else {
            map_get(attrs.take(n - 1), k)
        },
{
    let a = attrs.take(n);
    let b = attrs.take(n - 1);
    lemma_key_position(a, k);
    lemma_key_position(b, k);
    assert forall|j: int| 0 <= j < n - 1 implies #[trigger] a[j] == b[j] by {}
    if attrs[n - 1].0 == k {
        assert forall|j: int| 0 <= j < n - 1 implies (#[trigger] a[j]).0 != k by {
            assert(attrs[j].0 != attrs[n - 1].0);
        }
        assert(a[n - 1].0 == k);
    } else {
        match key_position(a, k) {
            Some(q) => {
                assert(q < n - 1);
                if let Some(p) = key_position(b, k) {
                    if p < q {
                        assert(a[p].0 == k);
                    }
                    if q < p {
                        assert(b[q].0 == k);
                    }
                } else {
                    assert(b[q].0 == k);
                }
            },
            None => {
                if let Some(p) = key_position(b, k) {
                    assert(a[p].0 == k);
                }
            },
        }
    }
}

/// What the stored attributes give for a key other than "name", and that the
/// name stays first.
proof fn lemma_stored_get(
    g: Seq<ElementView>,
    c: Seq<usize>,
    attrs: Seq<(Seq<char>, SpecAttributeValue)>,
    n: nat,
    k: Seq<char>,
)
    requires
        unique_keys(attrs),
        n <= attrs.len(),
        k != name_key(),
    ensures
        stored_attributes(g, c, attrs, n).len() >= 1,
        stored_attributes(g, c, attrs, n)[0] == (name_key(), SpecAttributeValue::String(stored_name(attrs))),
        map_get(stored_attributes(g, c, attrs, n), k) == stored_get(g, c, attrs.take(n as int), k),
    decreases n,
{
    if n == 0 {
        let e = stored_attributes(g, c, attrs, 0);
        assert(e.drop_first() =~= Seq::<(Seq<char>, SpecAttributeValue)>::empty());
        assert(attrs.take(0) =~= Seq::<(Seq<char>, SpecAttributeValue)>::empty());
    } else {
        lemma_stored_get(g, c, attrs, (n - 1) as nat, k);
        lemma_take_get(attrs, n as int, k);
        let prev = stored_attributes(g, c, attrs, (n - 1) as nat);
        let x = attrs[n - 1];
        if x.0 != name_key() {
            law_insert_then_get(prev, x.0, stored_value(g, c, x.1), k);
            lemma_key_position(prev, x.0);
            match key_position(prev, x.0) {
                Some(i) => {
                    assert(i != 0);
                },
                None => {},
            }
        }
    }
}

/// A reference that reading back gives names a table element with the id of
/// the element referred to: references are kept by id.
pub proof fn law_stored_ref_keeps_id(g: Seq<ElementView>, c: Seq<usize>, x: usize)
    requires
        c.len() <= usize::MAX,
    ensures
        stored_ref(g, c, Some(x)) matches Some(j) ==> 0 <= j < c.len() && g[c[j as int] as int].id == g[x as int].id,
{
    let e = id_entries(g, c);
    lemma_key_position(e, g[x as int].id);
    assert(e.len() == c.len());
    if let Some(i) = key_position(e, g[x as int].id) {
        assert(e[i] == (g[c[i] as int].id, c[i]));
        assert(ref_index(g, c, x) == i);
    }
}

/// Reading back a binary document that the writer wrote gives first the
/// root: its id and class, its name as its first attribute, and each other
/// attribute with the value it had (element references by table position,
/// see [law_stored_ref_keeps_id]).
pub proof fn law_binary_root_reads_back(header: Seq<char>, g: Seq<ElementView>, root: usize, version: i32)
    requires
        1 <= version <= BINARY_VERSION,
        encode_binary(header, g, root, version) is Ok,
        nul_free(header),
        graph_whole(g, root, version),
    ensures
        decode_binary(encode_binary(header, g, root, version)->Ok_0, binary_name(), version) matches Ok(es) && {
            &&& es.len() >= 1
            &&& es[0].id == g[root as int].id
            &&& es[0].class == g[root as int].class
            &&& es[0].attributes[0] == (name_key(), SpecAttributeValue::String(stored_name(g[root as int].attributes)))
            &&& forall|k: Seq<char>|
                k != name_key() ==> #[trigger] map_get(es[0].attributes, k) == stored_get(
                    g,
                    collect_order(g, root),
                    g[root as int].attributes,
                    k,
                )
        },
{
    let c = collect_order(g, root);
    law_binary_round_trip(header, g, root, version);
    lemma_collect_root(g, root);
    assert(element_whole(g[c[0] as int]));
    let attrs = g[root as int].attributes;
    assert(attrs.take(attrs.len() as int) =~= attrs);
    lemma_stored_get(g, c, attrs, attrs.len(), seq!['x']);
    assert forall|k: Seq<char>| k != name_key() implies #[trigger] map_get(stored_element(g, c, c[0] as int).attributes, k)
        == stored_get(g, c, attrs, k) by {
        lemma_stored_get(g, c, attrs, attrs.len(), k);
    }
}

// ---------------------------------------------------------------------------
// The file: the header line, then the document
// ---------------------------------------------------------------------------

/// A text without a newline character.
pub open spec fn no_newline(s: Seq<char>) -> bool {
    forall|k: int| 0 <= k < s.len() ==> s[k] != '\n'
}

pub(crate) proof fn lemma_no_newline_add(a: Seq<char>, b: Seq<char>)
    requires
        no_newline(a),
        no_newline(b),
    ensures
        no_newline(a + b),
{
    assert forall|k: int| 0 <= k < (a + b).len() implies (a + b)[k] != '\n' by {
        if k >= a.len() {
            assert((a + b)[k] == b[k - a.len()]);
        }
    }
}

proof fn lemma_word_no_newline(w: Seq<char>)
    requires
        is_word(w),
    ensures
        no_newline(w),
{
    assert forall|k: int| 0 <= k < w.len() implies w[k] != '\n' by {
        assert(!crate::text::is_ws(w[k]));
    }
}

/// A character other than a newline has no newline byte in its encoding.
proof fn lemma_scalar_no_newline(c: char)
    requires
        c != '\n',
    ensures
        forall|k: int| 0 <= k < vstd::utf8::encode_scalar(c as u32).len() ==> #[trigger] vstd::utf8::encode_scalar(c as u32)[k] != 10,
{
    let v = c as u32;
    assert(forall|x: u8| #[trigger] (0xC0u8 | x) != 10) by (bit_vector);
    assert(forall|x: u8| #[trigger] (0xE0u8 | x) != 10) by (bit_vector);
    assert(forall|x: u8| #[trigger] (0xF0u8 | x) != 10) by (bit_vector);
    assert(forall|x: u8| #[trigger] (0x80u8 | x) != 10) by (bit_vector);
    if vstd::utf8::has_width_1_encoding(v) {
        assert(v != 10);
        assert((v & 0x7F) as u8 != 10) by (bit_vector)
            requires
                v != 10,
                v <= 0x7F,
        ;
    }
}

/// The UTF-8 encoding of a text without newlines holds no newline byte.
pub(crate) proof fn lemma_utf8_no_newline(s: Seq<char>)
    requires
        no_newline(s),
    ensures
        forall|k: int| 0 <= k < vstd::utf8::encode_utf8(s).len() ==> #[trigger] vstd::utf8::encode_utf8(s)[k] != 10,
    decreases s.len(),
{
    if s.len() > 0 {
        lemma_scalar_no_newline(s[0]);
        assert(no_newline(s.drop_first())) by {
            assert forall|k: int| 0 <= k < s.drop_first().len() implies s.drop_first()[k] != '\n' by {
                assert(s.drop_first()[k] == s[k + 1]);
            }
        }
        lemma_utf8_no_newline(s.drop_first());
        let a = vstd::utf8::encode_scalar(s[0] as u32);
        let b = vstd::utf8::encode_utf8(s.drop_first());
        assert forall|k: int| 0 <= k < (a + b).len() implies #[trigger] (a + b)[k] != 10 by {
            if k >= a.len() {
                assert((a + b)[k] == b[k - a.len()]);
            }
        }
    }
}

/// The first line of bytes ends just after the first newline byte.
pub(crate) proof fn lemma_line_end(a: Seq<u8>, rest: Seq<u8>)
    requires
        forall|k: int| 0 <= k < a.len() ==> a[k] != 10,
    ensures
        line_end(a + seq![10u8] + rest) == a.len() + 1,
    decreases a.len(),
{
    let d = a + seq![10u8] + rest;
    if a.len() == 0 {
        assert(d[0] == 10);
    } else {
        assert(d[0] == a[0]);
        assert(d.drop_first() =~= a.drop_first() + seq![10u8] + rest);
        lemma_line_end(a.drop_first(), rest);
    }
}

/// The header line that [crate::serializing::Header::create_header] writes
/// for a format without white space: a first line without a newline, then a
/// newline.
proof fn lemma_header_line(format: Seq<char>, format_version: i32, encoding: Seq<char>, encoding_version: i32)
    requires
        is_word(format),
        is_word(encoding),
    ensures
        spec_create_header(format, format_version, encoding, encoding_version).len() > 0,
        spec_create_header(format, format_version, encoding, encoding_version).last() == '\n',
        no_newline(spec_create_header(format, format_version, encoding, encoding_version).drop_last()),
{
    let d1 = int_decimal(encoding_version as int);
    let d2 = int_decimal(format_version as int);
    lemma_int_decimal_word(encoding_version as int);
    lemma_int_decimal_word(format_version as int);
    lemma_word_no_newline(d1);
    lemma_word_no_newline(d2);
    lemma_word_no_newline(format);
    lemma_word_no_newline(encoding);
    let sp = seq![' '];
    assert(no_newline(header_start()));
    assert(no_newline(header_end()));
    assert(no_newline(format_word()));
    assert(no_newline(sp));
    let body = header_start() + encoding + sp + d1 + sp + format_word() + sp + format + sp + d2 + header_end();
    lemma_no_newline_add(header_start(), encoding);
    lemma_no_newline_add(header_start() + encoding, sp);
    lemma_no_newline_add(header_start() + encoding + sp, d1);
    lemma_no_newline_add(header_start() + encoding + sp + d1, sp);
    lemma_no_newline_add(header_start() + encoding + sp + d1 + sp, format_word());
    lemma_no_newline_add(header_start() + encoding + sp + d1 + sp + format_word(), sp);
    lemma_no_newline_add(header_start() + encoding + sp + d1 + sp + format_word() + sp, format);
    lemma_no_newline_add(header_start() + encoding + sp + d1 + sp + format_word() + sp + format, sp);
    lemma_no_newline_add(header_start() + encoding + sp + d1 + sp + format_word() + sp + format + sp, d2);
    lemma_no_newline_add(header_start() + encoding + sp + d1 + sp + format_word() + sp + format + sp + d2, header_end());
    let text = spec_create_header(format, format_version, encoding, encoding_version);
    assert(text =~= body.push('\n'));
    assert(text.drop_last() =~= body);
}

/// A newline is encoded as the byte 10.
pub(crate) proof fn lemma_newline_utf8()
    ensures
        vstd::utf8::encode_utf8(seq!['\n']) == seq![10u8],
{
    let v = '\n' as u32;
    assert(v == 10);
    assert((v & 0x7F) as u8 == 10) by (bit_vector)
        requires
            v == 10,
    ;
    assert(seq!['\n'].drop_first() =~= Seq::<char>::empty());
    assert(seq!['\n'][0] == '\n');
    assert(vstd::utf8::encode_utf8(Seq::<char>::empty()) == Seq::<u8>::empty());
    assert(vstd::utf8::encode_scalar(v) =~= seq![10u8]);
    assert(vstd::utf8::encode_utf8(seq!['\n']) =~= seq![10u8]);
}

/// Bytes that start with the encoding of a line: the first line is that
/// text, and what follows it is the rest.
proof fn lemma_first_line(h: Seq<char>, tail: Seq<u8>)
    requires
        h.len() > 0,
        h.last() == '\n',
        no_newline(h.drop_last()),
    ensures
        ({
            let d = vstd::utf8::encode_utf8(h) + tail;
            let q = line_end(d);
            &&& 0 <= q <= d.len()
            &&& utf8_lossy(d.subrange(0, q)) == h
            &&& d.subrange(q, d.len() as int) == tail
        }),
{
    broadcast use vstd::utf8::encode_utf8_valid_utf8, vstd::utf8::encode_utf8_decode_utf8;

    let body = h.drop_last();
    assert(h =~= body + seq!['\n']);
    lemma_utf8_add(body, seq!['\n']);
    lemma_newline_utf8();
    let bb = vstd::utf8::encode_utf8(body);
    lemma_utf8_no_newline(body);
    let d = vstd::utf8::encode_utf8(h) + tail;
    assert(d =~= bb + seq![10u8] + tail);
    lemma_line_end(bb, tail);
    assert(d.subrange(0, line_end(d)) =~= vstd::utf8::encode_utf8(h));
    assert(d.subrange(line_end(d), d.len() as int) =~= tail);
}

/// A file whose header line names the binary encoding is read by the binary reader.
proof fn lemma_binary_dispatch(
    d: Seq<u8>,
    ids: Seq<UuidBytes>,
    ft: spec_fn(Seq<char>) -> Option<u32>,
    tt: spec_fn(Seq<char>) -> ParsedTime,
    h: (Seq<char>, i32),
    version: i32,
    es: Seq<ElementView>,
)
    requires
        crate::serializing::spec_from_string(utf8_lossy(d.subrange(0, line_end(d)))) == Ok::<
            ((Seq<char>, i32), Seq<char>, i32),
            crate::serializing::SpecFileHeaderError,
        >((h, binary_name(), version)),
        decode_binary(d.subrange(line_end(d), d.len() as int), binary_name(), version) == Ok::<Seq<ElementView>, SpecBinaryError>(es),
    ensures
        spec_deserialize(d, ids, ft, tt) == Ok::<((Seq<char>, i32), Seq<ElementView>, usize), SpecSerializationError>((h, es, 0usize)),
{
}

/// What follows the header line of a written binary file: the zero that
/// ends the header string, the prefix element, and the document.
pub open spec fn file_tail(g: Seq<ElementView>, root: usize, version: i32) -> Seq<u8> {
    let c = collect_order(g, root);
    let t = collected_strings(g, c, version);
    enc_string(seq![]) + (if version >= VERSION_PREFIX_ELEMENT {
        enc_i32(0)
    } else {
        seq![]
    }) + (enc_table(version, t) + enc_i32(wrap_i32(c.len() as int)) + enc_headers(g, c, version, t, c.len())->Ok_0
        + enc_bodies(g, c, version, t, c.len())->Ok_0)
}

/// A written binary file is its header line and then [file_tail].
proof fn lemma_file_bytes(h: Seq<char>, g: Seq<ElementView>, root: usize, version: i32)
    requires
        encode_binary(h, g, root, version) is Ok,
    ensures
        encode_binary(h, g, root, version)->Ok_0 == vstd::utf8::encode_utf8(h) + file_tail(g, root, version),
{
    lemma_encoded_parts(h, g, root, version);
    assert(vstd::utf8::encode_utf8(Seq::<char>::empty()) =~= Seq::<u8>::empty());
    assert(encode_binary(h, g, root, version)->Ok_0 =~= vstd::utf8::encode_utf8(h) + file_tail(g, root, version));
}

/// What follows the header line of a written binary file reads back.
proof fn lemma_file_tail(h: Seq<char>, g: Seq<ElementView>, root: usize, version: i32)
    requires
        encode_binary(h, g, root, version) is Ok,
        graph_whole(g, root, version),
    ensures
        decode_binary(file_tail(g, root, version), binary_name(), version) == Ok::<Seq<ElementView>, SpecBinaryError>(
            Seq::new(collect_order(g, root).len(), |j: int| stored_element(g, collect_order(g, root), collect_order(g, root)[j] as int)),
        ),
{
    let c = collect_order(g, root);
    lemma_encoded_parts(h, g, root, version);
    assert(nul_free(Seq::<char>::empty()));
    lemma_document(file_tail(g, root, version), seq![], g, root, version);
    assert(read_so_far(g, c, c.len() as int) =~= Seq::new(c.len(), |j: int| stored_element(g, c, c[j] as int)));
}

/// The header line of a written binary file parses back.
proof fn lemma_file_header(format: Seq<char>, format_version: i32, version: i32, tail: Seq<u8>)
    requires
        is_word(format),
    ensures
        ({
            let h = spec_create_header(format, format_version, binary_name(), version);
            let d = vstd::utf8::encode_utf8(h) + tail;
            &&& crate::serializing::spec_from_string(utf8_lossy(d.subrange(0, line_end(d)))) == Ok::<
                ((Seq<char>, i32), Seq<char>, i32),
                crate::serializing::SpecFileHeaderError,
            >(((format, format_version), binary_name(), version))
            &&& d.subrange(line_end(d), d.len() as int) == tail
        }),
{
    assert(is_word(binary_name())) by {
        assert forall|k: int| 0 <= k < binary_name().len() implies !crate::text::is_ws(#[trigger] binary_name()[k]) by {}
    }
    let h = spec_create_header(format, format_version, binary_name(), version);
    lemma_header_line(format, format_version, binary_name(), version);
    lemma_first_line(h, tail);
    law_header_round_trip(format, format_version, binary_name(), version);
}

/// A file that the binary writer writes, under a header line whose format
/// has no white space, reads back with [spec_deserialize]: its format and
/// format version, and the elements as [law_binary_round_trip] gives them,
/// the root first.
pub proof fn law_binary_file_round_trip(
    format: Seq<char>,
    format_version: i32,
    g: Seq<ElementView>,
    root: usize,
    version: i32,
    ids: Seq<UuidBytes>,
    ft: spec_fn(Seq<char>) -> Option<u32>,
    tt: spec_fn(Seq<char>) -> ParsedTime,
)
    requires
        is_word(format),
        1 <= version <= BINARY_VERSION,
        encode_binary(spec_create_header(format, format_version, binary_name(), version), g, root, version) is Ok,
        graph_whole(g, root, version),
    ensures
        spec_deserialize(
            encode_binary(spec_create_header(format, format_version, binary_name(), version), g, root, version)->Ok_0,
            ids,
            ft,
            tt,
        ) == Ok::<((Seq<char>, i32), Seq<ElementView>, usize), SpecSerializationError>(
            (
                (format, format_version),
                Seq::new(collect_order(g, root).len(), |j: int| stored_element(g, collect_order(g, root), collect_order(g, root)[j] as int)),
                0usize,
            ),
        ),
{
    let c = collect_order(g, root);
    let h = spec_create_header(format, format_version, binary_name(), version);
    let d = encode_binary(h, g, root, version)->Ok_0;
    let tail = file_tail(g, root, version);
    let es = Seq::new(c.len(), |j: int| stored_element(g, c, c[j] as int));
    lemma_file_bytes(h, g, root, version);
    lemma_file_tail(h, g, root, version);
    lemma_file_header(format, format_version, version, tail);
    lemma_binary_dispatch(d, ids, ft, tt, (format, format_version), version, es);
}

} // verus!
