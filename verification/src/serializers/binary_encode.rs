//! What writing an element graph in the binary encoding gives, as
//! specifications: the bytes of a document, or the error that stops it.

use vstd::prelude::*;
use crate::attribute::{spec_type_of, AttributeType, Color, SpecAttributeValue};
use crate::collections::{item_position, key_position};
use crate::element::ElementView;
use crate::serializers::binary_document::{id_key, name_key, BINARY_VERSION};
use crate::serializers::binary_format::{
    enc_i16, enc_i32, enc_i8, enc_string, enc_u32, enc_u64, enc_uuid, wrap_i16, wrap_i32,
    SpecBinaryError, ATTRIBUTE_ANGLE_ID, ATTRIBUTE_BINARY_ID, ATTRIBUTE_BOOLEAN_ID,
    ATTRIBUTE_COLOR_ID, ATTRIBUTE_ELEMENT_ID, ATTRIBUTE_FLOAT_ID, ATTRIBUTE_INITIAL_ARRAY_OFFSET,
    ATTRIBUTE_INTEGER_ID, ATTRIBUTE_MATRIX_ID, ATTRIBUTE_OBJECTID_ID, ATTRIBUTE_QUATERNION_ID,
    ATTRIBUTE_STRING_ID, ATTRIBUTE_TIME_ID, ATTRIBUTE_UBYTE_ID, ATTRIBUTE_ULONG_ID,
    ATTRIBUTE_UNSIGNED_INTEGERS_ARRAY_OFFSET, ATTRIBUTE_VECTOR2_ID, ATTRIBUTE_VECTOR3_ID,
    ATTRIBUTE_VECTOR4_ID, MAX_ARRAY_SIZE, MAX_SHORT_ARRAY_SIZE, VERSION_DEPRECATE_LINK_TYPE,
    VERSION_DEPRECATE_OBJECT_ID, VERSION_GLOBAL_STRING_TABLE, VERSION_LARGE_STRING_INDEX,
    VERSION_LINK_TYPE, VERSION_PREFIX_ELEMENT, VERSION_STRING_TABLE, VERSION_UNSIGNED_INTEGERS,
};
use crate::serializers::collect::{collect_order, collected_strings, id_entries};

verus! {

/// Bytes of a result, or the error.
pub type SBytes = Result<Seq<u8>, SpecBinaryError>;

// ---------------------------------------------------------------------------
// Pieces
// ---------------------------------------------------------------------------

/// The bytes of a list of items, one after the other.
pub open spec fn enc_items<T>(xs: Seq<T>, f: spec_fn(T) -> Seq<u8>) -> Seq<u8>
    decreases xs.len(),
{
    if xs.len() == 0 {
        seq![]
    } else {
        enc_items(xs.drop_last(), f) + f(xs.last())
    }
}

/// The bytes of a color.
pub open spec fn enc_color(c: Color) -> Seq<u8> {
    seq![c.red, c.green, c.blue, c.alpha]
}

/// A string as an index into the string table: `-1` for the empty string,
/// else its position, as an `i32` from version 5 and an `i16` before.
pub open spec fn enc_string_index(s: Seq<char>, version: i32, table: Seq<Seq<char>>) -> Seq<u8> {
    let index: int = if s.len() == 0 {
        -1
    } else {
        match item_position(table, s) {
            Some(i) => i,
            None => -1,
        }
    };
    if version >= VERSION_LARGE_STRING_INDEX {
        enc_i32(index as i32)
    } else {
        enc_i16(index as i16)
    }
}

/// A string that the version stores in the table from version `from`, and
/// inline before.
pub open spec fn enc_versioned_string(s: Seq<char>, version: i32, from: i32, table: Seq<Seq<char>>) -> Seq<u8> {
    if version >= from {
        enc_string_index(s, version, table)
    } else {
        enc_string(s)
    }
}

/// The position among the collected elements of the element with the id of
/// element `r`.
pub open spec fn ref_index(g: Seq<ElementView>, c: Seq<usize>, r: usize) -> int {
    match key_position(id_entries(g, c), g[r as int].id) {
        Some(i) => i,
        None => -1,
    }
}

/// The bytes of an optional element reference.
pub open spec fn enc_ref(g: Seq<ElementView>, c: Seq<usize>, r: Option<usize>) -> Seq<u8> {
    match r {
        Some(x) => enc_i32(ref_index(g, c, x) as i32),
        None => enc_i32(-1i32),
    }
}

/// The array type id of a single type id in a version.
pub open spec fn array_id(version: i32, ty: i8) -> i8 {
    (ty + if version >= VERSION_UNSIGNED_INTEGERS {
        ATTRIBUTE_UNSIGNED_INTEGERS_ARRAY_OFFSET
    } else {
        ATTRIBUTE_INITIAL_ARRAY_OFFSET
    }) as i8
}

/// An array attribute: its type id, then, when it is not too long, its size
/// and items.
pub open spec fn enc_array(version: i32, ty: i8, n: int, items: Seq<u8>, name: Seq<char>, pos: int) -> SBytes {
    if n > MAX_ARRAY_SIZE {
        Err(SpecBinaryError::AttributeArrayTooLong { attribute: name, element: pos, count: n })
    } else {
        Ok(enc_i8(array_id(version, ty)) + enc_i32(wrap_i32(n)) + items)
    }
}

/// A block of binary data: its size and bytes, when it is not too long.
pub open spec fn enc_block(b: Seq<u8>, name: Seq<char>, pos: int) -> SBytes {
    if b.len() > MAX_ARRAY_SIZE {
        Err(SpecBinaryError::BinaryDataTooLong { attribute: name, element: pos, count: b.len() as int })
    } else {
        Ok(enc_i32(wrap_i32(b.len() as int)) + b)
    }
}

/// Blocks of binary data one after the other.
pub open spec fn enc_blocks(bs: Seq<Seq<u8>>, name: Seq<char>, pos: int) -> SBytes
    decreases bs.len(),
{
    if bs.len() == 0 {
        Ok(seq![])
    } else {
        match enc_blocks(bs.drop_last(), name, pos) {
            Ok(a) => match enc_block(bs.last(), name, pos) {
                Ok(b) => Ok(a + b),
                Err(e) => Err(e),
            },
            Err(e) => Err(e),
        }
    }
}

/// The error for a value type that a version does not have.
pub open spec fn version_error(name: Seq<char>, pos: int, min: i32, max: i32) -> SpecBinaryError {
    SpecBinaryError::InvalidVersionForAttribute { attribute: name, element: pos, min, max }
}

/// Whether a version stores values of a type.
pub open spec fn version_supports(version: i32, v: SpecAttributeValue) -> bool {
    match v {
        SpecAttributeValue::ObjectId(_) | SpecAttributeValue::ObjectIdArray(_) => version < VERSION_DEPRECATE_OBJECT_ID,
        SpecAttributeValue::Time(_) | SpecAttributeValue::TimeArray(_) => version >= VERSION_DEPRECATE_OBJECT_ID,
        SpecAttributeValue::ULong(_) | SpecAttributeValue::UByte(_) | SpecAttributeValue::ULongArray(_)
        | SpecAttributeValue::UByteArray(_) => version >= VERSION_UNSIGNED_INTEGERS,
        _ => true,
    }
}

/// The versions that store values of a type, for the error when one does not.
pub open spec fn supported_versions(v: SpecAttributeValue) -> (i32, i32) {
    match v {
        SpecAttributeValue::ObjectId(_) | SpecAttributeValue::ObjectIdArray(_) => (1, VERSION_STRING_TABLE),
        SpecAttributeValue::Time(_) | SpecAttributeValue::TimeArray(_) => (VERSION_DEPRECATE_OBJECT_ID, BINARY_VERSION),
        _ => (VERSION_UNSIGNED_INTEGERS, BINARY_VERSION),
    }
}

/// The bytes of an attribute value (after its name) of the element at
/// graph position `pos`.
#[verifier::opaque]
pub open spec fn enc_value(
    g: Seq<ElementView>,
    c: Seq<usize>,
    version: i32,
    table: Seq<Seq<char>>,
    name: Seq<char>,
    pos: int,
    v: SpecAttributeValue,
) -> SBytes {
    if !version_supports(version, v) {
        Err(version_error(name, pos, supported_versions(v).0, supported_versions(v).1))
    } else {
        match v {
            SpecAttributeValue::Element(r) => Ok(enc_i8(ATTRIBUTE_ELEMENT_ID) + enc_ref(g, c, r)),
            SpecAttributeValue::Integer(x) => Ok(enc_i8(ATTRIBUTE_INTEGER_ID) + enc_i32(x)),
            SpecAttributeValue::Float(x) => Ok(enc_i8(ATTRIBUTE_FLOAT_ID) + enc_u32(x)),
            SpecAttributeValue::Boolean(x) => Ok(enc_i8(ATTRIBUTE_BOOLEAN_ID) + seq![if x { 1u8 } else { 0u8 }]),
            SpecAttributeValue::String(s) => Ok(
                enc_i8(ATTRIBUTE_STRING_ID) + enc_versioned_string(s, version, VERSION_GLOBAL_STRING_TABLE, table),
            ),
            SpecAttributeValue::Binary(b) => match enc_block(b, name, pos) {
                Ok(x) => Ok(enc_i8(ATTRIBUTE_BINARY_ID) + x),
                Err(e) => Err(e),
            },
            SpecAttributeValue::ObjectId(id) => Ok(enc_i8(ATTRIBUTE_OBJECTID_ID) + enc_uuid(id)),
            SpecAttributeValue::Time(t) => Ok(enc_i8(ATTRIBUTE_TIME_ID) + enc_i32(t.0)),
            SpecAttributeValue::Color(x) => Ok(enc_i8(ATTRIBUTE_COLOR_ID) + enc_color(x)),
            SpecAttributeValue::Vector2(x) => Ok(enc_i8(ATTRIBUTE_VECTOR2_ID) + enc_u32(x.x) + enc_u32(x.y)),
            SpecAttributeValue::Vector3(x) => Ok(
                enc_i8(ATTRIBUTE_VECTOR3_ID) + enc_u32(x.x) + enc_u32(x.y) + enc_u32(x.z),
            ),
            SpecAttributeValue::Vector4(x) => Ok(
                enc_i8(ATTRIBUTE_VECTOR4_ID) + enc_u32(x.x) + enc_u32(x.y) + enc_u32(x.z) + enc_u32(x.w),
            ),
            SpecAttributeValue::Angle(x) => Ok(
                enc_i8(ATTRIBUTE_ANGLE_ID) + enc_u32(x.pitch) + enc_u32(x.yaw) + enc_u32(x.roll),
            ),
            SpecAttributeValue::Quaternion(x) => Ok(
                enc_i8(ATTRIBUTE_QUATERNION_ID) + enc_u32(x.x) + enc_u32(x.y) + enc_u32(x.z) + enc_u32(x.w),
            ),
            SpecAttributeValue::Matrix(m) => Ok(enc_i8(ATTRIBUTE_MATRIX_ID) + enc_items(m, |x: u32| enc_u32(x))),
            SpecAttributeValue::ULong(x) => Ok(enc_i8(ATTRIBUTE_ULONG_ID) + enc_u64(x)),
            SpecAttributeValue::UByte(x) => Ok(enc_i8(ATTRIBUTE_UBYTE_ID) + seq![x]),
            SpecAttributeValue::ElementArray(rs) => enc_array(
                version,
                ATTRIBUTE_ELEMENT_ID,
                rs.len() as int,
                enc_items(rs, |r: Option<usize>| enc_ref(g, c, r)),
                name,
                pos,
            ),
            SpecAttributeValue::IntegerArray(xs) => enc_array(
                version,
                ATTRIBUTE_INTEGER_ID,
                xs.len() as int,
                enc_items(xs, |x: i32| enc_i32(x)),
                name,
                pos,
            ),
            SpecAttributeValue::FloatArray(xs) => enc_array(
                version,
                ATTRIBUTE_FLOAT_ID,
                xs.len() as int,
                enc_items(xs, |x: u32| enc_u32(x)),
                name,
                pos,
            ),
            SpecAttributeValue::BooleanArray(xs) => enc_array(
                version,
                ATTRIBUTE_BOOLEAN_ID,
                xs.len() as int,
                enc_items(xs, |x: bool| seq![if x { 1u8 } else { 0u8 }]),
                name,
                pos,
            ),
            SpecAttributeValue::StringArray(xs) => enc_array(
                version,
                ATTRIBUTE_STRING_ID,
                xs.len() as int,
                enc_items(xs, |x: Seq<char>| enc_string(x)),
                name,
                pos,
            ),
            SpecAttributeValue::BinaryArray(bs) => if bs.len() > MAX_ARRAY_SIZE {
                Err(SpecBinaryError::AttributeArrayTooLong { attribute: name, element: pos, count: bs.len() as int })
            } else {
                match enc_blocks(bs, name, pos) {
                    Ok(x) => enc_array(version, ATTRIBUTE_BINARY_ID, bs.len() as int, x, name, pos),
                    Err(e) => Err(e),
                }
            },
            SpecAttributeValue::ObjectIdArray(xs) => enc_array(
                version,
                ATTRIBUTE_OBJECTID_ID,
                xs.len() as int,
                enc_items(xs, |x: Seq<u8>| enc_uuid(x)),
                name,
                pos,
            ),
            SpecAttributeValue::TimeArray(xs) => enc_array(
                version,
                ATTRIBUTE_TIME_ID,
                xs.len() as int,
                enc_items(xs, |x: crate::attribute::Time| enc_i32(x.0)),
                name,
                pos,
            ),
            SpecAttributeValue::ColorArray(xs) => enc_array(
                version,
                ATTRIBUTE_COLOR_ID,
                xs.len() as int,
                enc_items(xs, |x: Color| enc_color(x)),
                name,
                pos,
            ),
            SpecAttributeValue::Vector2Array(xs) => enc_array(
                version,
                ATTRIBUTE_VECTOR2_ID,
                xs.len() as int,
                enc_items(xs, |x: crate::attribute::Vector2| enc_u32(x.x) + enc_u32(x.y)),
                name,
                pos,
            ),
            SpecAttributeValue::Vector3Array(xs) => enc_array(
                version,
                ATTRIBUTE_VECTOR3_ID,
                xs.len() as int,
                enc_items(xs, |x: crate::attribute::Vector3| enc_u32(x.x) + enc_u32(x.y) + enc_u32(x.z)),
                name,
                pos,
            ),
            SpecAttributeValue::Vector4Array(xs) => enc_array(
                version,
                ATTRIBUTE_VECTOR4_ID,
                xs.len() as int,
                enc_items(
                    xs,
                    |x: crate::attribute::Vector4| enc_u32(x.x) + enc_u32(x.y) + enc_u32(x.z) + enc_u32(x.w),
                ),
                name,
                pos,
            ),
            SpecAttributeValue::AngleArray(xs) => enc_array(
                version,
                ATTRIBUTE_ANGLE_ID,
                xs.len() as int,
                enc_items(xs, |x: crate::attribute::Angle| enc_u32(x.pitch) + enc_u32(x.yaw) + enc_u32(x.roll)),
                name,
                pos,
            ),
            SpecAttributeValue::QuaternionArray(xs) => enc_array(
                version,
                ATTRIBUTE_QUATERNION_ID,
                xs.len() as int,
                enc_items(
                    xs,
                    |x: crate::attribute::Quaternion| enc_u32(x.x) + enc_u32(x.y) + enc_u32(x.z) + enc_u32(x.w),
                ),
                name,
                pos,
            ),
            SpecAttributeValue::MatrixArray(xs) => enc_array(
                version,
                ATTRIBUTE_MATRIX_ID,
                xs.len() as int,
                enc_items(xs, |m: Seq<u32>| enc_items(m, |x: u32| enc_u32(x))),
                name,
                pos,
            ),
            SpecAttributeValue::ULongArray(xs) => enc_array(
                version,
                ATTRIBUTE_ULONG_ID,
                xs.len() as int,
                enc_items(xs, |x: u64| enc_u64(x)),
                name,
                pos,
            ),
            SpecAttributeValue::UByteArray(xs) => enc_array(version, ATTRIBUTE_UBYTE_ID, xs.len() as int, xs, name, pos),
        }
    }
}

// ---------------------------------------------------------------------------
// Elements
// ---------------------------------------------------------------------------

/// The element table entry of element view `e` at graph position `pos`:
/// class, (from version 6 to 7 a link type of `-1`), name and id.
pub open spec fn enc_header(e: ElementView, pos: int, version: i32, table: Seq<Seq<char>>) -> SBytes {
    let class = enc_versioned_string(e.class, version, VERSION_STRING_TABLE, table);
    let link = if VERSION_LINK_TYPE <= version && version < VERSION_DEPRECATE_LINK_TYPE {
        enc_i32(-1i32)
    } else {
        seq![]
    };
    let name: SBytes = match key_position(e.attributes, name_key()) {
        Some(i) => match e.attributes[i].1 {
            SpecAttributeValue::String(s) => Ok(enc_versioned_string(s, version, VERSION_GLOBAL_STRING_TABLE, table)),
            _ => Err(SpecBinaryError::InvalidNameAttribute { element: pos }),
        },
        None => Ok(enc_versioned_string(seq![], version, VERSION_GLOBAL_STRING_TABLE, table)),
    };
    match name {
        Ok(nb) => Ok(class + link + nb + enc_uuid(e.id)),
        Err(x) => Err(x),
    }
}

/// The element table entries of the first `k` collected elements.
pub open spec fn enc_headers(g: Seq<ElementView>, c: Seq<usize>, version: i32, table: Seq<Seq<char>>, k: nat) -> SBytes
    decreases k,
{
    if k == 0 {
        Ok(seq![])
    } else {
        match enc_headers(g, c, version, table, (k - 1) as nat) {
            Ok(a) => match enc_header(g[c[k - 1] as int], c[k - 1] as int, version, table) {
                Ok(b) => Ok(a + b),
                Err(e) => Err(e),
            },
            Err(e) => Err(e),
        }
    }
}

/// One attribute of the element at graph position `pos`: its name and value.
/// The "name" attribute is stored in the element table and skipped here; an
/// "id" attribute may not be an object id.
pub open spec fn enc_attribute(
    g: Seq<ElementView>,
    c: Seq<usize>,
    version: i32,
    table: Seq<Seq<char>>,
    pos: int,
    a: (Seq<char>, SpecAttributeValue),
) -> SBytes {
    if a.0 == name_key() {
        Ok(seq![])
    } else if a.0 == id_key() && spec_type_of(a.1) == AttributeType::ObjectId {
        Err(SpecBinaryError::InvalidIdAttribute { element: pos })
    } else {
        match enc_value(g, c, version, table, a.0, pos, a.1) {
            Ok(vb) => Ok(enc_versioned_string(a.0, version, VERSION_STRING_TABLE, table) + vb),
            Err(e) => Err(e),
        }
    }
}

/// The first `k` attributes of the element at graph position `pos`.
pub open spec fn enc_attributes(
    g: Seq<ElementView>,
    c: Seq<usize>,
    version: i32,
    table: Seq<Seq<char>>,
    pos: int,
    attrs: Seq<(Seq<char>, SpecAttributeValue)>,
    k: nat,
) -> SBytes
    decreases k,
{
    if k == 0 {
        Ok(seq![])
    } else {
        match enc_attributes(g, c, version, table, pos, attrs, (k - 1) as nat) {
            Ok(a) => match enc_attribute(g, c, version, table, pos, attrs[k - 1]) {
                Ok(b) => Ok(a + b),
                Err(e) => Err(e),
            },
            Err(e) => Err(e),
        }
    }
}

/// The number of attributes an element stores after the element table.
pub open spec fn stored_count(attrs: Seq<(Seq<char>, SpecAttributeValue)>) -> int {
    attrs.len() - if key_position(attrs, name_key()) is Some { 1int } else { 0int }
}

/// The attributes of the element at graph position `pos`: a count, then the attributes.
pub open spec fn enc_body(
    g: Seq<ElementView>,
    c: Seq<usize>,
    version: i32,
    table: Seq<Seq<char>>,
    pos: int,
) -> SBytes {
    let attrs = g[pos].attributes;
    let count = stored_count(attrs);
    if count > MAX_ARRAY_SIZE {
        Err(SpecBinaryError::TooManyAttributes { element: pos, count })
    } else {
        match enc_attributes(g, c, version, table, pos, attrs, attrs.len()) {
            Ok(b) => Ok(enc_i32(wrap_i32(count)) + b),
            Err(e) => Err(e),
        }
    }
}

/// The attributes of the first `k` collected elements.
pub open spec fn enc_bodies(g: Seq<ElementView>, c: Seq<usize>, version: i32, table: Seq<Seq<char>>, k: nat) -> SBytes
    decreases k,
{
    if k == 0 {
        Ok(seq![])
    } else {
        match enc_bodies(g, c, version, table, (k - 1) as nat) {
            Ok(a) => match enc_body(g, c, version, table, c[k - 1] as int) {
                Ok(b) => Ok(a + b),
                Err(e) => Err(e),
            },
            Err(e) => Err(e),
        }
    }
}

// ---------------------------------------------------------------------------
// The document
// ---------------------------------------------------------------------------

/// The string table: its size (an `i32` from version 4, an `i16` from
/// version 2) and its strings; nothing before version 2.
pub open spec fn enc_table(version: i32, table: Seq<Seq<char>>) -> Seq<u8> {
    if version >= VERSION_GLOBAL_STRING_TABLE {
        enc_i32(wrap_i32(table.len() as int)) + enc_items(table, |s: Seq<char>| enc_string(s))
    } else if version >= VERSION_STRING_TABLE {
        enc_i16(wrap_i16(table.len() as int)) + enc_items(table, |s: Seq<char>| enc_string(s))
    } else {
        seq![]
    }
}

/// The longest string table of a version.
pub open spec fn max_strings(version: i32) -> int {
    if version >= VERSION_GLOBAL_STRING_TABLE {
        MAX_ARRAY_SIZE as int
    } else {
        MAX_SHORT_ARRAY_SIZE as int
    }
}

/// What writing the elements that `root` reaches gives, after the header
/// line `header`: (from version 7) an empty prefix element, the string
/// table, the element table and the attributes of each element.
pub open spec fn encode_binary(header: Seq<char>, g: Seq<ElementView>, root: usize, version: i32) -> SBytes {
    if version < 1 || version > BINARY_VERSION {
        Err(SpecBinaryError::InvalidVersion { version })
    } else {
        let c = collect_order(g, root);
        let t = collected_strings(g, c, version);
        let head = enc_string(header) + if version >= VERSION_PREFIX_ELEMENT {
            enc_i32(0)
        } else {
            seq![]
        };
        if t.len() > max_strings(version) {
            Err(SpecBinaryError::TooManyStrings { count: t.len() as int, max: max_strings(version) })
        } else if c.len() > MAX_ARRAY_SIZE {
            Err(SpecBinaryError::TooManyElements { count: c.len() as int })
        } else {
            match enc_headers(g, c, version, t, c.len()) {
                Ok(hb) => match enc_bodies(g, c, version, t, c.len()) {
                    Ok(bb) => Ok(head + enc_table(version, t) + enc_i32(wrap_i32(c.len() as int)) + hb + bb),
                    Err(e) => Err(e),
                },
                Err(e) => Err(e),
            }
        }
    }
}

} // verus!
