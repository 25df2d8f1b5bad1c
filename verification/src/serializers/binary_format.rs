//! The binary DMX encoding, stated as specifications: how each value is
//! written as bytes, and what reading bytes gives back.

use vstd::prelude::*;
use crate::attribute::{
    Angle, Color, Quaternion, SpecAttributeValue, Time, Vector2, Vector3, Vector4,
};
use crate::ids::{le_order, parsed_uuid};
use crate::text::utf8_lossy;

verus! {

// ---------------------------------------------------------------------------
// Versions and type ids
// ---------------------------------------------------------------------------

/// Version that stores strings in a table.
pub const VERSION_STRING_TABLE: i32 = 2;
/// Version that replaces object id attributes by time attributes.
pub const VERSION_DEPRECATE_OBJECT_ID: i32 = 3;
/// Version whose string table also holds element names and string values.
pub const VERSION_GLOBAL_STRING_TABLE: i32 = 4;
/// Version whose string table indices are 32-bit.
pub const VERSION_LARGE_STRING_INDEX: i32 = 5;
/// Version that writes a link slot for each element.
pub const VERSION_LINK_TYPE: i32 = 6;
/// Version that starts with a prefix element.
pub const VERSION_PREFIX_ELEMENT: i32 = 7;
/// Version that drops the element link slot.
pub const VERSION_DEPRECATE_LINK_TYPE: i32 = 8;
/// Version that adds unsigned integer attributes.
pub const VERSION_UNSIGNED_INTEGERS: i32 = 9;
/// The newest binary version.
pub const BINARY_VERSION: i32 = 9;

/// The longest string table of versions below [VERSION_GLOBAL_STRING_TABLE].
pub const MAX_SHORT_ARRAY_SIZE: usize = 32768;
/// The longest table or array otherwise.
pub const MAX_ARRAY_SIZE: usize = 2147483648;

pub const ATTRIBUTE_ELEMENT_ID: i8 = 1;
pub const ATTRIBUTE_INTEGER_ID: i8 = 2;
pub const ATTRIBUTE_FLOAT_ID: i8 = 3;
pub const ATTRIBUTE_BOOLEAN_ID: i8 = 4;
pub const ATTRIBUTE_STRING_ID: i8 = 5;
pub const ATTRIBUTE_BINARY_ID: i8 = 6;
pub const ATTRIBUTE_OBJECTID_ID: i8 = 7;
pub const ATTRIBUTE_TIME_ID: i8 = 7;
pub const ATTRIBUTE_COLOR_ID: i8 = 8;
pub const ATTRIBUTE_VECTOR2_ID: i8 = 9;
pub const ATTRIBUTE_VECTOR3_ID: i8 = 10;
pub const ATTRIBUTE_VECTOR4_ID: i8 = 11;
pub const ATTRIBUTE_ANGLE_ID: i8 = 12;
pub const ATTRIBUTE_QUATERNION_ID: i8 = 13;
pub const ATTRIBUTE_MATRIX_ID: i8 = 14;
pub const ATTRIBUTE_ULONG_ID: i8 = 15;
pub const ATTRIBUTE_UBYTE_ID: i8 = 16;

/// Array type ids are the single type id plus this offset before [VERSION_UNSIGNED_INTEGERS].
pub const ATTRIBUTE_INITIAL_ARRAY_OFFSET: i8 = 14;
/// Array type ids are the single type id plus this offset from [VERSION_UNSIGNED_INTEGERS] on.
pub const ATTRIBUTE_UNSIGNED_INTEGERS_ARRAY_OFFSET: i8 = 32;

/// An element reference to no element.
pub const ELEMENT_INDEX_NULL: i32 = -1;
/// An element reference to an element that the file names only by id.
pub const ELEMENT_INDEX_EXTERNAL: i32 = -2;

/// The offset from single to array type ids in a version.
pub open spec fn array_offset(version: i32) -> int {
    if version >= VERSION_UNSIGNED_INTEGERS {
        ATTRIBUTE_UNSIGNED_INTEGERS_ARRAY_OFFSET as int
    } else {
        ATTRIBUTE_INITIAL_ARRAY_OFFSET as int
    }
}

/// Whether a type id is that of an element array in a version.
pub open spec fn is_element_array_type(version: i32, ty: i8) -> bool {
    ty == ATTRIBUTE_ELEMENT_ID + array_offset(version)
}

// ---------------------------------------------------------------------------
// Errors
// ---------------------------------------------------------------------------

/// The errors of the binary encoding as values of specifications.
pub enum SpecBinaryError {
    BufferError,
    InvalidVersion { version: i32 },
    TooManyStrings { count: int, max: int },
    TooManyElements { count: int },
    InvalidNameAttribute { element: int },
    TooManyAttributes { element: int, count: int },
    InvalidIdAttribute { element: int },
    BinaryDataTooLong { attribute: Seq<char>, element: int, count: int },
    InvalidVersionForAttribute { attribute: Seq<char>, element: int, min: i32, max: i32 },
    AttributeArrayTooLong { attribute: Seq<char>, element: int, count: int },
    WrongEncoding,
    InvalidArraySize,
    InvalidStringTableIndex,
    InvalidPrefixElementAttribute,
    UnknownAttribute { attribute_id: i8 },
    InvalidElementTableIndex { index: i32, size: int },
    UUIDParseError,
    NoElements,
}

/// A reading step: the value read and the position after it, or an error.
pub type SRead<T> = Result<(T, int), SpecBinaryError>;

// ---------------------------------------------------------------------------
// Little-endian integers
// ---------------------------------------------------------------------------

pub open spec fn le_u16(v: int) -> Seq<u8> {
    seq![(v % 256) as u8, ((v / 256) % 256) as u8]
}

pub open spec fn le_u32(v: int) -> Seq<u8> {
    seq![
        (v % 256) as u8,
        ((v / 256) % 256) as u8,
        ((v / 65536) % 256) as u8,
        ((v / 16777216) % 256) as u8,
    ]
}

pub open spec fn le_u64(v: int) -> Seq<u8> {
    le_u32(v % 4294967296) + le_u32(v / 4294967296)
}

/// The bytes of an `i8` (`i8::to_le_bytes`).
pub open spec fn enc_i8(v: i8) -> Seq<u8> {
    seq![(if v < 0 { v + 256 } else { v as int }) as u8]
}

/// The bytes of an `i16` (`i16::to_le_bytes`).
pub open spec fn enc_i16(v: i16) -> Seq<u8> {
    le_u16(if v < 0 { v + 65536 } else { v as int })
}

/// The bytes of an `i32` (`i32::to_le_bytes`).
pub open spec fn enc_i32(v: i32) -> Seq<u8> {
    le_u32(if v < 0 { v + 4294967296 } else { v as int })
}

/// The bytes of a `u32`, also of an `f32` by its bit pattern.
pub open spec fn enc_u32(v: u32) -> Seq<u8> {
    le_u32(v as int)
}

/// The bytes of a `u64`.
pub open spec fn enc_u64(v: u64) -> Seq<u8> {
    le_u64(v as int)
}

/// The bytes of a string: its UTF-8 encoding and a terminating zero.
pub open spec fn enc_string(s: Seq<char>) -> Seq<u8> {
    vstd::utf8::encode_utf8(s) + seq![0u8]
}

/// The bytes of a UUID as files store them (`Uuid::to_bytes_le`).
pub open spec fn enc_uuid(id: Seq<u8>) -> Seq<u8> {
    le_order(id)
}

/// The `i32` that wraps `n` (what `n as i32` gives for `0 <= n < 2^32`).
pub open spec fn wrap_i32(n: int) -> i32 {
    (if n >= 2147483648 { n - 4294967296 } else { n }) as i32
}

/// The `i16` that wraps `n` (what `n as i16` gives for `0 <= n < 2^16`).
pub open spec fn wrap_i16(n: int) -> i16 {
    (if n >= 32768 { n - 65536 } else { n }) as i16
}

pub open spec fn dec_u16(d: Seq<u8>, p: int) -> int {
    d[p] as int + 256 * d[p + 1]
}

pub open spec fn dec_u32(d: Seq<u8>, p: int) -> int {
    d[p] as int + 256 * d[p + 1] + 65536 * d[p + 2] + 16777216 * d[p + 3]
}

pub open spec fn dec_u64(d: Seq<u8>, p: int) -> int {
    dec_u32(d, p) + 4294967296 * dec_u32(d, p + 4)
}

/// Whether `n` bytes can be read at position `p`.
pub open spec fn available(d: Seq<u8>, p: int, n: int) -> bool {
    0 <= p && p + n <= d.len()
}

// ---------------------------------------------------------------------------
// Reading primitives
// ---------------------------------------------------------------------------

pub open spec fn p_u8(d: Seq<u8>, p: int) -> SRead<u8> {
    if available(d, p, 1) {
        Ok((d[p], p + 1))
    } else {
        Err(SpecBinaryError::BufferError)
    }
}

pub open spec fn p_i8(d: Seq<u8>, p: int) -> SRead<i8> {
    if available(d, p, 1) {
        Ok(((if d[p] >= 128 { d[p] - 256 } else { d[p] as int }) as i8, p + 1))
    } else {
        Err(SpecBinaryError::BufferError)
    }
}

pub open spec fn p_i16(d: Seq<u8>, p: int) -> SRead<i16> {
    if available(d, p, 2) {
        let u = dec_u16(d, p);
        Ok(((if u >= 32768 { u - 65536 } else { u }) as i16, p + 2))
    } else {
        Err(SpecBinaryError::BufferError)
    }
}

pub open spec fn p_i32(d: Seq<u8>, p: int) -> SRead<i32> {
    if available(d, p, 4) {
        let u = dec_u32(d, p);
        Ok(((if u >= 2147483648 { u - 4294967296 } else { u }) as i32, p + 4))
    } else {
        Err(SpecBinaryError::BufferError)
    }
}

/// A `u32`, also an `f32` by its bit pattern.
pub open spec fn p_u32(d: Seq<u8>, p: int) -> SRead<u32> {
    if available(d, p, 4) {
        Ok((dec_u32(d, p) as u32, p + 4))
    } else {
        Err(SpecBinaryError::BufferError)
    }
}

pub open spec fn p_u64(d: Seq<u8>, p: int) -> SRead<u64> {
    if available(d, p, 8) {
        Ok((dec_u64(d, p) as u64, p + 8))
    } else {
        Err(SpecBinaryError::BufferError)
    }
}

/// A UUID stored in file order; the result is in `Uuid::as_bytes` order.
pub open spec fn p_uuid(d: Seq<u8>, p: int) -> SRead<Seq<u8>> {
    if available(d, p, 16) {
        Ok((le_order(d.subrange(p, p + 16)), p + 16))
    } else {
        Err(SpecBinaryError::BufferError)
    }
}

/// `n` raw bytes.
pub open spec fn p_bytes(d: Seq<u8>, p: int, n: int) -> SRead<Seq<u8>> {
    if available(d, p, n) {
        Ok((d.subrange(p, p + n), p + n))
    } else {
        Err(SpecBinaryError::BufferError)
    }
}

/// The position of the first zero byte at or after `p`.
pub open spec fn zero_at(d: Seq<u8>, p: int) -> Option<int>
    decreases d.len() - p,
{
    if p < 0 || p >= d.len() {
        None
    } else if d[p] == 0 {
        Some(p)
    } else {
        zero_at(d, p + 1)
    }
}

/// The bytes of a zero-terminated string at `p` and the position after it.
/// Reading stops at the first zero, which is consumed; without one, the
/// rest of the data is consumed and its last byte dropped.
pub open spec fn p_string_bytes(d: Seq<u8>, p: int) -> (Seq<u8>, int) {
    if p < 0 || p >= d.len() {
        (seq![], p)
    } else {
        match zero_at(d, p) {
            Some(j) => (d.subrange(p, j), j + 1),
            None => (d.subrange(p, d.len() - 1), d.len() as int),
        }
    }
}

/// A zero-terminated string, decoded as `String::from_utf8_lossy` does:
/// valid UTF-8 gives the characters it encodes. It cannot fail: at the end
/// of the data it is empty.
pub open spec fn p_string(d: Seq<u8>, p: int) -> (Seq<char>, int) {
    let (b, q) = p_string_bytes(d, p);
    (utf8_lossy(b), q)
}

/// An array or table size: an `i32` that must not be negative.
pub open spec fn p_size(d: Seq<u8>, p: int) -> SRead<int> {
    match p_i32(d, p) {
        Ok((n, q)) => if n < 0 {
            Err(SpecBinaryError::InvalidArraySize)
        } else {
            Ok((n as int, q))
        },
        Err(e) => Err(e),
    }
}

/// The string a table index names: `-1` is the empty string.
pub open spec fn table_string(index: i32, table: Seq<Seq<char>>) -> Result<Seq<char>, SpecBinaryError> {
    if index == -1 {
        Ok(seq![])
    } else if index < 0 || index >= table.len() {
        Err(SpecBinaryError::InvalidStringTableIndex)
    } else {
        Ok(table[index as int])
    }
}

/// A string read as a table index (32-bit when `wide`, else 16-bit).
pub open spec fn p_indexed_string(d: Seq<u8>, p: int, wide: bool, table: Seq<Seq<char>>) -> SRead<Seq<char>> {
    let idx = if wide {
        match p_i32(d, p) {
            Ok((i, q)) => Ok((i, q)),
            Err(e) => Err(e),
        }
    } else {
        match p_i16(d, p) {
            Ok((i, q)) => Ok((i as i32, q)),
            Err(e) => Err(e),
        }
    };
    match idx {
        Ok((i, q)) => match table_string(i, table) {
            Ok(s) => Ok((s, q)),
            Err(e) => Err(e),
        },
        Err(e) => Err(e),
    }
}

/// A string that a version stores as a 32-bit index from `wide_from`, a
/// 16-bit index from `short_from`, and inline before that.
pub open spec fn p_versioned_string(
    d: Seq<u8>,
    p: int,
    version: i32,
    wide_from: i32,
    short_from: i32,
    table: Seq<Seq<char>>,
) -> SRead<Seq<char>> {
    if version >= wide_from {
        p_indexed_string(d, p, true, table)
    } else if version >= short_from {
        p_indexed_string(d, p, false, table)
    } else {
        let (s, q) = p_string(d, p);
        Ok((s, q))
    }
}

// ---------------------------------------------------------------------------
// Reading attribute values
// ---------------------------------------------------------------------------

pub open spec fn color_at(d: Seq<u8>, p: int) -> Color {
    Color { red: d[p], green: d[p + 1], blue: d[p + 2], alpha: d[p + 3] }
}

pub open spec fn u32_at(d: Seq<u8>, p: int) -> u32 {
    dec_u32(d, p) as u32
}

/// The sixteen matrix entries stored at `p`, row by row.
pub open spec fn matrix_at(d: Seq<u8>, p: int) -> Seq<u32> {
    Seq::new(16, |k: int| u32_at(d, p + 4 * k))
}

/// A fixed-size value of `n` bytes made by `f` from the position it starts at.
pub open spec fn p_fixed<T>(d: Seq<u8>, p: int, n: int, f: spec_fn(int) -> T) -> SRead<T> {
    if available(d, p, n) {
        Ok((f(p), p + n))
    } else {
        Err(SpecBinaryError::BufferError)
    }
}

/// Binary data: a size, then that many bytes.
pub open spec fn p_block(d: Seq<u8>, p: int) -> SRead<Seq<u8>> {
    match p_size(d, p) {
        Ok((n, q)) => p_bytes(d, q, n),
        Err(e) => Err(e),
    }
}

/// `n` values read one after the other by `item`.
pub open spec fn p_many<T>(d: Seq<u8>, p: int, n: nat, item: spec_fn(Seq<u8>, int) -> SRead<T>) -> SRead<Seq<T>>
    decreases n,
{
    if n == 0 {
        Ok((seq![], p))
    } else {
        match p_many(d, p, (n - 1) as nat, item) {
            Ok((xs, q)) => match item(d, q) {
                Ok((x, r)) => Ok((xs.push(x), r)),
                Err(e) => Err(e),
            },
            Err(e) => Err(e),
        }
    }
}

pub open spec fn item_i32() -> spec_fn(Seq<u8>, int) -> SRead<i32> {
    |d: Seq<u8>, p: int| p_i32(d, p)
}

pub open spec fn item_u32() -> spec_fn(Seq<u8>, int) -> SRead<u32> {
    |d: Seq<u8>, p: int| p_u32(d, p)
}

pub open spec fn item_bool() -> spec_fn(Seq<u8>, int) -> SRead<bool> {
    |d: Seq<u8>, p: int| p_fixed(d, p, 1, |q: int| d[q] != 0)
}

pub open spec fn item_string() -> spec_fn(Seq<u8>, int) -> SRead<Seq<char>> {
    |d: Seq<u8>, p: int| Ok(p_string(d, p))
}

pub open spec fn item_block() -> spec_fn(Seq<u8>, int) -> SRead<Seq<u8>> {
    |d: Seq<u8>, p: int| p_block(d, p)
}

pub open spec fn item_uuid() -> spec_fn(Seq<u8>, int) -> SRead<Seq<u8>> {
    |d: Seq<u8>, p: int| p_uuid(d, p)
}

pub open spec fn item_time() -> spec_fn(Seq<u8>, int) -> SRead<Time> {
    |d: Seq<u8>, p: int| match p_i32(d, p) {
        Ok((v, q)) => Ok((Time(v), q)),
        Err(e) => Err(e),
    }
}

pub open spec fn item_color() -> spec_fn(Seq<u8>, int) -> SRead<Color> {
    |d: Seq<u8>, p: int| p_fixed(d, p, 4, |q: int| color_at(d, q))
}

pub open spec fn item_vector2() -> spec_fn(Seq<u8>, int) -> SRead<Vector2> {
    |d: Seq<u8>, p: int| p_fixed(d, p, 8, |q: int| Vector2 { x: u32_at(d, q), y: u32_at(d, q + 4) })
}

pub open spec fn item_vector3() -> spec_fn(Seq<u8>, int) -> SRead<Vector3> {
    |d: Seq<u8>, p: int|
        p_fixed(d, p, 12, |q: int| Vector3 { x: u32_at(d, q), y: u32_at(d, q + 4), z: u32_at(d, q + 8) })
}

pub open spec fn item_vector4() -> spec_fn(Seq<u8>, int) -> SRead<Vector4> {
    |d: Seq<u8>, p: int|
        p_fixed(
            d,
            p,
            16,
            |q: int| Vector4 { x: u32_at(d, q), y: u32_at(d, q + 4), z: u32_at(d, q + 8), w: u32_at(d, q + 12) },
        )
}

pub open spec fn item_angle() -> spec_fn(Seq<u8>, int) -> SRead<Angle> {
    |d: Seq<u8>, p: int|
        p_fixed(d, p, 12, |q: int| Angle { pitch: u32_at(d, q), yaw: u32_at(d, q + 4), roll: u32_at(d, q + 8) })
}

pub open spec fn item_quaternion() -> spec_fn(Seq<u8>, int) -> SRead<Quaternion> {
    |d: Seq<u8>, p: int|
        p_fixed(
            d,
            p,
            16,
            |q: int| Quaternion { x: u32_at(d, q), y: u32_at(d, q + 4), z: u32_at(d, q + 8), w: u32_at(d, q + 12) },
        )
}

pub open spec fn item_matrix() -> spec_fn(Seq<u8>, int) -> SRead<Seq<u32>> {
    |d: Seq<u8>, p: int| p_fixed(d, p, 64, |q: int| matrix_at(d, q))
}

pub open spec fn item_u64() -> spec_fn(Seq<u8>, int) -> SRead<u64> {
    |d: Seq<u8>, p: int| p_u64(d, p)
}

/// Wraps a read value into an attribute value.
pub open spec fn wrap<T>(r: SRead<T>, f: spec_fn(T) -> SpecAttributeValue) -> SRead<SpecAttributeValue> {
    match r {
        Ok((v, q)) => Ok((f(v), q)),
        Err(e) => Err(e),
    }
}

/// A single (non-array) value of type `ty`, as `Reader::read_single_attribute` reads it.
pub open spec fn p_single(d: Seq<u8>, p: int, version: i32, ty: i8) -> SRead<SpecAttributeValue> {
    if ty == ATTRIBUTE_INTEGER_ID {
        wrap(p_i32(d, p), |v: i32| SpecAttributeValue::Integer(v))
    } else if ty == ATTRIBUTE_FLOAT_ID {
        wrap(p_u32(d, p), |v: u32| SpecAttributeValue::Float(v))
    } else if ty == ATTRIBUTE_BOOLEAN_ID {
        wrap(item_bool()(d, p), |v: bool| SpecAttributeValue::Boolean(v))
    } else if ty == ATTRIBUTE_BINARY_ID {
        wrap(p_block(d, p), |v: Seq<u8>| SpecAttributeValue::Binary(v))
    } else if ty == ATTRIBUTE_OBJECTID_ID && version < VERSION_DEPRECATE_OBJECT_ID {
        wrap(p_uuid(d, p), |v: Seq<u8>| SpecAttributeValue::ObjectId(v))
    } else if ty == ATTRIBUTE_TIME_ID && version >= VERSION_DEPRECATE_OBJECT_ID {
        wrap(item_time()(d, p), |v: Time| SpecAttributeValue::Time(v))
    } else if ty == ATTRIBUTE_COLOR_ID {
        wrap(item_color()(d, p), |v: Color| SpecAttributeValue::Color(v))
    } else if ty == ATTRIBUTE_VECTOR2_ID {
        wrap(item_vector2()(d, p), |v: Vector2| SpecAttributeValue::Vector2(v))
    } else if ty == ATTRIBUTE_VECTOR3_ID {
        wrap(item_vector3()(d, p), |v: Vector3| SpecAttributeValue::Vector3(v))
    } else if ty == ATTRIBUTE_VECTOR4_ID {
        wrap(item_vector4()(d, p), |v: Vector4| SpecAttributeValue::Vector4(v))
    } else if ty == ATTRIBUTE_ANGLE_ID {
        wrap(item_angle()(d, p), |v: Angle| SpecAttributeValue::Angle(v))
    } else if ty == ATTRIBUTE_QUATERNION_ID {
        wrap(item_quaternion()(d, p), |v: Quaternion| SpecAttributeValue::Quaternion(v))
    } else if ty == ATTRIBUTE_MATRIX_ID {
        wrap(item_matrix()(d, p), |v: Seq<u32>| SpecAttributeValue::Matrix(v))
    } else if ty == ATTRIBUTE_ULONG_ID && version >= VERSION_UNSIGNED_INTEGERS {
        wrap(p_u64(d, p), |v: u64| SpecAttributeValue::ULong(v))
    } else if ty == ATTRIBUTE_UBYTE_ID && version >= VERSION_UNSIGNED_INTEGERS {
        wrap(p_u8(d, p), |v: u8| SpecAttributeValue::UByte(v))
    } else {
        Err(SpecBinaryError::UnknownAttribute { attribute_id: ty })
    }
}

/// An array of `n` values of single type `ty`, as `Reader::read_array_attribute` reads it.
pub open spec fn p_array(d: Seq<u8>, p: int, version: i32, ty: i8, n: nat) -> SRead<SpecAttributeValue> {
    if ty == ATTRIBUTE_INTEGER_ID {
        wrap(p_many(d, p, n, item_i32()), |v: Seq<i32>| SpecAttributeValue::IntegerArray(v))
    } else if ty == ATTRIBUTE_FLOAT_ID {
        wrap(p_many(d, p, n, item_u32()), |v: Seq<u32>| SpecAttributeValue::FloatArray(v))
    } else if ty == ATTRIBUTE_BOOLEAN_ID {
        wrap(p_many(d, p, n, item_bool()), |v: Seq<bool>| SpecAttributeValue::BooleanArray(v))
    } else if ty == ATTRIBUTE_STRING_ID {
        wrap(p_many(d, p, n, item_string()), |v: Seq<Seq<char>>| SpecAttributeValue::StringArray(v))
    } else if ty == ATTRIBUTE_BINARY_ID {
        wrap(p_many(d, p, n, item_block()), |v: Seq<Seq<u8>>| SpecAttributeValue::BinaryArray(v))
    } else if ty == ATTRIBUTE_OBJECTID_ID && version < VERSION_DEPRECATE_OBJECT_ID {
        wrap(p_many(d, p, n, item_uuid()), |v: Seq<Seq<u8>>| SpecAttributeValue::ObjectIdArray(v))
    } else if ty == ATTRIBUTE_TIME_ID && version >= VERSION_DEPRECATE_OBJECT_ID {
        wrap(p_many(d, p, n, item_time()), |v: Seq<Time>| SpecAttributeValue::TimeArray(v))
    } else if ty == ATTRIBUTE_COLOR_ID {
        wrap(p_many(d, p, n, item_color()), |v: Seq<Color>| SpecAttributeValue::ColorArray(v))
    } else if ty == ATTRIBUTE_VECTOR2_ID {
        wrap(p_many(d, p, n, item_vector2()), |v: Seq<Vector2>| SpecAttributeValue::Vector2Array(v))
    } else if ty == ATTRIBUTE_VECTOR3_ID {
        wrap(p_many(d, p, n, item_vector3()), |v: Seq<Vector3>| SpecAttributeValue::Vector3Array(v))
    } else if ty == ATTRIBUTE_VECTOR4_ID {
        wrap(p_many(d, p, n, item_vector4()), |v: Seq<Vector4>| SpecAttributeValue::Vector4Array(v))
    } else if ty == ATTRIBUTE_ANGLE_ID {
        wrap(p_many(d, p, n, item_angle()), |v: Seq<Angle>| SpecAttributeValue::AngleArray(v))
    } else if ty == ATTRIBUTE_QUATERNION_ID {
        wrap(p_many(d, p, n, item_quaternion()), |v: Seq<Quaternion>| SpecAttributeValue::QuaternionArray(v))
    } else if ty == ATTRIBUTE_MATRIX_ID {
        wrap(p_many(d, p, n, item_matrix()), |v: Seq<Seq<u32>>| SpecAttributeValue::MatrixArray(v))
    } else if ty == ATTRIBUTE_ULONG_ID && version >= VERSION_UNSIGNED_INTEGERS {
        wrap(p_many(d, p, n, item_u64()), |v: Seq<u64>| SpecAttributeValue::ULongArray(v))
    } else if ty == ATTRIBUTE_UBYTE_ID && version >= VERSION_UNSIGNED_INTEGERS {
        wrap(p_bytes(d, p, n as int), |v: Seq<u8>| SpecAttributeValue::UByteArray(v))
    } else {
        Err(SpecBinaryError::UnknownAttribute { attribute_id: ty })
    }
}

/// A value of type id `ty`, as `Reader::read_attribute` reads it: type ids
/// above the array offset are arrays, preceded by their size.
#[verifier::opaque]
pub open spec fn p_attribute(d: Seq<u8>, p: int, version: i32, ty: i8) -> SRead<SpecAttributeValue> {
    if ty <= array_offset(version) {
        p_single(d, p, version, ty)
    } else {
        match p_size(d, p) {
            Ok((n, q)) => p_array(d, q, version, (ty - array_offset(version)) as i8, n as nat),
            Err(e) => Err(e),
        }
    }
}

// ---------------------------------------------------------------------------
// What is read back of what is written
// ---------------------------------------------------------------------------

/// The four little-endian bytes of `x` give `x` back.
proof fn lemma_le_u32(x: u32)
    ensures
        le_u32(x as int)[0] as int + 256 * le_u32(x as int)[1] + 65536 * le_u32(x as int)[2] + 16777216 * le_u32(x as int)[3] == x,
{
    let a = x % 256;
    let b = (x / 256) % 256;
    let c = (x / 65536) % 256;
    let e = (x / 16777216) % 256;
    assert(a + 256 * b + 65536 * c + 16777216 * e == x) by (bit_vector)
        requires
            a == x % 256,
            b == (x / 256) % 256,
            c == (x / 65536) % 256,
            e == (x / 16777216) % 256,
    ;
}

/// Reading a `u32` (or an `f32` by its bits) where one was written gives it back.
pub proof fn law_u32_round_trip(d: Seq<u8>, p: int, v: u32)
    requires
        0 <= p,
        p + 4 <= d.len(),
        d.subrange(p, p + 4) == enc_u32(v),
    ensures
        p_u32(d, p) == Ok::<(u32, int), SpecBinaryError>((v, p + 4)),
{
    lemma_le_u32(v);
    assert(d[p] == d.subrange(p, p + 4)[0]);
    assert(d[p + 1] == d.subrange(p, p + 4)[1]);
    assert(d[p + 2] == d.subrange(p, p + 4)[2]);
    assert(d[p + 3] == d.subrange(p, p + 4)[3]);
}

/// Reading an `i32` where one was written gives it back: what
/// `Writer::write_integer` appends (`enc_i32`) is what `Reader::read_integer`
/// reads (`p_i32`), four bytes on.
pub proof fn law_i32_round_trip(d: Seq<u8>, p: int, v: i32)
    requires
        0 <= p,
        p + 4 <= d.len(),
        d.subrange(p, p + 4) == enc_i32(v),
    ensures
        p_i32(d, p) == Ok::<(i32, int), SpecBinaryError>((v, p + 4)),
{
    let u: u32 = (if v < 0 { v + 4294967296 } else { v as int }) as u32;
    lemma_le_u32(u);
    assert(d[p] == d.subrange(p, p + 4)[0]);
    assert(d[p + 1] == d.subrange(p, p + 4)[1]);
    assert(d[p + 2] == d.subrange(p, p + 4)[2]);
    assert(d[p + 3] == d.subrange(p, p + 4)[3]);
}

/// Reading a `u64` where one was written gives it back.
pub proof fn law_u64_round_trip(d: Seq<u8>, p: int, v: u64)
    requires
        0 <= p,
        p + 8 <= d.len(),
        d.subrange(p, p + 8) == enc_u64(v),
    ensures
        p_u64(d, p) == Ok::<(u64, int), SpecBinaryError>((v, p + 8)),
{
    let lo: u32 = (v % 4294967296) as u32;
    let hi: u32 = (v / 4294967296) as u32;
    lemma_le_u32(lo);
    lemma_le_u32(hi);
    let w = d.subrange(p, p + 8);
    assert(w == le_u32(lo as int) + le_u32(hi as int));
    assert forall|k: int| 0 <= k < 8 implies d[p + k] == w[k] by {}
    assert(w[0] == le_u32(lo as int)[0]);
    assert(w[1] == le_u32(lo as int)[1]);
    assert(w[2] == le_u32(lo as int)[2]);
    assert(w[3] == le_u32(lo as int)[3]);
    assert(w[4] == le_u32(hi as int)[0]);
    assert(w[5] == le_u32(hi as int)[1]);
    assert(w[6] == le_u32(hi as int)[2]);
    assert(w[7] == le_u32(hi as int)[3]);
    assert(d[p + 4] == w[4]);
    assert(d[p + 5] == w[5]);
    assert(d[p + 6] == w[6]);
    assert(d[p + 7] == w[7]);
    assert(lo + 4294967296 * hi == v) by (bit_vector)
        requires
            lo == v % 4294967296,
            hi == v / 4294967296,
    ;
}

/// Reading a UUID where one was written gives it back.
pub proof fn law_uuid_round_trip(d: Seq<u8>, p: int, id: Seq<u8>)
    requires
        id.len() == 16,
        0 <= p,
        p + 16 <= d.len(),
        d.subrange(p, p + 16) == enc_uuid(id),
    ensures
        p_uuid(d, p) == Ok::<(Seq<u8>, int), SpecBinaryError>((id, p + 16)),
{
    crate::ids::lemma_le_order_involution(id);
}

/// The UTF-8 encoding of a character other than NUL holds no zero byte.
proof fn lemma_scalar_no_zero(c: char)
    requires
        c != '\0',
    ensures
        forall|k: int| 0 <= k < vstd::utf8::encode_scalar(c as u32).len() ==> #[trigger] vstd::utf8::encode_scalar(c as u32)[k] != 0,
{
    let v = c as u32;
    assert(forall|x: u8| #[trigger] (0xC0u8 | x) != 0) by (bit_vector);
    assert(forall|x: u8| #[trigger] (0xE0u8 | x) != 0) by (bit_vector);
    assert(forall|x: u8| #[trigger] (0xF0u8 | x) != 0) by (bit_vector);
    assert(forall|x: u8| #[trigger] (0x80u8 | x) != 0) by (bit_vector);
    if vstd::utf8::has_width_1_encoding(v) {
        assert(v != 0);
        assert((v & 0x7F) as u8 != 0) by (bit_vector)
            requires
                v != 0,
                v <= 0x7F,
        ;
    }
}

/// The UTF-8 encoding of a text without NUL holds no zero byte.
proof fn lemma_utf8_no_zero(s: Seq<char>)
    requires
        forall|k: int| 0 <= k < s.len() ==> s[k] != '\0',
    ensures
        forall|k: int| 0 <= k < vstd::utf8::encode_utf8(s).len() ==> #[trigger] vstd::utf8::encode_utf8(s)[k] != 0,
    decreases s.len(),
{
    if s.len() > 0 {
        lemma_scalar_no_zero(s[0]);
        lemma_utf8_no_zero(s.drop_first());
        let a = vstd::utf8::encode_scalar(s[0] as u32);
        let b = vstd::utf8::encode_utf8(s.drop_first());
        assert forall|k: int| 0 <= k < (a + b).len() implies #[trigger] (a + b)[k] != 0 by {
            if k >= a.len() {
                assert((a + b)[k] == b[k - a.len()]);
            }
        }
    }
}

/// The first zero at or after `q` is at `r` when the bytes in between are not zero.
proof fn lemma_zero_at(d: Seq<u8>, q: int, r: int)
    requires
        0 <= q <= r < d.len(),
        d[r] == 0,
        forall|k: int| q <= k < r ==> d[k] != 0,
    ensures
        zero_at(d, q) == Some(r),
    decreases r - q,
{
    if q < r {
        lemma_zero_at(d, q + 1, r);
    }
}

/// Reading a string where one without NUL characters was written gives it
/// back: what `Writer::write_string` appends (`enc_string`) is what
/// `Reader::read_string` reads (`p_string`), the string's bytes and its
/// terminating zero on.
pub proof fn law_string_round_trip(d: Seq<u8>, p: int, s: Seq<char>)
    requires
        forall|k: int| 0 <= k < s.len() ==> s[k] != '\0',
        0 <= p,
        p + enc_string(s).len() <= d.len(),
        d.subrange(p, p + enc_string(s).len()) == enc_string(s),
    ensures
        p_string(d, p) == (s, p + enc_string(s).len()),
{
    broadcast use vstd::utf8::encode_utf8_valid_utf8, vstd::utf8::encode_utf8_decode_utf8;

    let e = vstd::utf8::encode_utf8(s);
    let n = e.len() as int;
    lemma_utf8_no_zero(s);
    assert forall|k: int| p <= k < p + n implies d[k] != 0 by {
        assert(d[k] == d.subrange(p, p + enc_string(s).len())[k - p]);
        assert(enc_string(s)[k - p] == e[k - p]);
    }
    assert(d[p + n] == d.subrange(p, p + enc_string(s).len())[n]);
    lemma_zero_at(d, p, p + n);
    assert(d.subrange(p, p + n) =~= e);
}

} // verus!
