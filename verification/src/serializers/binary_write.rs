//! Writing values of the binary encoding as bytes.

use vstd::prelude::*;
use indexmap::{IndexMap, IndexSet};
use crate::attribute::{
    blocks_view, matrices_view, matrix_entries, strings_view, uuids_view, Angle, BinaryBlock,
    Color, Matrix, Quaternion, Time, UuidBytes, Vector2, Vector3, Vector4,
};
use crate::collections::{
    id_map_entries, id_map_get_index_of, item_position, key_position, lemma_item_position,
    string_set_get_index, string_set_get_index_of, string_set_items, string_set_len,
};
use crate::element::{ElementGraph, ElementView};
use crate::ids::to_bytes_le;
use crate::attribute::{AttributeValue, SpecAttributeValue};
use crate::serializers::binary_document::BINARY_VERSION;
use crate::serializers::binary_encode::{
    array_id, enc_array, enc_block, enc_blocks, enc_color, enc_items, enc_ref, enc_string_index,
    enc_value, ref_index,
};
use crate::serializers::collect::{
    collected_strings, element_refs_collected, graph_refs_in, lemma_collected_strings_contain,
    value_refs_collected, value_refs_in, value_string_in,
};
use crate::serializers::binary_document::{id_key, name_key};
use crate::serializers::binary_encode::{
    enc_attribute, enc_attributes, enc_body, enc_bodies, enc_header, enc_headers,
    enc_versioned_string,
};
use crate::collections::{
    attribute_entries, attribute_map_contains_key, attribute_map_get, attribute_map_get_index,
    attribute_map_len, lemma_key_position,
};
use crate::element::lemma_key_position_same_keys;
use crate::text::same_text;
use crate::serializers::binary_error::BinarySerializationError;
use crate::serializers::binary_format::{
    enc_i16, enc_i32, enc_i8, enc_string, enc_u32, enc_u64, enc_uuid, le_u32, wrap_i16, wrap_i32,
    MAX_SHORT_ARRAY_SIZE,
    MAX_ARRAY_SIZE, VERSION_LARGE_STRING_INDEX, VERSION_DEPRECATE_LINK_TYPE, VERSION_LINK_TYPE,
    ATTRIBUTE_ANGLE_ID, ATTRIBUTE_BINARY_ID,
    ATTRIBUTE_BOOLEAN_ID, ATTRIBUTE_COLOR_ID, ATTRIBUTE_ELEMENT_ID, ATTRIBUTE_FLOAT_ID,
    ATTRIBUTE_INITIAL_ARRAY_OFFSET, ATTRIBUTE_INTEGER_ID, ATTRIBUTE_MATRIX_ID,
    ATTRIBUTE_OBJECTID_ID, ATTRIBUTE_QUATERNION_ID, ATTRIBUTE_STRING_ID, ATTRIBUTE_TIME_ID,
    ATTRIBUTE_UBYTE_ID, ATTRIBUTE_ULONG_ID, ATTRIBUTE_UNSIGNED_INTEGERS_ARRAY_OFFSET,
    ATTRIBUTE_VECTOR2_ID, ATTRIBUTE_VECTOR3_ID, ATTRIBUTE_VECTOR4_ID, VERSION_DEPRECATE_OBJECT_ID,
    VERSION_GLOBAL_STRING_TABLE, VERSION_STRING_TABLE, VERSION_UNSIGNED_INTEGERS,
};
use crate::serializers::collect::{id_entries, id_map_view, is_collected, lemma_id_map_key_position};

verus! {

/// The bytes of the first `i + 1` items are those of the first `i` and the item.
pub proof fn lemma_enc_items_take<T>(xs: Seq<T>, i: int, f: spec_fn(T) -> Seq<u8>)
    requires
        0 <= i < xs.len(),
    ensures
        enc_items(xs.take(i + 1), f) == enc_items(xs.take(i), f) + f(xs[i]),
{
    assert(xs.take(i + 1).drop_last() =~= xs.take(i));
}

/// Blocks of the first `i + 1` items are those of the first `i` and the item.
pub proof fn lemma_enc_blocks_take(bs: Seq<Seq<u8>>, i: int, name: Seq<char>, pos: int)
    requires
        0 <= i < bs.len(),
    ensures
        enc_blocks(bs.take(i + 1), name, pos) == match enc_blocks(bs.take(i), name, pos) {
            Ok(a) => match enc_block(bs[i], name, pos) {
                Ok(b) => Ok(a + b),
                Err(e) => Err(e),
            },
            Err(e) => Err(e),
        },
{
    assert(bs.take(i + 1).drop_last() =~= bs.take(i));
}

/// A count of at most `MAX_ARRAY_SIZE` as the `i32` that stores it: the
/// largest count wraps to `i32::MIN`, as a cast does.
pub fn count_i32(n: usize) -> (r: i32)
    requires
        n <= MAX_ARRAY_SIZE,
    ensures
        r == wrap_i32(n as int),
{
    if n == MAX_ARRAY_SIZE {
        i32::MIN
    } else {
        n as i32
    }
}

/// A buffer that the encoding is written to.
pub struct Writer {
    pub buffer: Vec<u8>,
}

impl Writer {
    /// An empty buffer.
    pub fn new() -> (r: Writer)
        ensures
            r.buffer@ == Seq::<u8>::empty(),
    {
        Writer { buffer: Vec::new() }
    }

    /// Writes bytes as they are.
    pub fn write_unsigned_bytes(&mut self, value: &[u8])
        ensures
            final(self).buffer@ == old(self).buffer@ + value@,
    {
        let mut i: usize = 0;
        while i < value.len()
            invariant
                i <= value@.len(),
                self.buffer@ == old(self).buffer@ + value@.take(i as int),
            decreases value@.len() - i,
        {
            self.buffer.push(value[i]);
            i = i + 1;
            assert(value@.take(i as int) =~= value@.take(i - 1).push(value@[i - 1]));
        }
        assert(value@.take(value@.len() as int) =~= value@);
    }

    /// Writes a string: its UTF-8 bytes and a zero.
    pub fn write_string(&mut self, value: &str)
        ensures
            final(self).buffer@ == old(self).buffer@ + enc_string(value@),
    {
        self.write_unsigned_bytes(value.as_bytes());
        self.buffer.push(0);
        assert(self.buffer@ =~= old(self).buffer@ + enc_string(value@));
    }

    /// Writes a signed byte.
    pub fn write_byte(&mut self, value: i8)
        ensures
            final(self).buffer@ == old(self).buffer@ + enc_i8(value),
    {
        let b: u8 = if value < 0 {
            (value as i16 + 256) as u8
        } else {
            value as u8
        };
        self.buffer.push(b);
        assert(self.buffer@ =~= old(self).buffer@ + enc_i8(value));
    }

    /// Writes an unsigned byte.
    pub fn write_unsigned_byte(&mut self, value: u8)
        ensures
            final(self).buffer@ == old(self).buffer@ + seq![value],
    {
        self.buffer.push(value);
    }

    /// Writes the four little-endian bytes of `u`.
    fn write_u32_bytes(&mut self, u: u64)
        requires
            u < 4294967296,
        ensures
            final(self).buffer@ == old(self).buffer@ + le_u32(u as int),
    {
        self.buffer.push((u % 256) as u8);
        self.buffer.push(((u / 256) % 256) as u8);
        self.buffer.push(((u / 65536) % 256) as u8);
        self.buffer.push(((u / 16777216) % 256) as u8);
        assert(self.buffer@ =~= old(self).buffer@ + le_u32(u as int));
    }

    /// Writes an `i16`, little endian.
    pub fn write_short(&mut self, value: i16)
        ensures
            final(self).buffer@ == old(self).buffer@ + enc_i16(value),
    {
        let u: u32 = if value < 0 {
            (value as i32 + 65536) as u32
        } else {
            value as u32
        };
        self.buffer.push((u % 256) as u8);
        self.buffer.push(((u / 256) % 256) as u8);
        assert(self.buffer@ =~= old(self).buffer@ + enc_i16(value));
    }

    /// Writes an `i32`, little endian.
    pub fn write_integer(&mut self, value: i32)
        ensures
            final(self).buffer@ == old(self).buffer@ + enc_i32(value),
    {
        let u: u64 = if value < 0 {
            (value as i64 + 4294967296) as u64
        } else {
            value as u64
        };
        self.write_u32_bytes(u);
    }

    /// Writes an `f32` by its bit pattern, little endian.
    pub fn write_float(&mut self, value: u32)
        ensures
            final(self).buffer@ == old(self).buffer@ + enc_u32(value),
    {
        self.write_u32_bytes(value as u64);
    }

    /// Writes a `u64`, little endian.
    pub fn write_unsigned_long(&mut self, value: u64)
        ensures
            final(self).buffer@ == old(self).buffer@ + enc_u64(value),
    {
        self.write_u32_bytes(value % 4294967296);
        self.write_u32_bytes(value / 4294967296);
        assert(self.buffer@ =~= old(self).buffer@ + enc_u64(value));
    }

    /// Writes a UUID in the mixed-endian order that files store.
    pub fn write_uuid(&mut self, value: &UuidBytes)
        ensures
            final(self).buffer@ == old(self).buffer@ + enc_uuid(value@),
    {
        let b = to_bytes_le(value);
        self.write_unsigned_bytes(&b);
    }

    /// Writes a color as its four channel bytes.
    pub fn write_color(&mut self, value: &Color)
        ensures
            final(self).buffer@ == old(self).buffer@ + enc_color(*value),
    {
        self.buffer.push(value.red);
        self.buffer.push(value.green);
        self.buffer.push(value.blue);
        self.buffer.push(value.alpha);
        assert(self.buffer@ =~= old(self).buffer@ + enc_color(*value));
    }

    /// Writes the sixteen entries of a matrix, row by row.
    pub fn write_matrix(&mut self, value: &Matrix)
        ensures
            final(self).buffer@ == old(self).buffer@ + enc_items(matrix_entries(*value), |x: u32| enc_u32(x)),
    {
        let ghost f = |x: u32| enc_u32(x);
        let ghost m = matrix_entries(*value);
        let mut k: usize = 0;
        while k < 16
            invariant
                k <= 16,
                m == matrix_entries(*value),
                f == (|x: u32| enc_u32(x)),
                self.buffer@ == old(self).buffer@ + enc_items(m.take(k as int), f),
            decreases 16 - k,
        {
            proof {
                lemma_enc_items_take(m, k as int, f);
            }
            let x = value.0[k / 4][k % 4];
            assert(x == m[k as int]);
            assert(f(x) == enc_u32(x));
            assert(enc_items(m.take(k + 1), f) == enc_items(m.take(k as int), f) + enc_u32(x));
            let ghost before = self.buffer@;
            self.write_float(x);
            assert(self.buffer@ == before + enc_u32(x));
            assert(self.buffer@ =~= old(self).buffer@ + enc_items(m.take(k + 1), f));
            k = k + 1;
        }
        assert(m.take(16) =~= m);
    }

    /// Writes a string as its position in the string table, `-1` for the
    /// empty string: an `i32` from version 5, an `i16` before.
    pub fn write_string_index(&mut self, value: &str, version: i32, table: &IndexSet<String>)
        requires
            value@.len() == 0 || item_position(string_set_items(*table), value@) is Some,
            string_set_items(*table).len() <= MAX_ARRAY_SIZE,
        ensures
            final(self).buffer@ == old(self).buffer@ + enc_string_index(value@, version, string_set_items(*table)),
    {
        if value.is_empty() {
            if version >= VERSION_LARGE_STRING_INDEX {
                self.write_integer(-1);
            } else {
                self.write_short(-1);
            }
            return;
        }
        proof {
            lemma_item_position(string_set_items(*table), value@);
        }
        let index = match string_set_get_index_of(table, value) {
            Some(i) => i,
            None => {
                assert(false);
                0
            },
        };
        if version >= VERSION_LARGE_STRING_INDEX {
            self.write_integer(index as i32);
        } else {
            self.write_short(index as i16);
        }
    }

    /// Writes a reference to the element at graph position `r`: the position
    /// among the collected elements of the element with its id.
    pub fn write_ref(&mut self, graph: &ElementGraph, order: &Vec<usize>, ids: &IndexMap<UuidBytes, usize>, r: usize)
        requires
            r < graph@.len(),
            id_map_view(id_map_entries(*ids)) == id_entries(graph@, order@),
            is_collected(graph@, order@, r),
            order@.len() <= MAX_ARRAY_SIZE,
        ensures
            final(self).buffer@ == old(self).buffer@ + enc_i32(ref_index(graph@, order@, r) as i32),
    {
        let id = graph.elements[r].id;
        proof {
            lemma_id_map_key_position(id_map_entries(*ids), id);
            assert(graph@[r as int].id == id@);
            crate::collections::lemma_key_position(id_entries(graph@, order@), id@);
        }
        let index = match id_map_get_index_of(ids, &id) {
            Some(i) => i,
            None => {
                assert(false);
                0
            },
        };
        self.write_integer(index as i32);
    }
}

impl Writer {
    /// Writes the items of an array one after the other.
    pub fn write_integers(&mut self, xs: &Vec<i32>)
        ensures
            final(self).buffer@ == old(self).buffer@ + enc_items(xs@, |x: i32| enc_i32(x)),
    {
        let ghost f = |x: i32| enc_i32(x);
        let ghost v = xs@;
        let mut i: usize = 0;
        while i < xs.len()
            invariant
                i <= xs@.len(),
                v == xs@,
                v.len() == xs@.len(),
                f == (|x: i32| enc_i32(x)),
                self.buffer@ == old(self).buffer@ + enc_items(v.take(i as int), f),
            decreases xs@.len() - i,
        {
            proof {
                lemma_enc_items_take(v, i as int, f);
            }
            let ghost before = self.buffer@;
            self.write_integer(xs[i]);
            assert(self.buffer@ =~= before + f(v[i as int]));
            assert(self.buffer@ =~= old(self).buffer@ + enc_items(v.take(i + 1), f));
            i = i + 1;
        }
        assert(v.take(v.len() as int) =~= v);
    }

    /// Writes the items of an array one after the other.
    pub fn write_floats(&mut self, xs: &Vec<u32>)
        ensures
            final(self).buffer@ == old(self).buffer@ + enc_items(xs@, |x: u32| enc_u32(x)),
    {
        let ghost f = |x: u32| enc_u32(x);
        let ghost v = xs@;
        let mut i: usize = 0;
        while i < xs.len()
            invariant
                i <= xs@.len(),
                v == xs@,
                v.len() == xs@.len(),
                f == (|x: u32| enc_u32(x)),
                self.buffer@ == old(self).buffer@ + enc_items(v.take(i as int), f),
            decreases xs@.len() - i,
        {
            proof {
                lemma_enc_items_take(v, i as int, f);
            }
            let ghost before = self.buffer@;
            self.write_float(xs[i]);
            assert(self.buffer@ =~= before + f(v[i as int]));
            assert(self.buffer@ =~= old(self).buffer@ + enc_items(v.take(i + 1), f));
            i = i + 1;
        }
        assert(v.take(v.len() as int) =~= v);
    }

    /// Writes the items of an array one after the other.
    pub fn write_booleans(&mut self, xs: &Vec<bool>)
        ensures
            final(self).buffer@ == old(self).buffer@ + enc_items(xs@, |x: bool| seq![if x { 1u8 } else { 0u8 }]),
    {
        let ghost f = |x: bool| seq![if x { 1u8 } else { 0u8 }];
        let ghost v = xs@;
        let mut i: usize = 0;
        while i < xs.len()
            invariant
                i <= xs@.len(),
                v == xs@,
                v.len() == xs@.len(),
                f == (|x: bool| seq![if x { 1u8 } else { 0u8 }]),
                self.buffer@ == old(self).buffer@ + enc_items(v.take(i as int), f),
            decreases xs@.len() - i,
        {
            proof {
                lemma_enc_items_take(v, i as int, f);
            }
            let ghost before = self.buffer@;
            self.write_unsigned_byte(if xs[i] { 1 } else { 0 });
            assert(self.buffer@ =~= before + f(v[i as int]));
            assert(self.buffer@ =~= old(self).buffer@ + enc_items(v.take(i + 1), f));
            i = i + 1;
        }
        assert(v.take(v.len() as int) =~= v);
    }

    /// Writes the items of an array one after the other.
    pub fn write_strings(&mut self, xs: &Vec<String>)
        ensures
            final(self).buffer@ == old(self).buffer@ + enc_items(strings_view(xs@), |x: Seq<char>| enc_string(x)),
    {
        let ghost f = |x: Seq<char>| enc_string(x);
        let ghost v = strings_view(xs@);
        let mut i: usize = 0;
        while i < xs.len()
            invariant
                i <= xs@.len(),
                v == strings_view(xs@),
                v.len() == xs@.len(),
                f == (|x: Seq<char>| enc_string(x)),
                self.buffer@ == old(self).buffer@ + enc_items(v.take(i as int), f),
            decreases xs@.len() - i,
        {
            proof {
                lemma_enc_items_take(v, i as int, f);
            }
            let ghost before = self.buffer@;
            self.write_string(xs[i].as_str());
            assert(self.buffer@ =~= before + f(v[i as int]));
            assert(self.buffer@ =~= old(self).buffer@ + enc_items(v.take(i + 1), f));
            i = i + 1;
        }
        assert(v.take(v.len() as int) =~= v);
    }

    /// Writes the items of an array one after the other.
    pub fn write_uuids(&mut self, xs: &Vec<UuidBytes>)
        ensures
            final(self).buffer@ == old(self).buffer@ + enc_items(uuids_view(xs@), |x: Seq<u8>| enc_uuid(x)),
    {
        let ghost f = |x: Seq<u8>| enc_uuid(x);
        let ghost v = uuids_view(xs@);
        let mut i: usize = 0;
        while i < xs.len()
            invariant
                i <= xs@.len(),
                v == uuids_view(xs@),
                v.len() == xs@.len(),
                f == (|x: Seq<u8>| enc_uuid(x)),
                self.buffer@ == old(self).buffer@ + enc_items(v.take(i as int), f),
            decreases xs@.len() - i,
        {
            proof {
                lemma_enc_items_take(v, i as int, f);
            }
            let ghost before = self.buffer@;
            self.write_uuid(&xs[i]);
            assert(self.buffer@ =~= before + f(v[i as int]));
            assert(self.buffer@ =~= old(self).buffer@ + enc_items(v.take(i + 1), f));
            i = i + 1;
        }
        assert(v.take(v.len() as int) =~= v);
    }

    /// Writes the items of an array one after the other.
    pub fn write_times(&mut self, xs: &Vec<Time>)
        ensures
            final(self).buffer@ == old(self).buffer@ + enc_items(xs@, |x: Time| enc_i32(x.0)),
    {
        let ghost f = |x: Time| enc_i32(x.0);
        let ghost v = xs@;
        let mut i: usize = 0;
        while i < xs.len()
            invariant
                i <= xs@.len(),
                v == xs@,
                v.len() == xs@.len(),
                f == (|x: Time| enc_i32(x.0)),
                self.buffer@ == old(self).buffer@ + enc_items(v.take(i as int), f),
            decreases xs@.len() - i,
        {
            proof {
                lemma_enc_items_take(v, i as int, f);
            }
            let ghost before = self.buffer@;
            self.write_integer(xs[i].0);
            assert(self.buffer@ =~= before + f(v[i as int]));
            assert(self.buffer@ =~= old(self).buffer@ + enc_items(v.take(i + 1), f));
            i = i + 1;
        }
        assert(v.take(v.len() as int) =~= v);
    }

    /// Writes the items of an array one after the other.
    pub fn write_colors(&mut self, xs: &Vec<Color>)
        ensures
            final(self).buffer@ == old(self).buffer@ + enc_items(xs@, |x: Color| enc_color(x)),
    {
        let ghost f = |x: Color| enc_color(x);
        let ghost v = xs@;
        let mut i: usize = 0;
        while i < xs.len()
            invariant
                i <= xs@.len(),
                v == xs@,
                v.len() == xs@.len(),
                f == (|x: Color| enc_color(x)),
                self.buffer@ == old(self).buffer@ + enc_items(v.take(i as int), f),
            decreases xs@.len() - i,
        {
            proof {
                lemma_enc_items_take(v, i as int, f);
            }
            let ghost before = self.buffer@;
            self.write_color(&xs[i]);
            assert(self.buffer@ =~= before + f(v[i as int]));
            assert(self.buffer@ =~= old(self).buffer@ + enc_items(v.take(i + 1), f));
            i = i + 1;
        }
        assert(v.take(v.len() as int) =~= v);
    }

    /// Writes the items of an array one after the other.
    pub fn write_vector2s(&mut self, xs: &Vec<Vector2>)
        ensures
            final(self).buffer@ == old(self).buffer@ + enc_items(xs@, |x: Vector2| enc_u32(x.x) + enc_u32(x.y)),
    {
        let ghost f = |x: Vector2| enc_u32(x.x) + enc_u32(x.y);
        let ghost v = xs@;
        let mut i: usize = 0;
        while i < xs.len()
            invariant
                i <= xs@.len(),
                v == xs@,
                v.len() == xs@.len(),
                f == (|x: Vector2| enc_u32(x.x) + enc_u32(x.y)),
                self.buffer@ == old(self).buffer@ + enc_items(v.take(i as int), f),
            decreases xs@.len() - i,
        {
            proof {
                lemma_enc_items_take(v, i as int, f);
            }
            let ghost before = self.buffer@;
            self.write_float(xs[i].x);
            self.write_float(xs[i].y);
            assert(self.buffer@ =~= before + f(v[i as int]));
            assert(self.buffer@ =~= old(self).buffer@ + enc_items(v.take(i + 1), f));
            i = i + 1;
        }
        assert(v.take(v.len() as int) =~= v);
    }

    /// Writes the items of an array one after the other.
    pub fn write_vector3s(&mut self, xs: &Vec<Vector3>)
        ensures
            final(self).buffer@ == old(self).buffer@ + enc_items(xs@, |x: Vector3| enc_u32(x.x) + enc_u32(x.y) + enc_u32(x.z)),
    {
        let ghost f = |x: Vector3| enc_u32(x.x) + enc_u32(x.y) + enc_u32(x.z);
        let ghost v = xs@;
        let mut i: usize = 0;
        while i < xs.len()
            invariant
                i <= xs@.len(),
                v == xs@,
                v.len() == xs@.len(),
                f == (|x: Vector3| enc_u32(x.x) + enc_u32(x.y) + enc_u32(x.z)),
                self.buffer@ == old(self).buffer@ + enc_items(v.take(i as int), f),
            decreases xs@.len() - i,
        {
            proof {
                lemma_enc_items_take(v, i as int, f);
            }
            let ghost before = self.buffer@;
            self.write_float(xs[i].x);
            self.write_float(xs[i].y);
            self.write_float(xs[i].z);
            assert(self.buffer@ =~= before + f(v[i as int]));
            assert(self.buffer@ =~= old(self).buffer@ + enc_items(v.take(i + 1), f));
            i = i + 1;
        }
        assert(v.take(v.len() as int) =~= v);
    }

    /// Writes the items of an array one after the other.
    pub fn write_vector4s(&mut self, xs: &Vec<Vector4>)
        ensures
            final(self).buffer@ == old(self).buffer@ + enc_items(xs@, |x: Vector4| enc_u32(x.x) + enc_u32(x.y) + enc_u32(x.z) + enc_u32(x.w)),
    {
        let ghost f = |x: Vector4| enc_u32(x.x) + enc_u32(x.y) + enc_u32(x.z) + enc_u32(x.w);
        let ghost v = xs@;
        let mut i: usize = 0;
        while i < xs.len()
            invariant
                i <= xs@.len(),
                v == xs@,
                v.len() == xs@.len(),
                f == (|x: Vector4| enc_u32(x.x) + enc_u32(x.y) + enc_u32(x.z) + enc_u32(x.w)),
                self.buffer@ == old(self).buffer@ + enc_items(v.take(i as int), f),
            decreases xs@.len() - i,
        {
            proof {
                lemma_enc_items_take(v, i as int, f);
            }
            let ghost before = self.buffer@;
            self.write_float(xs[i].x);
            self.write_float(xs[i].y);
            self.write_float(xs[i].z);
            self.write_float(xs[i].w);
            assert(self.buffer@ =~= before + f(v[i as int]));
            assert(self.buffer@ =~= old(self).buffer@ + enc_items(v.take(i + 1), f));
            i = i + 1;
        }
        assert(v.take(v.len() as int) =~= v);
    }

    /// Writes the items of an array one after the other.
    pub fn write_angles(&mut self, xs: &Vec<Angle>)
        ensures
            final(self).buffer@ == old(self).buffer@ + enc_items(xs@, |x: Angle| enc_u32(x.pitch) + enc_u32(x.yaw) + enc_u32(x.roll)),
    {
        let ghost f = |x: Angle| enc_u32(x.pitch) + enc_u32(x.yaw) + enc_u32(x.roll);
        let ghost v = xs@;
        let mut i: usize = 0;
        while i < xs.len()
            invariant
                i <= xs@.len(),
                v == xs@,
                v.len() == xs@.len(),
                f == (|x: Angle| enc_u32(x.pitch) + enc_u32(x.yaw) + enc_u32(x.roll)),
                self.buffer@ == old(self).buffer@ + enc_items(v.take(i as int), f),
            decreases xs@.len() - i,
        {
            proof {
                lemma_enc_items_take(v, i as int, f);
            }
            let ghost before = self.buffer@;
            self.write_float(xs[i].pitch);
            self.write_float(xs[i].yaw);
            self.write_float(xs[i].roll);
            assert(self.buffer@ =~= before + f(v[i as int]));
            assert(self.buffer@ =~= old(self).buffer@ + enc_items(v.take(i + 1), f));
            i = i + 1;
        }
        assert(v.take(v.len() as int) =~= v);
    }

    /// Writes the items of an array one after the other.
    pub fn write_quaternions(&mut self, xs: &Vec<Quaternion>)
        ensures
            final(self).buffer@ == old(self).buffer@ + enc_items(xs@, |x: Quaternion| enc_u32(x.x) + enc_u32(x.y) + enc_u32(x.z) + enc_u32(x.w)),
    {
        let ghost f = |x: Quaternion| enc_u32(x.x) + enc_u32(x.y) + enc_u32(x.z) + enc_u32(x.w);
        let ghost v = xs@;
        let mut i: usize = 0;
        while i < xs.len()
            invariant
                i <= xs@.len(),
                v == xs@,
                v.len() == xs@.len(),
                f == (|x: Quaternion| enc_u32(x.x) + enc_u32(x.y) + enc_u32(x.z) + enc_u32(x.w)),
                self.buffer@ == old(self).buffer@ + enc_items(v.take(i as int), f),
            decreases xs@.len() - i,
        {
            proof {
                lemma_enc_items_take(v, i as int, f);
            }
            let ghost before = self.buffer@;
            self.write_float(xs[i].x);
            self.write_float(xs[i].y);
            self.write_float(xs[i].z);
            self.write_float(xs[i].w);
            assert(self.buffer@ =~= before + f(v[i as int]));
            assert(self.buffer@ =~= old(self).buffer@ + enc_items(v.take(i + 1), f));
            i = i + 1;
        }
        assert(v.take(v.len() as int) =~= v);
    }

    /// Writes the items of an array one after the other.
    pub fn write_matrices(&mut self, xs: &Vec<Matrix>)
        ensures
            final(self).buffer@ == old(self).buffer@ + enc_items(matrices_view(xs@), |m: Seq<u32>| enc_items(m, |x: u32| enc_u32(x))),
    {
        let ghost f = |m: Seq<u32>| enc_items(m, |x: u32| enc_u32(x));
        let ghost v = matrices_view(xs@);
        let mut i: usize = 0;
        while i < xs.len()
            invariant
                i <= xs@.len(),
                v == matrices_view(xs@),
                v.len() == xs@.len(),
                f == (|m: Seq<u32>| enc_items(m, |x: u32| enc_u32(x))),
                self.buffer@ == old(self).buffer@ + enc_items(v.take(i as int), f),
            decreases xs@.len() - i,
        {
            proof {
                lemma_enc_items_take(v, i as int, f);
            }
            let ghost before = self.buffer@;
            self.write_matrix(&xs[i]);
            assert(self.buffer@ =~= before + f(v[i as int]));
            assert(self.buffer@ =~= old(self).buffer@ + enc_items(v.take(i + 1), f));
            i = i + 1;
        }
        assert(v.take(v.len() as int) =~= v);
    }

    /// Writes the items of an array one after the other.
    pub fn write_unsigned_longs(&mut self, xs: &Vec<u64>)
        ensures
            final(self).buffer@ == old(self).buffer@ + enc_items(xs@, |x: u64| enc_u64(x)),
    {
        let ghost f = |x: u64| enc_u64(x);
        let ghost v = xs@;
        let mut i: usize = 0;
        while i < xs.len()
            invariant
                i <= xs@.len(),
                v == xs@,
                v.len() == xs@.len(),
                f == (|x: u64| enc_u64(x)),
                self.buffer@ == old(self).buffer@ + enc_items(v.take(i as int), f),
            decreases xs@.len() - i,
        {
            proof {
                lemma_enc_items_take(v, i as int, f);
            }
            let ghost before = self.buffer@;
            self.write_unsigned_long(xs[i]);
            assert(self.buffer@ =~= before + f(v[i as int]));
            assert(self.buffer@ =~= old(self).buffer@ + enc_items(v.take(i + 1), f));
            i = i + 1;
        }
        assert(v.take(v.len() as int) =~= v);
    }

    /// Writes element references one after the other.
    pub fn write_refs(&mut self, graph: &ElementGraph, order: &Vec<usize>, ids: &IndexMap<UuidBytes, usize>, xs: &Vec<Option<usize>>)
        requires
            id_map_view(id_map_entries(*ids)) == id_entries(graph@, order@),
            order@.len() <= MAX_ARRAY_SIZE,
            forall|j: int| 0 <= j < xs@.len() ==> (#[trigger] xs@[j] matches Some(r) ==> r < graph@.len() && is_collected(graph@, order@, r)),
        ensures
            final(self).buffer@ == old(self).buffer@ + enc_items(xs@, |r: Option<usize>| enc_ref(graph@, order@, r)),
    {
        let ghost f = |r: Option<usize>| enc_ref(graph@, order@, r);
        let ghost v = xs@;
        let mut i: usize = 0;
        while i < xs.len()
            invariant
                i <= xs@.len(),
                v == xs@,
                f == (|r: Option<usize>| enc_ref(graph@, order@, r)),
                id_map_view(id_map_entries(*ids)) == id_entries(graph@, order@),
                order@.len() <= MAX_ARRAY_SIZE,
                forall|j: int| 0 <= j < xs@.len() ==> (#[trigger] xs@[j] matches Some(r) ==> r < graph@.len() && is_collected(graph@, order@, r)),
                self.buffer@ == old(self).buffer@ + enc_items(v.take(i as int), f),
            decreases xs@.len() - i,
        {
            proof {
                lemma_enc_items_take(v, i as int, f);
            }
            let ghost before = self.buffer@;
            match xs[i] {
                Some(r) => self.write_ref(graph, order, ids, r),
                None => self.write_integer(-1),
            }
            assert(self.buffer@ =~= before + f(v[i as int]));
            assert(self.buffer@ =~= old(self).buffer@ + enc_items(v.take(i + 1), f));
            i = i + 1;
        }
        assert(v.take(v.len() as int) =~= v);
    }

    /// Writes blocks of binary data, each with its size; a block longer than
    /// an array can be stops the writing with an error.
    pub fn write_blocks(&mut self, xs: &Vec<BinaryBlock>, name: &String, pos: usize) -> (r: Result<(), BinarySerializationError>)
        ensures
            match enc_blocks(blocks_view(xs@), name@, pos as int) {
                Ok(b) => r is Ok && final(self).buffer@ == old(self).buffer@ + b,
                Err(e) => r matches Err(x) && x@ == e,
            },
    {
        let ghost v = blocks_view(xs@);
        let mut i: usize = 0;
        while i < xs.len()
            invariant
                i <= xs@.len(),
                v == blocks_view(xs@),
                v.len() == xs@.len(),
                enc_blocks(v.take(i as int), name@, pos as int) matches Ok(b) && self.buffer@ == old(self).buffer@ + b,
            decreases xs@.len() - i,
        {
            proof {
                lemma_enc_blocks_take(v, i as int, name@, pos as int);
            }
            let block = &xs[i].0;
            if block.len() > MAX_ARRAY_SIZE {
                proof {
                    lemma_enc_blocks_err(v, (i + 1) as nat, name@, pos as int);
                }
                return Err(BinarySerializationError::BinaryDataTooLong { attribute: name.clone(), element: pos, count: block.len() });
            }
            let ghost before = self.buffer@;
            self.write_integer(count_i32(block.len()));
            self.write_unsigned_bytes(block.as_slice());
            assert(self.buffer@ =~= before + (enc_i32(wrap_i32(block@.len() as int)) + block@));
            i = i + 1;
            assert(enc_blocks(v.take(i as int), name@, pos as int) matches Ok(b) && self.buffer@ =~= old(self).buffer@ + b);
        }
        assert(v.take(v.len() as int) =~= v);
        Ok(())
    }
}

/// An error among the first `k` blocks is the error of all of them.
pub proof fn lemma_enc_blocks_err(bs: Seq<Seq<u8>>, k: nat, name: Seq<char>, pos: int)
    requires
        k <= bs.len(),
        enc_blocks(bs.take(k as int), name, pos) is Err,
    ensures
        enc_blocks(bs, name, pos) == enc_blocks(bs.take(k as int), name, pos),
    decreases bs.len() - k,
{
    if k < bs.len() {
        lemma_enc_blocks_take(bs, k as int, name, pos);
        lemma_enc_blocks_err(bs, k + 1, name, pos);
    } else {
        assert(bs.take(k as int) =~= bs);
    }
}

/// Bytes written after `b0` are those of a successful result.
pub proof fn ok_written(buffer: Seq<u8>, b0: Seq<u8>, r: Result<Seq<u8>, crate::serializers::binary_format::SpecBinaryError>)
    requires
        r matches Ok(b) ==> buffer =~= b0 + b,
        r is Ok,
    ensures
        r matches Ok(b) && buffer == b0 + b,
{
}

/// Whether a value is an array.
pub open spec fn is_array_value(v: SpecAttributeValue) -> bool {
    match v {
        SpecAttributeValue::ElementArray(_) | SpecAttributeValue::IntegerArray(_) | SpecAttributeValue::FloatArray(_)
        | SpecAttributeValue::BooleanArray(_) | SpecAttributeValue::StringArray(_) | SpecAttributeValue::BinaryArray(_)
        | SpecAttributeValue::ObjectIdArray(_) | SpecAttributeValue::TimeArray(_) | SpecAttributeValue::ColorArray(_)
        | SpecAttributeValue::Vector2Array(_) | SpecAttributeValue::Vector3Array(_) | SpecAttributeValue::Vector4Array(_)
        | SpecAttributeValue::AngleArray(_) | SpecAttributeValue::QuaternionArray(_) | SpecAttributeValue::MatrixArray(_)
        | SpecAttributeValue::ULongArray(_) | SpecAttributeValue::UByteArray(_) => true,
        _ => false,
    }
}

/// Whether a value is an array.
pub fn is_array(v: &AttributeValue) -> (r: bool)
    ensures
        r == is_array_value(v@),
{
    match v {
        AttributeValue::ElementArray(_) | AttributeValue::IntegerArray(_) | AttributeValue::FloatArray(_)
        | AttributeValue::BooleanArray(_) | AttributeValue::StringArray(_) | AttributeValue::BinaryArray(_)
        | AttributeValue::ObjectIdArray(_) | AttributeValue::TimeArray(_) | AttributeValue::ColorArray(_)
        | AttributeValue::Vector2Array(_) | AttributeValue::Vector3Array(_) | AttributeValue::Vector4Array(_)
        | AttributeValue::AngleArray(_) | AttributeValue::QuaternionArray(_) | AttributeValue::MatrixArray(_)
        | AttributeValue::ULongArray(_) | AttributeValue::UByteArray(_) => true,
        _ => false,
    }
}

impl Writer {
    /// Writes the type id, size and count of an array, when it is not too long.
    fn write_array_head(&mut self, version: i32, ty: i8, n: usize, name: &String, pos: usize) -> (r: Result<(), BinarySerializationError>)
        requires
            1 <= ty <= ATTRIBUTE_UBYTE_ID,
        ensures
            match enc_array(version, ty, n as int, seq![], name@, pos as int) {
                Ok(b) => r is Ok && final(self).buffer@ == old(self).buffer@ + b,
                Err(e) => r matches Err(x) && x@ == e,
            },
    {
        if n > MAX_ARRAY_SIZE {
            return Err(BinarySerializationError::AttributeArrayTooLong { attribute: name.clone(), element: pos, count: n });
        }
        let offset = if version >= VERSION_UNSIGNED_INTEGERS {
            ATTRIBUTE_UNSIGNED_INTEGERS_ARRAY_OFFSET
        } else {
            ATTRIBUTE_INITIAL_ARRAY_OFFSET
        };
        self.write_byte(ty + offset);
        self.write_integer(count_i32(n));
        assert(self.buffer@ =~= old(self).buffer@ + (enc_i8(array_id(version, ty)) + enc_i32(wrap_i32(n as int)) + seq![]));
        Ok(())
    }

    /// Writes a single (non-array) attribute value.
    #[verifier::rlimit(40)]
    fn write_single_value(
        &mut self,
        graph: &ElementGraph,
        order: &Vec<usize>,
        ids: &IndexMap<UuidBytes, usize>,
        version: i32,
        table: &IndexSet<String>,
        name: &String,
        pos: usize,
        value: &AttributeValue,
    ) -> (r: Result<(), BinarySerializationError>)
        requires
            id_map_view(id_map_entries(*ids)) == id_entries(graph@, order@),
            order@.len() <= MAX_ARRAY_SIZE,
            string_set_items(*table).len() <= MAX_ARRAY_SIZE,
            value_refs_in(graph@.len() as int, value@),
            value_refs_collected(graph@, order@, value@),
            value_string_in(version, string_set_items(*table), value@),
            !is_array_value(value@),
        ensures
            match enc_value(graph@, order@, version, string_set_items(*table), name@, pos as int, value@) {
                Ok(b) => r is Ok && final(self).buffer@ == old(self).buffer@ + b,
                Err(e) => r matches Err(x) && x@ == e,
            },
    {
        reveal(enc_value);
        let ghost b0 = self.buffer@;
        match value {
            AttributeValue::Element(x) => {
                self.write_byte(ATTRIBUTE_ELEMENT_ID);
                match x {
                    Some(r) => self.write_ref(graph, order, ids, *r),
                    None => self.write_integer(-1),
                }
                proof { ok_written(self.buffer@, b0, enc_value(graph@, order@, version, string_set_items(*table), name@, pos as int, value@)); }
                Ok(())
            },
            AttributeValue::Integer(x) => {
                self.write_byte(ATTRIBUTE_INTEGER_ID);
                self.write_integer(*x);
                proof { ok_written(self.buffer@, b0, enc_value(graph@, order@, version, string_set_items(*table), name@, pos as int, value@)); }
                Ok(())
            },
            AttributeValue::Float(x) => {
                self.write_byte(ATTRIBUTE_FLOAT_ID);
                self.write_float(*x);
                proof { ok_written(self.buffer@, b0, enc_value(graph@, order@, version, string_set_items(*table), name@, pos as int, value@)); }
                Ok(())
            },
            AttributeValue::Boolean(x) => {
                self.write_byte(ATTRIBUTE_BOOLEAN_ID);
                self.write_unsigned_byte(if *x { 1 } else { 0 });
                proof { ok_written(self.buffer@, b0, enc_value(graph@, order@, version, string_set_items(*table), name@, pos as int, value@)); }
                Ok(())
            },
            AttributeValue::String(x) => {
                self.write_byte(ATTRIBUTE_STRING_ID);
                if version >= VERSION_GLOBAL_STRING_TABLE {
                    self.write_string_index(x.as_str(), version, table);
                } else {
                    self.write_string(x.as_str());
                }
                proof { ok_written(self.buffer@, b0, enc_value(graph@, order@, version, string_set_items(*table), name@, pos as int, value@)); }
                Ok(())
            },
            AttributeValue::Binary(x) => {
                if x.0.len() > MAX_ARRAY_SIZE {
                    return Err(BinarySerializationError::BinaryDataTooLong { attribute: name.clone(), element: pos, count: x.0.len() });
                }
                self.write_byte(ATTRIBUTE_BINARY_ID);
                self.write_integer(count_i32(x.0.len()));
                self.write_unsigned_bytes(x.0.as_slice());
                proof { ok_written(self.buffer@, b0, enc_value(graph@, order@, version, string_set_items(*table), name@, pos as int, value@)); }
                Ok(())
            },
            AttributeValue::ObjectId(x) => {
                if version >= VERSION_DEPRECATE_OBJECT_ID {
                    return Err(BinarySerializationError::InvalidVersionForAttribute { attribute: name.clone(), element: pos, min: 1, max: VERSION_STRING_TABLE });
                }
                self.write_byte(ATTRIBUTE_OBJECTID_ID);
                self.write_uuid(x);
                proof { ok_written(self.buffer@, b0, enc_value(graph@, order@, version, string_set_items(*table), name@, pos as int, value@)); }
                Ok(())
            },
            AttributeValue::Time(x) => {
                if version < VERSION_DEPRECATE_OBJECT_ID {
                    return Err(BinarySerializationError::InvalidVersionForAttribute { attribute: name.clone(), element: pos, min: VERSION_DEPRECATE_OBJECT_ID, max: BINARY_VERSION });
                }
                self.write_byte(ATTRIBUTE_TIME_ID);
                self.write_integer(x.0);
                proof { ok_written(self.buffer@, b0, enc_value(graph@, order@, version, string_set_items(*table), name@, pos as int, value@)); }
                Ok(())
            },
            AttributeValue::Color(x) => {
                self.write_byte(ATTRIBUTE_COLOR_ID);
                self.write_color(x);
                proof { ok_written(self.buffer@, b0, enc_value(graph@, order@, version, string_set_items(*table), name@, pos as int, value@)); }
                Ok(())
            },
            AttributeValue::Vector2(x) => {
                self.write_byte(ATTRIBUTE_VECTOR2_ID);
                self.write_float(x.x);
                self.write_float(x.y);
                proof { ok_written(self.buffer@, b0, enc_value(graph@, order@, version, string_set_items(*table), name@, pos as int, value@)); }
                Ok(())
            },
            AttributeValue::Vector3(x) => {
                self.write_byte(ATTRIBUTE_VECTOR3_ID);
                self.write_float(x.x);
                self.write_float(x.y);
                self.write_float(x.z);
                proof { ok_written(self.buffer@, b0, enc_value(graph@, order@, version, string_set_items(*table), name@, pos as int, value@)); }
                Ok(())
            },
            AttributeValue::Vector4(x) => {
                self.write_byte(ATTRIBUTE_VECTOR4_ID);
                self.write_float(x.x);
                self.write_float(x.y);
                self.write_float(x.z);
                self.write_float(x.w);
                proof { ok_written(self.buffer@, b0, enc_value(graph@, order@, version, string_set_items(*table), name@, pos as int, value@)); }
                Ok(())
            },
            AttributeValue::Angle(x) => {
                self.write_byte(ATTRIBUTE_ANGLE_ID);
                self.write_float(x.pitch);
                self.write_float(x.yaw);
                self.write_float(x.roll);
                proof { ok_written(self.buffer@, b0, enc_value(graph@, order@, version, string_set_items(*table), name@, pos as int, value@)); }
                Ok(())
            },
            AttributeValue::Quaternion(x) => {
                self.write_byte(ATTRIBUTE_QUATERNION_ID);
                self.write_float(x.x);
                self.write_float(x.y);
                self.write_float(x.z);
                self.write_float(x.w);
                proof { ok_written(self.buffer@, b0, enc_value(graph@, order@, version, string_set_items(*table), name@, pos as int, value@)); }
                Ok(())
            },
            AttributeValue::Matrix(x) => {
                self.write_byte(ATTRIBUTE_MATRIX_ID);
                self.write_matrix(x);
                proof { ok_written(self.buffer@, b0, enc_value(graph@, order@, version, string_set_items(*table), name@, pos as int, value@)); }
                Ok(())
            },
            AttributeValue::ULong(x) => {
                if version < VERSION_UNSIGNED_INTEGERS {
                    return Err(BinarySerializationError::InvalidVersionForAttribute { attribute: name.clone(), element: pos, min: VERSION_UNSIGNED_INTEGERS, max: BINARY_VERSION });
                }
                self.write_byte(ATTRIBUTE_ULONG_ID);
                self.write_unsigned_long(*x);
                proof { ok_written(self.buffer@, b0, enc_value(graph@, order@, version, string_set_items(*table), name@, pos as int, value@)); }
                Ok(())
            },
            AttributeValue::UByte(x) => {
                if version < VERSION_UNSIGNED_INTEGERS {
                    return Err(BinarySerializationError::InvalidVersionForAttribute { attribute: name.clone(), element: pos, min: VERSION_UNSIGNED_INTEGERS, max: BINARY_VERSION });
                }
                self.write_byte(ATTRIBUTE_UBYTE_ID);
                self.write_unsigned_byte(*x);
                proof { ok_written(self.buffer@, b0, enc_value(graph@, order@, version, string_set_items(*table), name@, pos as int, value@)); }
                Ok(())
            },
            _ => {
                assert(false);
                Ok(())
            },
        }
    }

    /// Writes an array attribute value.
    #[verifier::rlimit(40)]
    fn write_array_value(
        &mut self,
        graph: &ElementGraph,
        order: &Vec<usize>,
        ids: &IndexMap<UuidBytes, usize>,
        version: i32,
        table: &IndexSet<String>,
        name: &String,
        pos: usize,
        value: &AttributeValue,
    ) -> (r: Result<(), BinarySerializationError>)
        requires
            id_map_view(id_map_entries(*ids)) == id_entries(graph@, order@),
            order@.len() <= MAX_ARRAY_SIZE,
            string_set_items(*table).len() <= MAX_ARRAY_SIZE,
            value_refs_in(graph@.len() as int, value@),
            value_refs_collected(graph@, order@, value@),
            value_string_in(version, string_set_items(*table), value@),
            is_array_value(value@),
        ensures
            match enc_value(graph@, order@, version, string_set_items(*table), name@, pos as int, value@) {
                Ok(b) => r is Ok && final(self).buffer@ == old(self).buffer@ + b,
                Err(e) => r matches Err(x) && x@ == e,
            },
    {
        reveal(enc_value);
        let ghost b0 = self.buffer@;
        match value {
            AttributeValue::ElementArray(xs) => {
                self.write_array_head(version, ATTRIBUTE_ELEMENT_ID, xs.len(), name, pos)?;
                self.write_refs(graph, order, ids, xs);
                proof { ok_written(self.buffer@, b0, enc_value(graph@, order@, version, string_set_items(*table), name@, pos as int, value@)); }
                Ok(())
            },
            AttributeValue::IntegerArray(xs) => {
                self.write_array_head(version, ATTRIBUTE_INTEGER_ID, xs.len(), name, pos)?;
                self.write_integers(xs);
                proof { ok_written(self.buffer@, b0, enc_value(graph@, order@, version, string_set_items(*table), name@, pos as int, value@)); }
                Ok(())
            },
            AttributeValue::FloatArray(xs) => {
                self.write_array_head(version, ATTRIBUTE_FLOAT_ID, xs.len(), name, pos)?;
                self.write_floats(xs);
                proof { ok_written(self.buffer@, b0, enc_value(graph@, order@, version, string_set_items(*table), name@, pos as int, value@)); }
                Ok(())
            },
            AttributeValue::BooleanArray(xs) => {
                self.write_array_head(version, ATTRIBUTE_BOOLEAN_ID, xs.len(), name, pos)?;
                self.write_booleans(xs);
                proof { ok_written(self.buffer@, b0, enc_value(graph@, order@, version, string_set_items(*table), name@, pos as int, value@)); }
                Ok(())
            },
            AttributeValue::StringArray(xs) => {
                self.write_array_head(version, ATTRIBUTE_STRING_ID, xs.len(), name, pos)?;
                self.write_strings(xs);
                proof { ok_written(self.buffer@, b0, enc_value(graph@, order@, version, string_set_items(*table), name@, pos as int, value@)); }
                Ok(())
            },
            AttributeValue::BinaryArray(xs) => {
                self.write_array_head(version, ATTRIBUTE_BINARY_ID, xs.len(), name, pos)?;
                let ghost head = self.buffer@;
                self.write_blocks(xs, name, pos)?;
                proof { ok_written(self.buffer@, b0, enc_value(graph@, order@, version, string_set_items(*table), name@, pos as int, value@)); }
                Ok(())
            },
            AttributeValue::ObjectIdArray(xs) => {
                if version >= VERSION_DEPRECATE_OBJECT_ID {
                    return Err(BinarySerializationError::InvalidVersionForAttribute { attribute: name.clone(), element: pos, min: 1, max: VERSION_STRING_TABLE });
                }
                self.write_array_head(version, ATTRIBUTE_OBJECTID_ID, xs.len(), name, pos)?;
                self.write_uuids(xs);
                proof { ok_written(self.buffer@, b0, enc_value(graph@, order@, version, string_set_items(*table), name@, pos as int, value@)); }
                Ok(())
            },
            AttributeValue::TimeArray(xs) => {
                if version < VERSION_DEPRECATE_OBJECT_ID {
                    return Err(BinarySerializationError::InvalidVersionForAttribute { attribute: name.clone(), element: pos, min: VERSION_DEPRECATE_OBJECT_ID, max: BINARY_VERSION });
                }
                self.write_array_head(version, ATTRIBUTE_TIME_ID, xs.len(), name, pos)?;
                self.write_times(xs);
                proof { ok_written(self.buffer@, b0, enc_value(graph@, order@, version, string_set_items(*table), name@, pos as int, value@)); }
                Ok(())
            },
            AttributeValue::ColorArray(xs) => {
                self.write_array_head(version, ATTRIBUTE_COLOR_ID, xs.len(), name, pos)?;
                self.write_colors(xs);
                proof { ok_written(self.buffer@, b0, enc_value(graph@, order@, version, string_set_items(*table), name@, pos as int, value@)); }
                Ok(())
            },
            AttributeValue::Vector2Array(xs) => {
                self.write_array_head(version, ATTRIBUTE_VECTOR2_ID, xs.len(), name, pos)?;
                self.write_vector2s(xs);
                proof { ok_written(self.buffer@, b0, enc_value(graph@, order@, version, string_set_items(*table), name@, pos as int, value@)); }
                Ok(())
            },
            AttributeValue::Vector3Array(xs) => {
                self.write_array_head(version, ATTRIBUTE_VECTOR3_ID, xs.len(), name, pos)?;
                self.write_vector3s(xs);
                proof { ok_written(self.buffer@, b0, enc_value(graph@, order@, version, string_set_items(*table), name@, pos as int, value@)); }
                Ok(())
            },
            AttributeValue::Vector4Array(xs) => {
                self.write_array_head(version, ATTRIBUTE_VECTOR4_ID, xs.len(), name, pos)?;
                self.write_vector4s(xs);
                proof { ok_written(self.buffer@, b0, enc_value(graph@, order@, version, string_set_items(*table), name@, pos as int, value@)); }
                Ok(())
            },
            AttributeValue::AngleArray(xs) => {
                self.write_array_head(version, ATTRIBUTE_ANGLE_ID, xs.len(), name, pos)?;
                self.write_angles(xs);
                proof { ok_written(self.buffer@, b0, enc_value(graph@, order@, version, string_set_items(*table), name@, pos as int, value@)); }
                Ok(())
            },
            AttributeValue::QuaternionArray(xs) => {
                self.write_array_head(version, ATTRIBUTE_QUATERNION_ID, xs.len(), name, pos)?;
                self.write_quaternions(xs);
                proof { ok_written(self.buffer@, b0, enc_value(graph@, order@, version, string_set_items(*table), name@, pos as int, value@)); }
                Ok(())
            },
            AttributeValue::MatrixArray(xs) => {
                self.write_array_head(version, ATTRIBUTE_MATRIX_ID, xs.len(), name, pos)?;
                self.write_matrices(xs);
                proof { ok_written(self.buffer@, b0, enc_value(graph@, order@, version, string_set_items(*table), name@, pos as int, value@)); }
                Ok(())
            },
            AttributeValue::ULongArray(xs) => {
                if version < VERSION_UNSIGNED_INTEGERS {
                    return Err(BinarySerializationError::InvalidVersionForAttribute { attribute: name.clone(), element: pos, min: VERSION_UNSIGNED_INTEGERS, max: BINARY_VERSION });
                }
                self.write_array_head(version, ATTRIBUTE_ULONG_ID, xs.len(), name, pos)?;
                self.write_unsigned_longs(xs);
                proof { ok_written(self.buffer@, b0, enc_value(graph@, order@, version, string_set_items(*table), name@, pos as int, value@)); }
                Ok(())
            },
            AttributeValue::UByteArray(xs) => {
                if version < VERSION_UNSIGNED_INTEGERS {
                    return Err(BinarySerializationError::InvalidVersionForAttribute { attribute: name.clone(), element: pos, min: VERSION_UNSIGNED_INTEGERS, max: BINARY_VERSION });
                }
                self.write_array_head(version, ATTRIBUTE_UBYTE_ID, xs.len(), name, pos)?;
                self.write_unsigned_bytes(xs.as_slice());
                proof { ok_written(self.buffer@, b0, enc_value(graph@, order@, version, string_set_items(*table), name@, pos as int, value@)); }
                Ok(())
            },
            _ => {
                assert(false);
                Ok(())
            },
        }
    }

    /// Writes an attribute value (after its name) of the element at graph
    /// position `pos`.
    pub fn write_value(
        &mut self,
        graph: &ElementGraph,
        order: &Vec<usize>,
        ids: &IndexMap<UuidBytes, usize>,
        version: i32,
        table: &IndexSet<String>,
        name: &String,
        pos: usize,
        value: &AttributeValue,
    ) -> (r: Result<(), BinarySerializationError>)
        requires
            id_map_view(id_map_entries(*ids)) == id_entries(graph@, order@),
            order@.len() <= MAX_ARRAY_SIZE,
            string_set_items(*table).len() <= MAX_ARRAY_SIZE,
            value_refs_in(graph@.len() as int, value@),
            value_refs_collected(graph@, order@, value@),
            value_string_in(version, string_set_items(*table), value@),
        ensures
            match enc_value(graph@, order@, version, string_set_items(*table), name@, pos as int, value@) {
                Ok(b) => r is Ok && final(self).buffer@ == old(self).buffer@ + b,
                Err(e) => r matches Err(x) && x@ == e,
            },
    {
        if is_array(value) {
            self.write_array_value(graph, order, ids, version, table, name, pos, value)
        } else {
            self.write_single_value(graph, order, ids, version, table, name, pos, value)
        }
    }
}

/// What the writing of the elements needs to know of its inputs: the id map
/// and string table of the collected elements `order`.
pub open spec fn write_context(
    g: Seq<ElementView>,
    order: Seq<usize>,
    ids: Seq<(UuidBytes, usize)>,
    version: i32,
    table: Seq<Seq<char>>,
) -> bool {
    &&& id_map_view(ids) == id_entries(g, order)
    &&& order.len() <= MAX_ARRAY_SIZE
    &&& table.len() <= MAX_ARRAY_SIZE
    &&& table == collected_strings(g, order, version)
    &&& graph_refs_in(g)
    &&& forall|k: int| 0 <= k < order.len() ==> order[k] < g.len()
    &&& forall|k: int| 0 <= k < order.len() ==> element_refs_collected(g, order, #[trigger] order[k])
}

/// An error among the first `k` element table entries is the error of all of them.
proof fn lemma_enc_headers_err(g: Seq<ElementView>, c: Seq<usize>, version: i32, t: Seq<Seq<char>>, k: nat, m: nat)
    requires
        k <= m,
        enc_headers(g, c, version, t, k) is Err,
    ensures
        enc_headers(g, c, version, t, m) == enc_headers(g, c, version, t, k),
    decreases m - k,
{
    if k < m {
        lemma_enc_headers_err(g, c, version, t, k, (m - 1) as nat);
    }
}

/// An error among the first `k` element bodies is the error of all of them.
proof fn lemma_enc_bodies_err(g: Seq<ElementView>, c: Seq<usize>, version: i32, t: Seq<Seq<char>>, k: nat, m: nat)
    requires
        k <= m,
        enc_bodies(g, c, version, t, k) is Err,
    ensures
        enc_bodies(g, c, version, t, m) == enc_bodies(g, c, version, t, k),
    decreases m - k,
{
    if k < m {
        lemma_enc_bodies_err(g, c, version, t, k, (m - 1) as nat);
    }
}

/// An error among the first `k` attributes is the error of all of them.
proof fn lemma_enc_attributes_err(
    g: Seq<ElementView>,
    c: Seq<usize>,
    version: i32,
    t: Seq<Seq<char>>,
    pos: int,
    attrs: Seq<(Seq<char>, SpecAttributeValue)>,
    k: nat,
    m: nat,
)
    requires
        k <= m,
        enc_attributes(g, c, version, t, pos, attrs, k) is Err,
    ensures
        enc_attributes(g, c, version, t, pos, attrs, m) == enc_attributes(g, c, version, t, pos, attrs, k),
    decreases m - k,
{
    if k < m {
        lemma_enc_attributes_err(g, c, version, t, pos, attrs, k, (m - 1) as nat);
    }
}

impl Writer {
    /// Writes a string that the version stores in the table from version
    /// `from`, and inline before.
    fn write_versioned_string(&mut self, value: &str, version: i32, from: i32, table: &IndexSet<String>)
        requires
            version >= from ==> (value@.len() == 0 || item_position(string_set_items(*table), value@) is Some),
            string_set_items(*table).len() <= MAX_ARRAY_SIZE,
        ensures
            final(self).buffer@ == old(self).buffer@ + enc_versioned_string(value@, version, from, string_set_items(*table)),
    {
        if version >= from {
            self.write_string_index(value, version, table);
        } else {
            self.write_string(value);
        }
    }

    /// Writes the element table entry of the `k`-th collected element.
    pub fn write_header(
        &mut self,
        graph: &ElementGraph,
        order: &Vec<usize>,
        ids: &IndexMap<UuidBytes, usize>,
        version: i32,
        table: &IndexSet<String>,
        k: usize,
    ) -> (r: Result<(), BinarySerializationError>)
        requires
            k < order@.len(),
            write_context(graph@, order@, id_map_entries(*ids), version, string_set_items(*table)),
        ensures
            match enc_header(graph@[order@[k as int] as int], order@[k as int] as int, version, string_set_items(*table)) {
                Ok(b) => r is Ok && final(self).buffer@ == old(self).buffer@ + b,
                Err(e) => r matches Err(x) && x@ == e,
            },
    {
        let ghost g = graph@;
        let ghost t = string_set_items(*table);
        let pos = order[k];
        let element = &graph.elements[pos];
        let ghost ev = g[pos as int];
        let ghost ex = attribute_entries(element.attributes);
        proof {
            if version >= VERSION_STRING_TABLE {
                lemma_collected_strings_contain(g, order@, version, k as int);
            }
            assert forall|i: int| 0 <= i < ex.len() implies (#[trigger] ex[i]).0 == ev.attributes[i].0 by {}
            lemma_key_position_same_keys(ex, ev.attributes, name_key());
            lemma_key_position(ex, name_key());
        }
        self.write_versioned_string(element.class.as_str(), version, VERSION_STRING_TABLE, table);
        if VERSION_LINK_TYPE <= version && version < VERSION_DEPRECATE_LINK_TYPE {
            self.write_integer(-1);
        }
        let key = "name";
        proof {
            reveal_strlit("name");
        }
        assert(key@ == name_key());
        let empty = "";
        proof {
            reveal_strlit("");
        }
        match attribute_map_get(&element.attributes, key) {
            Some(v) => match v {
                AttributeValue::String(s) => {
                    self.write_versioned_string(s.as_str(), version, VERSION_GLOBAL_STRING_TABLE, table);
                },
                _ => {
                    return Err(BinarySerializationError::InvalidNameAttribute { element: pos });
                },
            },
            None => {
                self.write_versioned_string(empty, version, VERSION_GLOBAL_STRING_TABLE, table);
            },
        }
        self.write_uuid(&element.id);
        proof {
            match enc_header(ev, pos as int, version, t) {
                Ok(b) => {
                    assert(self.buffer@ =~= old(self).buffer@ + b);
                },
                Err(_) => {},
            }
        }
        Ok(())
    }

    /// Writes one attribute of the element at graph position `pos`, the
    /// `k`-th collected element: its name and value; the "name" attribute is
    /// skipped.
    pub fn write_attribute(
        &mut self,
        graph: &ElementGraph,
        order: &Vec<usize>,
        ids: &IndexMap<UuidBytes, usize>,
        version: i32,
        table: &IndexSet<String>,
        k: usize,
        name: &String,
        value: &AttributeValue,
    ) -> (r: Result<(), BinarySerializationError>)
        requires
            k < order@.len(),
            write_context(graph@, order@, id_map_entries(*ids), version, string_set_items(*table)),
            version >= VERSION_STRING_TABLE ==> (name@.len() == 0 || item_position(string_set_items(*table), name@) is Some),
            value_refs_in(graph@.len() as int, value@),
            value_refs_collected(graph@, order@, value@),
            value_string_in(version, string_set_items(*table), value@),
        ensures
            match enc_attribute(graph@, order@, version, string_set_items(*table), order@[k as int] as int, (name@, value@)) {
                Ok(b) => r is Ok && final(self).buffer@ == old(self).buffer@ + b,
                Err(e) => r matches Err(x) && x@ == e,
            },
    {
        let pos = order[k];
        let name_key_text = "name";
        let id_key_text = "id";
        proof {
            reveal_strlit("name");
            reveal_strlit("id");
        }
        assert(name_key_text@ == name_key());
        assert(id_key_text@ == id_key());
        if same_text(name.as_str(), name_key_text) {
            assert(self.buffer@ =~= old(self).buffer@ + Seq::<u8>::empty());
            return Ok(());
        }
        if same_text(name.as_str(), id_key_text) {
            if let AttributeValue::ObjectId(_) = value {
                return Err(BinarySerializationError::InvalidIdAttribute { element: pos });
            }
        }
        let ghost b0 = self.buffer@;
        self.write_versioned_string(name.as_str(), version, VERSION_STRING_TABLE, table);
        let ghost b1 = self.buffer@;
        self.write_value(graph, order, ids, version, table, name, pos, value)?;
        proof {
            match enc_value(graph@, order@, version, string_set_items(*table), name@, pos as int, value@) {
                Ok(vb) => {
                    assert(self.buffer@ =~= b0 + (enc_versioned_string(name@, version, VERSION_STRING_TABLE, string_set_items(*table)) + vb));
                },
                Err(_) => {},
            }
        }
        Ok(())
    }

    /// Writes the attributes of the `k`-th collected element: their count
    /// (without "name") and each attribute.
    pub fn write_body(
        &mut self,
        graph: &ElementGraph,
        order: &Vec<usize>,
        ids: &IndexMap<UuidBytes, usize>,
        version: i32,
        table: &IndexSet<String>,
        k: usize,
    ) -> (r: Result<(), BinarySerializationError>)
        requires
            k < order@.len(),
            write_context(graph@, order@, id_map_entries(*ids), version, string_set_items(*table)),
        ensures
            match enc_body(graph@, order@, version, string_set_items(*table), order@[k as int] as int) {
                Ok(b) => r is Ok && final(self).buffer@ == old(self).buffer@ + b,
                Err(e) => r matches Err(x) && x@ == e,
            },
    {
        let ghost g = graph@;
        let ghost t = string_set_items(*table);
        let pos = order[k];
        let element = &graph.elements[pos];
        let ghost ev = g[pos as int];
        let ghost ex = attribute_entries(element.attributes);
        let ghost attrs = ev.attributes;
        proof {
            if version >= VERSION_STRING_TABLE {
                lemma_collected_strings_contain(g, order@, version, k as int);
            }
            assert forall|i: int| 0 <= i < ex.len() implies (#[trigger] ex[i]).0 == ev.attributes[i].0 by {}
            lemma_key_position_same_keys(ex, ev.attributes, name_key());
            assert(element_refs_collected(g, order@, order@[k as int]));
        }
        let key = "name";
        proof {
            reveal_strlit("name");
        }
        assert(key@ == name_key());
        let total = attribute_map_len(&element.attributes);
        let has_name = attribute_map_contains_key(&element.attributes, key);
        let count = if has_name {
            total - 1
        } else {
            total
        };
        if count > MAX_ARRAY_SIZE {
            return Err(BinarySerializationError::TooManyAttributes { element: pos, count });
        }
        self.write_integer(count_i32(count));
        let ghost b1 = self.buffer@;
        assert(count == crate::serializers::binary_encode::stored_count(attrs));
        let mut i: usize = 0;
        while i < total
            invariant
                count == crate::serializers::binary_encode::stored_count(attrs),
                count <= MAX_ARRAY_SIZE,
                b1 == old(self).buffer@ + enc_i32(wrap_i32(count as int)),
                g == graph@,
                t == string_set_items(*table),
                k < order@.len(),
                pos == order@[k as int],
                write_context(g, order@, id_map_entries(*ids), version, t),
                element == graph.elements@[pos as int],
                ev == g[pos as int],
                ex == attribute_entries(element.attributes),
                attrs == ev.attributes,
                attrs == crate::element::entries_view(ex),
                total == ex.len(),
                i <= total,
                element_refs_collected(g, order@, pos),
                version >= VERSION_STRING_TABLE ==> forall|j: int|
                    0 <= j < attrs.len() && (#[trigger] attrs[j]).0.len() > 0 ==> item_position(t, attrs[j].0) is Some,
                forall|j: int| 0 <= j < attrs.len() ==> value_string_in(version, t, #[trigger] attrs[j].1),
                enc_attributes(g, order@, version, t, pos as int, attrs, i as nat) matches Ok(b) && self.buffer@ == b1 + b,
            decreases total - i,
        {
            let entry = attribute_map_get_index(&element.attributes, i);
            let (name, value) = entry.unwrap();
            proof {
                assert(attrs[i as int] == (name@, value@));
                assert(value_refs_in(g.len() as int, g[pos as int].attributes[i as int].1));
                assert(value_refs_collected(g, order@, g[pos as int].attributes[i as int].1));
            }
            let ghost before = self.buffer@;
            match self.write_attribute(graph, order, ids, version, table, k, name, value) {
                Ok(()) => {},
                Err(e) => {
                    proof {
                        lemma_enc_attributes_err(g, order@, version, t, pos as int, attrs, (i + 1) as nat, total as nat);
                        assert(attrs.len() == total);
                    }
                    return Err(e);
                },
            }
            proof {
                let prev = enc_attributes(g, order@, version, t, pos as int, attrs, i as nat)->Ok_0;
                assert(self.buffer@ =~= b1 + (prev + enc_attribute(g, order@, version, t, pos as int, attrs[i as int])->Ok_0));
            }
            i = i + 1;
        }
        proof {
            assert(count == crate::serializers::binary_encode::stored_count(attrs));
            match enc_body(g, order@, version, t, pos as int) {
                Ok(b) => {
                    assert(self.buffer@ =~= old(self).buffer@ + b);
                },
                Err(_) => {},
            }
        }
        Ok(())
    }
}

impl Writer {
    /// Writes the element table entries of all collected elements.
    pub fn write_headers(
        &mut self,
        graph: &ElementGraph,
        order: &Vec<usize>,
        ids: &IndexMap<UuidBytes, usize>,
        version: i32,
        table: &IndexSet<String>,
    ) -> (r: Result<(), BinarySerializationError>)
        requires
            write_context(graph@, order@, id_map_entries(*ids), version, string_set_items(*table)),
        ensures
            match enc_headers(graph@, order@, version, string_set_items(*table), order@.len()) {
                Ok(b) => r is Ok && final(self).buffer@ == old(self).buffer@ + b,
                Err(e) => r matches Err(x) && x@ == e,
            },
    {
        let ghost g = graph@;
        let ghost t = string_set_items(*table);
        let mut k: usize = 0;
        while k < order.len()
            invariant
                g == graph@,
                t == string_set_items(*table),
                write_context(g, order@, id_map_entries(*ids), version, t),
                k <= order@.len(),
                enc_headers(g, order@, version, t, k as nat) matches Ok(b) && self.buffer@ == old(self).buffer@ + b,
            decreases order@.len() - k,
        {
            match self.write_header(graph, order, ids, version, table, k) {
                Ok(()) => {},
                Err(e) => {
                    proof {
                        lemma_enc_headers_err(g, order@, version, t, (k + 1) as nat, order@.len());
                    }
                    return Err(e);
                },
            }
            proof {
                let prev = enc_headers(g, order@, version, t, k as nat)->Ok_0;
                let h = enc_header(g[order@[k as int] as int], order@[k as int] as int, version, t)->Ok_0;
                assert(self.buffer@ =~= old(self).buffer@ + (prev + h));
            }
            k = k + 1;
        }
        Ok(())
    }

    /// Writes the attributes of all collected elements.
    pub fn write_bodies(
        &mut self,
        graph: &ElementGraph,
        order: &Vec<usize>,
        ids: &IndexMap<UuidBytes, usize>,
        version: i32,
        table: &IndexSet<String>,
    ) -> (r: Result<(), BinarySerializationError>)
        requires
            write_context(graph@, order@, id_map_entries(*ids), version, string_set_items(*table)),
        ensures
            match enc_bodies(graph@, order@, version, string_set_items(*table), order@.len()) {
                Ok(b) => r is Ok && final(self).buffer@ == old(self).buffer@ + b,
                Err(e) => r matches Err(x) && x@ == e,
            },
    {
        let ghost g = graph@;
        let ghost t = string_set_items(*table);
        let mut k: usize = 0;
        while k < order.len()
            invariant
                g == graph@,
                t == string_set_items(*table),
                write_context(g, order@, id_map_entries(*ids), version, t),
                k <= order@.len(),
                enc_bodies(g, order@, version, t, k as nat) matches Ok(b) && self.buffer@ == old(self).buffer@ + b,
            decreases order@.len() - k,
        {
            match self.write_body(graph, order, ids, version, table, k) {
                Ok(()) => {},
                Err(e) => {
                    proof {
                        lemma_enc_bodies_err(g, order@, version, t, (k + 1) as nat, order@.len());
                    }
                    return Err(e);
                },
            }
            proof {
                let prev = enc_bodies(g, order@, version, t, k as nat)->Ok_0;
                let h = enc_body(g, order@, version, t, order@[k as int] as int)->Ok_0;
                assert(self.buffer@ =~= old(self).buffer@ + (prev + h));
            }
            k = k + 1;
        }
        Ok(())
    }

    /// Writes the strings of a table, one after the other.
    pub fn write_table_strings(&mut self, table: &IndexSet<String>)
        ensures
            final(self).buffer@ == old(self).buffer@ + enc_items(string_set_items(*table), |s: Seq<char>| enc_string(s)),
    {
        let ghost f = |s: Seq<char>| enc_string(s);
        let ghost v = string_set_items(*table);
        let n = string_set_len(table);
        let mut i: usize = 0;
        while i < n
            invariant
                n == v.len(),
                i <= n,
                v == string_set_items(*table),
                f == (|s: Seq<char>| enc_string(s)),
                self.buffer@ == old(self).buffer@ + enc_items(v.take(i as int), f),
            decreases n - i,
        {
            proof {
                lemma_enc_items_take(v, i as int, f);
            }
            let ghost before = self.buffer@;
            match string_set_get_index(table, i) {
                Some(x) => self.write_string(x.as_str()),
                None => {},
            }
            assert(self.buffer@ =~= old(self).buffer@ + enc_items(v.take(i + 1), f));
            i = i + 1;
        }
        assert(v.take(n as int) =~= v);
    }
}

/// A count of at most `MAX_SHORT_ARRAY_SIZE` as the `i16` that stores it: the
/// largest count wraps to `i16::MIN`, as a cast does.
pub fn count_i16(n: usize) -> (r: i16)
    requires
        n <= MAX_SHORT_ARRAY_SIZE,
    ensures
        r == wrap_i16(n as int),
{
    if n == MAX_SHORT_ARRAY_SIZE {
        i16::MIN
    } else {
        n as i16
    }
}

} // verus!
