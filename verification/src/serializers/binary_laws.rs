//! What the binary reader gives back of what the binary writer writes.

use vstd::prelude::*;
use crate::attribute::{Angle, Color, Quaternion, SpecAttributeValue, Time, Vector2, Vector3, Vector4};
use crate::element::ElementView;
use crate::serializers::binary_encode::{array_id, enc_block, enc_blocks, enc_color, enc_items, enc_value, version_supports};
use crate::serializers::binary_format::{
    array_offset, enc_i32, enc_i8, enc_u32, enc_u64, enc_uuid, item_angle, item_block, item_bool, item_color,
    item_i32, item_matrix, item_quaternion, item_time, item_u32, item_u64, item_uuid, item_vector2, item_vector3,
    item_vector4, law_i32_round_trip, BINARY_VERSION, ATTRIBUTE_INTEGER_ID, ATTRIBUTE_FLOAT_ID, ATTRIBUTE_BOOLEAN_ID,
    ATTRIBUTE_BINARY_ID, ATTRIBUTE_OBJECTID_ID, ATTRIBUTE_TIME_ID, ATTRIBUTE_COLOR_ID, ATTRIBUTE_VECTOR2_ID,
    ATTRIBUTE_VECTOR3_ID, ATTRIBUTE_VECTOR4_ID, ATTRIBUTE_ANGLE_ID, ATTRIBUTE_QUATERNION_ID, ATTRIBUTE_MATRIX_ID,
    ATTRIBUTE_ULONG_ID, ATTRIBUTE_UBYTE_ID, p_single, law_u32_round_trip, law_u64_round_trip, law_uuid_round_trip, matrix_at, p_attribute,
    p_block, p_i8, p_many, p_size, u32_at, wrap_i32, SRead, SpecBinaryError, MAX_ARRAY_SIZE,
};

verus! {

/// Bytes written one after the other are found one after the other.
pub proof fn lemma_split(d: Seq<u8>, p: int, a: Seq<u8>, b: Seq<u8>)
    requires
        0 <= p,
        p + a.len() + b.len() <= d.len(),
        d.subrange(p, p + a.len() + b.len()) == a + b,
    ensures
        d.subrange(p, p + a.len()) == a,
        d.subrange(p + a.len(), p + a.len() + b.len()) == b,
{
    let w = d.subrange(p, p + a.len() + b.len());
    assert forall|k: int| 0 <= k < a.len() implies #[trigger] d.subrange(p, p + a.len())[k] == a[k] by {
        assert(w[k] == (a + b)[k]);
    }
    assert forall|k: int| 0 <= k < b.len() implies #[trigger] d.subrange(p + a.len(), p + a.len() + b.len())[k] == b[k] by {
        assert(w[a.len() + k] == (a + b)[a.len() + k]);
    }
    assert(d.subrange(p, p + a.len()) =~= a);
    assert(d.subrange(p + a.len(), p + a.len() + b.len()) =~= b);
}

/// Reading the type id byte of a type id that was written.
pub proof fn lemma_type_id(d: Seq<u8>, p: int, ty: i8)
    requires
        0 <= ty,
        0 <= p,
        p + 1 <= d.len(),
        d.subrange(p, p + 1) == enc_i8(ty),
    ensures
        p_i8(d, p) == Ok::<(i8, int), SpecBinaryError>((ty, p + 1)),
{
    assert(d[p] == d.subrange(p, p + 1)[0]);
}

/// A `u32` stored at `q` is what `u32_at` reads.
proof fn lemma_u32_at(d: Seq<u8>, q: int, x: u32)
    requires
        0 <= q,
        q + 4 <= d.len(),
        d.subrange(q, q + 4) == enc_u32(x),
    ensures
        u32_at(d, q) == x,
{
    law_u32_round_trip(d, q, x);
}

/// `item` reads `x` back wherever `f(x)` was written.
pub open spec fn reads_back<T>(d: Seq<u8>, item: spec_fn(Seq<u8>, int) -> SRead<T>, f: spec_fn(T) -> Seq<u8>, x: T) -> bool {
    forall|q: int|
        0 <= q && q + f(x).len() <= d.len() && d.subrange(q, q + f(x).len()) == f(x) ==> #[trigger] item(d, q)
            == Ok::<(T, int), SpecBinaryError>((x, q + f(x).len()))
}

/// Items written one after the other read back one after the other.
pub proof fn lemma_many<T>(d: Seq<u8>, p: int, xs: Seq<T>, f: spec_fn(T) -> Seq<u8>, item: spec_fn(Seq<u8>, int) -> SRead<T>)
    requires
        0 <= p,
        p + enc_items(xs, f).len() <= d.len(),
        d.subrange(p, p + enc_items(xs, f).len()) == enc_items(xs, f),
        forall|i: int| 0 <= i < xs.len() ==> reads_back(d, item, f, #[trigger] xs[i]),
    ensures
        p_many(d, p, xs.len(), item) == Ok::<(Seq<T>, int), SpecBinaryError>((xs, p + enc_items(xs, f).len())),
    decreases xs.len(),
{
    if xs.len() > 0 {
        let ys = xs.drop_last();
        let a = enc_items(ys, f);
        let b = f(xs.last());
        assert(enc_items(xs, f) == a + b);
        lemma_split(d, p, a, b);
        assert forall|i: int| 0 <= i < ys.len() implies reads_back(d, item, f, #[trigger] ys[i]) by {
            assert(ys[i] == xs[i]);
        }
        lemma_many(d, p, ys, f, item);
        assert(reads_back(d, item, f, xs[xs.len() - 1]));
        assert(item(d, p + a.len()) == Ok::<(T, int), SpecBinaryError>((xs.last(), p + a.len() + b.len())));
        assert(ys.push(xs.last()) =~= xs);
        assert(((xs.len() - 1) as nat) == ys.len());
        assert(p_many(d, p, ys.len(), item) == Ok::<(Seq<T>, int), SpecBinaryError>((ys, p + a.len())));
        assert(p_many(d, p, xs.len(), item) == Ok::<(Seq<T>, int), SpecBinaryError>((ys.push(xs.last()), p + a.len() + b.len())));
    } else {
        assert(xs =~= Seq::<T>::empty());
    }
}

/// The bytes of `u32` items: four for each, in order.
proof fn lemma_u32_items(xs: Seq<u32>)
    ensures
        enc_items(xs, |x: u32| enc_u32(x)).len() == 4 * xs.len(),
        forall|k: int| 0 <= k < xs.len() ==> enc_items(xs, |x: u32| enc_u32(x)).subrange(4 * k, 4 * k + 4) == enc_u32(#[trigger] xs[k]),
    decreases xs.len(),
{
    if xs.len() > 0 {
        let ys = xs.drop_last();
        lemma_u32_items(ys);
        let a = enc_items(ys, |x: u32| enc_u32(x));
        let b = enc_u32(xs.last());
        assert forall|k: int| 0 <= k < xs.len() implies (a + b).subrange(4 * k, 4 * k + 4) == enc_u32(#[trigger] xs[k]) by {
            if k < ys.len() {
                assert((a + b).subrange(4 * k, 4 * k + 4) =~= a.subrange(4 * k, 4 * k + 4));
                assert(ys[k] == xs[k]);
            } else {
                assert((a + b).subrange(4 * k, 4 * k + 4) =~= b);
            }
        }
    }
}

/// A matrix stored at `q` is what `matrix_at` reads.
proof fn lemma_matrix_at(d: Seq<u8>, q: int, m: Seq<u32>)
    requires
        m.len() == 16,
        0 <= q,
        q + 64 <= d.len(),
        d.subrange(q, q + 64) == enc_items(m, |x: u32| enc_u32(x)),
    ensures
        matrix_at(d, q) == m,
{
    lemma_u32_items(m);
    let e = enc_items(m, |x: u32| enc_u32(x));
    assert forall|k: int| 0 <= k < 16 implies #[trigger] matrix_at(d, q)[k] == m[k] by {
        assert(e.subrange(4 * k, 4 * k + 4) == enc_u32(m[k]));
        assert(d.subrange(q + 4 * k, q + 4 * k + 4) =~= e.subrange(4 * k, 4 * k + 4)) by {
            assert forall|j: int| 0 <= j < 4 implies #[trigger] d.subrange(q + 4 * k, q + 4 * k + 4)[j] == e.subrange(4 * k, 4 * k + 4)[j] by {
                assert(d[q + 4 * k + j] == d.subrange(q, q + 64)[4 * k + j]);
            }
        }
        lemma_u32_at(d, q + 4 * k, m[k]);
    }
    assert(matrix_at(d, q) =~= m);
}

// ---------------------------------------------------------------------------
// Items
// ---------------------------------------------------------------------------

proof fn lemma_reads_i32(d: Seq<u8>, x: i32)
    ensures
        reads_back(d, item_i32(), |v: i32| enc_i32(v), x),
{
    assert forall|q: int| 0 <= q && q + 4 <= d.len() && d.subrange(q, q + 4) == enc_i32(x) implies #[trigger] item_i32()(d, q)
        == Ok::<(i32, int), SpecBinaryError>((x, q + 4)) by {
        law_i32_round_trip(d, q, x);
    }
}

proof fn lemma_reads_u32(d: Seq<u8>, x: u32)
    ensures
        reads_back(d, item_u32(), |v: u32| enc_u32(v), x),
{
    assert forall|q: int| 0 <= q && q + 4 <= d.len() && d.subrange(q, q + 4) == enc_u32(x) implies #[trigger] item_u32()(d, q)
        == Ok::<(u32, int), SpecBinaryError>((x, q + 4)) by {
        law_u32_round_trip(d, q, x);
    }
}

proof fn lemma_reads_u64(d: Seq<u8>, x: u64)
    ensures
        reads_back(d, item_u64(), |v: u64| enc_u64(v), x),
{
    assert forall|q: int| 0 <= q && q + 8 <= d.len() && d.subrange(q, q + 8) == enc_u64(x) implies #[trigger] item_u64()(d, q)
        == Ok::<(u64, int), SpecBinaryError>((x, q + 8)) by {
        law_u64_round_trip(d, q, x);
    }
}

proof fn lemma_reads_bool(d: Seq<u8>, x: bool)
    ensures
        reads_back(d, item_bool(), |v: bool| seq![if v { 1u8 } else { 0u8 }], x),
{
    assert forall|q: int| 0 <= q && q + 1 <= d.len() && d.subrange(q, q + 1) == seq![if x { 1u8 } else { 0u8 }] implies #[trigger] item_bool()(d, q)
        == Ok::<(bool, int), SpecBinaryError>((x, q + 1)) by {
        assert(d[q] == d.subrange(q, q + 1)[0]);
    }
}

proof fn lemma_reads_time(d: Seq<u8>, x: Time)
    ensures
        reads_back(d, item_time(), |v: Time| enc_i32(v.0), x),
{
    assert forall|q: int| 0 <= q && q + 4 <= d.len() && d.subrange(q, q + 4) == enc_i32(x.0) implies #[trigger] item_time()(d, q)
        == Ok::<(Time, int), SpecBinaryError>((x, q + 4)) by {
        law_i32_round_trip(d, q, x.0);
    }
}

proof fn lemma_reads_color(d: Seq<u8>, x: Color)
    ensures
        reads_back(d, item_color(), |v: Color| enc_color(v), x),
{
    assert forall|q: int| 0 <= q && q + 4 <= d.len() && d.subrange(q, q + 4) == enc_color(x) implies #[trigger] item_color()(d, q)
        == Ok::<(Color, int), SpecBinaryError>((x, q + 4)) by {
        let w = d.subrange(q, q + 4);
        assert(d[q] == w[0] && d[q + 1] == w[1] && d[q + 2] == w[2] && d[q + 3] == w[3]);
    }
}

proof fn lemma_reads_uuid(d: Seq<u8>, x: Seq<u8>)
    requires
        x.len() == 16,
    ensures
        reads_back(d, item_uuid(), |v: Seq<u8>| enc_uuid(v), x),
{
    assert forall|q: int| 0 <= q && q + enc_uuid(x).len() <= d.len() && d.subrange(q, q + enc_uuid(x).len()) == enc_uuid(x) implies #[trigger] item_uuid()(d, q)
        == Ok::<(Seq<u8>, int), SpecBinaryError>((x, q + enc_uuid(x).len())) by {
        law_uuid_round_trip(d, q, x);
    }
}

/// Four `u32` values written one after the other read back.
proof fn lemma_four(d: Seq<u8>, q: int, a: u32, b: u32, c: u32, e: u32)
    requires
        0 <= q,
        q + 16 <= d.len(),
        d.subrange(q, q + 16) == enc_u32(a) + enc_u32(b) + enc_u32(c) + enc_u32(e),
    ensures
        u32_at(d, q) == a,
        u32_at(d, q + 4) == b,
        u32_at(d, q + 8) == c,
        u32_at(d, q + 12) == e,
{
    lemma_split(d, q, enc_u32(a) + enc_u32(b) + enc_u32(c), enc_u32(e));
    lemma_split(d, q, enc_u32(a) + enc_u32(b), enc_u32(c));
    lemma_split(d, q, enc_u32(a), enc_u32(b));
    lemma_u32_at(d, q, a);
    lemma_u32_at(d, q + 4, b);
    lemma_u32_at(d, q + 8, c);
    lemma_u32_at(d, q + 12, e);
}

/// Three `u32` values written one after the other read back.
proof fn lemma_three(d: Seq<u8>, q: int, a: u32, b: u32, c: u32)
    requires
        0 <= q,
        q + 12 <= d.len(),
        d.subrange(q, q + 12) == enc_u32(a) + enc_u32(b) + enc_u32(c),
    ensures
        u32_at(d, q) == a,
        u32_at(d, q + 4) == b,
        u32_at(d, q + 8) == c,
{
    lemma_split(d, q, enc_u32(a) + enc_u32(b), enc_u32(c));
    lemma_split(d, q, enc_u32(a), enc_u32(b));
    lemma_u32_at(d, q, a);
    lemma_u32_at(d, q + 4, b);
    lemma_u32_at(d, q + 8, c);
}

/// Two `u32` values written one after the other read back.
proof fn lemma_two(d: Seq<u8>, q: int, a: u32, b: u32)
    requires
        0 <= q,
        q + 8 <= d.len(),
        d.subrange(q, q + 8) == enc_u32(a) + enc_u32(b),
    ensures
        u32_at(d, q) == a,
        u32_at(d, q + 4) == b,
{
    lemma_split(d, q, enc_u32(a), enc_u32(b));
    lemma_u32_at(d, q, a);
    lemma_u32_at(d, q + 4, b);
}

proof fn lemma_reads_vector2(d: Seq<u8>, x: Vector2)
    ensures
        reads_back(d, item_vector2(), |v: Vector2| enc_u32(v.x) + enc_u32(v.y), x),
{
    assert forall|q: int| 0 <= q && q + 8 <= d.len() && d.subrange(q, q + 8) == enc_u32(x.x) + enc_u32(x.y) implies #[trigger] item_vector2()(d, q)
        == Ok::<(Vector2, int), SpecBinaryError>((x, q + 8)) by {
        lemma_two(d, q, x.x, x.y);
    }
}

proof fn lemma_reads_vector3(d: Seq<u8>, x: Vector3)
    ensures
        reads_back(d, item_vector3(), |v: Vector3| enc_u32(v.x) + enc_u32(v.y) + enc_u32(v.z), x),
{
    assert forall|q: int| 0 <= q && q + 12 <= d.len() && d.subrange(q, q + 12) == enc_u32(x.x) + enc_u32(x.y) + enc_u32(x.z) implies #[trigger] item_vector3()(d, q)
        == Ok::<(Vector3, int), SpecBinaryError>((x, q + 12)) by {
        lemma_three(d, q, x.x, x.y, x.z);
    }
}

proof fn lemma_reads_vector4(d: Seq<u8>, x: Vector4)
    ensures
        reads_back(d, item_vector4(), |v: Vector4| enc_u32(v.x) + enc_u32(v.y) + enc_u32(v.z) + enc_u32(v.w), x),
{
    assert forall|q: int| 0 <= q && q + 16 <= d.len() && d.subrange(q, q + 16) == enc_u32(x.x) + enc_u32(x.y) + enc_u32(x.z) + enc_u32(x.w) implies #[trigger] item_vector4()(d, q)
        == Ok::<(Vector4, int), SpecBinaryError>((x, q + 16)) by {
        lemma_four(d, q, x.x, x.y, x.z, x.w);
    }
}

proof fn lemma_reads_angle(d: Seq<u8>, x: Angle)
    ensures
        reads_back(d, item_angle(), |v: Angle| enc_u32(v.pitch) + enc_u32(v.yaw) + enc_u32(v.roll), x),
{
    assert forall|q: int| 0 <= q && q + 12 <= d.len() && d.subrange(q, q + 12) == enc_u32(x.pitch) + enc_u32(x.yaw) + enc_u32(x.roll) implies #[trigger] item_angle()(d, q)
        == Ok::<(Angle, int), SpecBinaryError>((x, q + 12)) by {
        lemma_three(d, q, x.pitch, x.yaw, x.roll);
    }
}

proof fn lemma_reads_quaternion(d: Seq<u8>, x: Quaternion)
    ensures
        reads_back(d, item_quaternion(), |v: Quaternion| enc_u32(v.x) + enc_u32(v.y) + enc_u32(v.z) + enc_u32(v.w), x),
{
    assert forall|q: int| 0 <= q && q + 16 <= d.len() && d.subrange(q, q + 16) == enc_u32(x.x) + enc_u32(x.y) + enc_u32(x.z) + enc_u32(x.w) implies #[trigger] item_quaternion()(d, q)
        == Ok::<(Quaternion, int), SpecBinaryError>((x, q + 16)) by {
        lemma_four(d, q, x.x, x.y, x.z, x.w);
    }
}

proof fn lemma_reads_matrix(d: Seq<u8>, x: Seq<u32>)
    requires
        x.len() == 16,
    ensures
        reads_back(d, item_matrix(), |m: Seq<u32>| enc_items(m, |v: u32| enc_u32(v)), x),
{
    lemma_u32_items(x);
    assert forall|q: int| 0 <= q && q + 64 <= d.len() && d.subrange(q, q + 64) == enc_items(x, |v: u32| enc_u32(v)) implies #[trigger] item_matrix()(d, q)
        == Ok::<(Seq<u32>, int), SpecBinaryError>((x, q + 64)) by {
        lemma_matrix_at(d, q, x);
    }
}

/// A block of binary data written reads back.
proof fn lemma_block(d: Seq<u8>, q: int, bb: Seq<u8>, b: Seq<u8>, name: Seq<char>, pos: int)
    requires
        bb.len() < MAX_ARRAY_SIZE,
        enc_block(bb, name, pos) == Ok::<Seq<u8>, SpecBinaryError>(b),
        0 <= q,
        q + b.len() <= d.len(),
        d.subrange(q, q + b.len()) == b,
    ensures
        p_block(d, q) == Ok::<(Seq<u8>, int), SpecBinaryError>((bb, q + b.len())),
{
    let n = enc_i32(wrap_i32(bb.len() as int));
    lemma_split(d, q, n, bb);
    assert(wrap_i32(bb.len() as int) == bb.len());
    law_i32_round_trip(d, q, wrap_i32(bb.len() as int));
}

/// Blocks of binary data written one after the other read back.
proof fn lemma_blocks(d: Seq<u8>, q: int, bs: Seq<Seq<u8>>, b: Seq<u8>, name: Seq<char>, pos: int)
    requires
        forall|i: int| 0 <= i < bs.len() ==> (#[trigger] bs[i]).len() < MAX_ARRAY_SIZE,
        enc_blocks(bs, name, pos) == Ok::<Seq<u8>, SpecBinaryError>(b),
        0 <= q,
        q + b.len() <= d.len(),
        d.subrange(q, q + b.len()) == b,
    ensures
        p_many(d, q, bs.len(), item_block()) == Ok::<(Seq<Seq<u8>>, int), SpecBinaryError>((bs, q + b.len())),
    decreases bs.len(),
{
    if bs.len() == 0 {
        assert(bs =~= Seq::<Seq<u8>>::empty());
    } else {
        let ys = bs.drop_last();
        let a = enc_blocks(ys, name, pos)->Ok_0;
        let c = enc_block(bs.last(), name, pos)->Ok_0;
        assert(b == a + c);
        lemma_split(d, q, a, c);
        assert forall|i: int| 0 <= i < ys.len() implies (#[trigger] ys[i]).len() < MAX_ARRAY_SIZE by {
            assert(ys[i] == bs[i]);
        }
        lemma_blocks(d, q, ys, a, name, pos);
        assert(bs.last() == bs[bs.len() - 1]);
        lemma_block(d, q + a.len(), bs.last(), c, name, pos);
        assert(ys.push(bs.last()) =~= bs);
        assert(((bs.len() - 1) as nat) == ys.len());
    }
}

/// An array written reads back: its type id, its size and its items.
pub proof fn lemma_array_items<T>(
    d: Seq<u8>,
    p: int,
    version: i32,
    ty: i8,
    xs: Seq<T>,
    f: spec_fn(T) -> Seq<u8>,
    item: spec_fn(Seq<u8>, int) -> SRead<T>,
    b: Seq<u8>,
)
    requires
        1 <= ty <= 16,
        xs.len() < MAX_ARRAY_SIZE,
        b == enc_i8(array_id(version, ty)) + enc_i32(wrap_i32(xs.len() as int)) + enc_items(xs, f),
        0 <= p,
        p + b.len() <= d.len(),
        d.subrange(p, p + b.len()) == b,
        forall|i: int| 0 <= i < xs.len() ==> reads_back(d, item, f, #[trigger] xs[i]),
    ensures
        p_i8(d, p) == Ok::<(i8, int), SpecBinaryError>((array_id(version, ty), p + 1)),
        p_size(d, p + 1) == Ok::<(int, int), SpecBinaryError>((xs.len() as int, p + 5)),
        p_many(d, p + 5, xs.len(), item) == Ok::<(Seq<T>, int), SpecBinaryError>((xs, p + b.len())),
{
    let t = enc_i8(array_id(version, ty));
    let n = enc_i32(wrap_i32(xs.len() as int));
    let items = enc_items(xs, f);
    lemma_split(d, p, t + n, items);
    lemma_split(d, p, t, n);
    lemma_type_id(d, p, array_id(version, ty));
    assert(wrap_i32(xs.len() as int) == xs.len());
    law_i32_round_trip(d, p + 1, wrap_i32(xs.len() as int));
    lemma_many(d, p + 5, xs, f, item);
}

/// A value that the binary writer stores without the element and string
/// tables, whose ids have sixteen bytes and matrices sixteen entries, and
/// whose arrays and blocks are shorter than 2^31.
pub open spec fn stands_alone(v: SpecAttributeValue) -> bool {
    match v {
        SpecAttributeValue::Element(_) | SpecAttributeValue::ElementArray(_) | SpecAttributeValue::String(_)
        | SpecAttributeValue::StringArray(_) => false,
        SpecAttributeValue::Binary(b) => b.len() < MAX_ARRAY_SIZE,
        SpecAttributeValue::ObjectId(id) => id.len() == 16,
        SpecAttributeValue::Matrix(m) => m.len() == 16,
        SpecAttributeValue::IntegerArray(xs) => xs.len() < MAX_ARRAY_SIZE,
        SpecAttributeValue::FloatArray(xs) => xs.len() < MAX_ARRAY_SIZE,
        SpecAttributeValue::BooleanArray(xs) => xs.len() < MAX_ARRAY_SIZE,
        SpecAttributeValue::BinaryArray(xs) => xs.len() < MAX_ARRAY_SIZE && forall|i: int| 0 <= i < xs.len() ==> (#[trigger] xs[i]).len() < MAX_ARRAY_SIZE,
        SpecAttributeValue::ObjectIdArray(xs) => xs.len() < MAX_ARRAY_SIZE && forall|i: int| 0 <= i < xs.len() ==> (#[trigger] xs[i]).len() == 16,
        SpecAttributeValue::TimeArray(xs) => xs.len() < MAX_ARRAY_SIZE,
        SpecAttributeValue::ColorArray(xs) => xs.len() < MAX_ARRAY_SIZE,
        SpecAttributeValue::Vector2Array(xs) => xs.len() < MAX_ARRAY_SIZE,
        SpecAttributeValue::Vector3Array(xs) => xs.len() < MAX_ARRAY_SIZE,
        SpecAttributeValue::Vector4Array(xs) => xs.len() < MAX_ARRAY_SIZE,
        SpecAttributeValue::AngleArray(xs) => xs.len() < MAX_ARRAY_SIZE,
        SpecAttributeValue::QuaternionArray(xs) => xs.len() < MAX_ARRAY_SIZE,
        SpecAttributeValue::MatrixArray(xs) => xs.len() < MAX_ARRAY_SIZE && forall|i: int| 0 <= i < xs.len() ==> (#[trigger] xs[i]).len() == 16,
        SpecAttributeValue::ULongArray(xs) => xs.len() < MAX_ARRAY_SIZE,
        SpecAttributeValue::UByteArray(xs) => xs.len() < MAX_ARRAY_SIZE,
        _ => true,
    }
}

proof fn lemma_round_trip_integer_array(
    g: Seq<ElementView>,
    c: Seq<usize>,
    version: i32,
    table: Seq<Seq<char>>,
    name: Seq<char>,
    pos: int,
    v: SpecAttributeValue,
    b: Seq<u8>,
    d: Seq<u8>,
    p: int,
)
    requires
        1 <= version <= BINARY_VERSION,
        stands_alone(v),
        enc_value(g, c, version, table, name, pos, v) == Ok::<Seq<u8>, SpecBinaryError>(b),
        0 <= p,
        p + b.len() <= d.len(),
        d.subrange(p, p + b.len()) == b,
        v is IntegerArray,
    ensures
        p_i8(d, p) matches Ok((ty, q)) && q == p + 1 && p_attribute(d, q, version, ty)
            == Ok::<(SpecAttributeValue, int), SpecBinaryError>((v, p + b.len())),
{
    reveal(enc_value);
    reveal(p_attribute);
    let xs = v->IntegerArray_0;
    let f = |x: i32| enc_i32(x);
    assert forall|i: int| 0 <= i < xs.len() implies reads_back(d, item_i32(), f, #[trigger] xs[i]) by {
        lemma_reads_i32(d, xs[i]);
    }
    lemma_array_items(d, p, version, ATTRIBUTE_INTEGER_ID, xs, f, item_i32(), b);
}

proof fn lemma_round_trip_float_array(
    g: Seq<ElementView>,
    c: Seq<usize>,
    version: i32,
    table: Seq<Seq<char>>,
    name: Seq<char>,
    pos: int,
    v: SpecAttributeValue,
    b: Seq<u8>,
    d: Seq<u8>,
    p: int,
)
    requires
        1 <= version <= BINARY_VERSION,
        stands_alone(v),
        enc_value(g, c, version, table, name, pos, v) == Ok::<Seq<u8>, SpecBinaryError>(b),
        0 <= p,
        p + b.len() <= d.len(),
        d.subrange(p, p + b.len()) == b,
        v is FloatArray,
    ensures
        p_i8(d, p) matches Ok((ty, q)) && q == p + 1 && p_attribute(d, q, version, ty)
            == Ok::<(SpecAttributeValue, int), SpecBinaryError>((v, p + b.len())),
{
    reveal(enc_value);
    reveal(p_attribute);
    let xs = v->FloatArray_0;
    let f = |x: u32| enc_u32(x);
    assert forall|i: int| 0 <= i < xs.len() implies reads_back(d, item_u32(), f, #[trigger] xs[i]) by {
        lemma_reads_u32(d, xs[i]);
    }
    lemma_array_items(d, p, version, ATTRIBUTE_FLOAT_ID, xs, f, item_u32(), b);
}

proof fn lemma_round_trip_boolean_array(
    g: Seq<ElementView>,
    c: Seq<usize>,
    version: i32,
    table: Seq<Seq<char>>,
    name: Seq<char>,
    pos: int,
    v: SpecAttributeValue,
    b: Seq<u8>,
    d: Seq<u8>,
    p: int,
)
    requires
        1 <= version <= BINARY_VERSION,
        stands_alone(v),
        enc_value(g, c, version, table, name, pos, v) == Ok::<Seq<u8>, SpecBinaryError>(b),
        0 <= p,
        p + b.len() <= d.len(),
        d.subrange(p, p + b.len()) == b,
        v is BooleanArray,
    ensures
        p_i8(d, p) matches Ok((ty, q)) && q == p + 1 && p_attribute(d, q, version, ty)
            == Ok::<(SpecAttributeValue, int), SpecBinaryError>((v, p + b.len())),
{
    reveal(enc_value);
    reveal(p_attribute);
    let xs = v->BooleanArray_0;
    let f = |x: bool| seq![if x { 1u8 } else { 0u8 }];
    assert forall|i: int| 0 <= i < xs.len() implies reads_back(d, item_bool(), f, #[trigger] xs[i]) by {
        lemma_reads_bool(d, xs[i]);
    }
    lemma_array_items(d, p, version, ATTRIBUTE_BOOLEAN_ID, xs, f, item_bool(), b);
}

proof fn lemma_round_trip_object_id_array(
    g: Seq<ElementView>,
    c: Seq<usize>,
    version: i32,
    table: Seq<Seq<char>>,
    name: Seq<char>,
    pos: int,
    v: SpecAttributeValue,
    b: Seq<u8>,
    d: Seq<u8>,
    p: int,
)
    requires
        1 <= version <= BINARY_VERSION,
        stands_alone(v),
        enc_value(g, c, version, table, name, pos, v) == Ok::<Seq<u8>, SpecBinaryError>(b),
        0 <= p,
        p + b.len() <= d.len(),
        d.subrange(p, p + b.len()) == b,
        v is ObjectIdArray,
    ensures
        p_i8(d, p) matches Ok((ty, q)) && q == p + 1 && p_attribute(d, q, version, ty)
            == Ok::<(SpecAttributeValue, int), SpecBinaryError>((v, p + b.len())),
{
    reveal(enc_value);
    reveal(p_attribute);
    let xs = v->ObjectIdArray_0;
    let f = |x: Seq<u8>| enc_uuid(x);
    assert forall|i: int| 0 <= i < xs.len() implies reads_back(d, item_uuid(), f, #[trigger] xs[i]) by {
        lemma_reads_uuid(d, xs[i]);
    }
    lemma_array_items(d, p, version, ATTRIBUTE_OBJECTID_ID, xs, f, item_uuid(), b);
}

proof fn lemma_round_trip_time_array(
    g: Seq<ElementView>,
    c: Seq<usize>,
    version: i32,
    table: Seq<Seq<char>>,
    name: Seq<char>,
    pos: int,
    v: SpecAttributeValue,
    b: Seq<u8>,
    d: Seq<u8>,
    p: int,
)
    requires
        1 <= version <= BINARY_VERSION,
        stands_alone(v),
        enc_value(g, c, version, table, name, pos, v) == Ok::<Seq<u8>, SpecBinaryError>(b),
        0 <= p,
        p + b.len() <= d.len(),
        d.subrange(p, p + b.len()) == b,
        v is TimeArray,
    ensures
        p_i8(d, p) matches Ok((ty, q)) && q == p + 1 && p_attribute(d, q, version, ty)
            == Ok::<(SpecAttributeValue, int), SpecBinaryError>((v, p + b.len())),
{
    reveal(enc_value);
    reveal(p_attribute);
    let xs = v->TimeArray_0;
    let f = |x: crate::attribute::Time| enc_i32(x.0);
    assert forall|i: int| 0 <= i < xs.len() implies reads_back(d, item_time(), f, #[trigger] xs[i]) by {
        lemma_reads_time(d, xs[i]);
    }
    lemma_array_items(d, p, version, ATTRIBUTE_TIME_ID, xs, f, item_time(), b);
}

proof fn lemma_round_trip_color_array(
    g: Seq<ElementView>,
    c: Seq<usize>,
    version: i32,
    table: Seq<Seq<char>>,
    name: Seq<char>,
    pos: int,
    v: SpecAttributeValue,
    b: Seq<u8>,
    d: Seq<u8>,
    p: int,
)
    requires
        1 <= version <= BINARY_VERSION,
        stands_alone(v),
        enc_value(g, c, version, table, name, pos, v) == Ok::<Seq<u8>, SpecBinaryError>(b),
        0 <= p,
        p + b.len() <= d.len(),
        d.subrange(p, p + b.len()) == b,
        v is ColorArray,
    ensures
        p_i8(d, p) matches Ok((ty, q)) && q == p + 1 && p_attribute(d, q, version, ty)
            == Ok::<(SpecAttributeValue, int), SpecBinaryError>((v, p + b.len())),
{
    reveal(enc_value);
    reveal(p_attribute);
    let xs = v->ColorArray_0;
    let f = |x: Color| enc_color(x);
    assert forall|i: int| 0 <= i < xs.len() implies reads_back(d, item_color(), f, #[trigger] xs[i]) by {
        lemma_reads_color(d, xs[i]);
    }
    lemma_array_items(d, p, version, ATTRIBUTE_COLOR_ID, xs, f, item_color(), b);
}

proof fn lemma_round_trip_vector2_array(
    g: Seq<ElementView>,
    c: Seq<usize>,
    version: i32,
    table: Seq<Seq<char>>,
    name: Seq<char>,
    pos: int,
    v: SpecAttributeValue,
    b: Seq<u8>,
    d: Seq<u8>,
    p: int,
)
    requires
        1 <= version <= BINARY_VERSION,
        stands_alone(v),
        enc_value(g, c, version, table, name, pos, v) == Ok::<Seq<u8>, SpecBinaryError>(b),
        0 <= p,
        p + b.len() <= d.len(),
        d.subrange(p, p + b.len()) == b,
        v is Vector2Array,
    ensures
        p_i8(d, p) matches Ok((ty, q)) && q == p + 1 && p_attribute(d, q, version, ty)
            == Ok::<(SpecAttributeValue, int), SpecBinaryError>((v, p + b.len())),
{
    reveal(enc_value);
    reveal(p_attribute);
    let xs = v->Vector2Array_0;
    let f = |x: crate::attribute::Vector2| enc_u32(x.x) + enc_u32(x.y);
    assert forall|i: int| 0 <= i < xs.len() implies reads_back(d, item_vector2(), f, #[trigger] xs[i]) by {
        lemma_reads_vector2(d, xs[i]);
    }
    lemma_array_items(d, p, version, ATTRIBUTE_VECTOR2_ID, xs, f, item_vector2(), b);
}

proof fn lemma_round_trip_vector3_array(
    g: Seq<ElementView>,
    c: Seq<usize>,
    version: i32,
    table: Seq<Seq<char>>,
    name: Seq<char>,
    pos: int,
    v: SpecAttributeValue,
    b: Seq<u8>,
    d: Seq<u8>,
    p: int,
)
    requires
        1 <= version <= BINARY_VERSION,
        stands_alone(v),
        enc_value(g, c, version, table, name, pos, v) == Ok::<Seq<u8>, SpecBinaryError>(b),
        0 <= p,
        p + b.len() <= d.len(),
        d.subrange(p, p + b.len()) == b,
        v is Vector3Array,
    ensures
        p_i8(d, p) matches Ok((ty, q)) && q == p + 1 && p_attribute(d, q, version, ty)
            == Ok::<(SpecAttributeValue, int), SpecBinaryError>((v, p + b.len())),
{
    reveal(enc_value);
    reveal(p_attribute);
    let xs = v->Vector3Array_0;
    let f = |x: crate::attribute::Vector3| enc_u32(x.x) + enc_u32(x.y) + enc_u32(x.z);
    assert forall|i: int| 0 <= i < xs.len() implies reads_back(d, item_vector3(), f, #[trigger] xs[i]) by {
        lemma_reads_vector3(d, xs[i]);
    }
    lemma_array_items(d, p, version, ATTRIBUTE_VECTOR3_ID, xs, f, item_vector3(), b);
}

proof fn lemma_round_trip_vector4_array(
    g: Seq<ElementView>,
    c: Seq<usize>,
    version: i32,
    table: Seq<Seq<char>>,
    name: Seq<char>,
    pos: int,
    v: SpecAttributeValue,
    b: Seq<u8>,
    d: Seq<u8>,
    p: int,
)
    requires
        1 <= version <= BINARY_VERSION,
        stands_alone(v),
        enc_value(g, c, version, table, name, pos, v) == Ok::<Seq<u8>, SpecBinaryError>(b),
        0 <= p,
        p + b.len() <= d.len(),
        d.subrange(p, p + b.len()) == b,
        v is Vector4Array,
    ensures
        p_i8(d, p) matches Ok((ty, q)) && q == p + 1 && p_attribute(d, q, version, ty)
            == Ok::<(SpecAttributeValue, int), SpecBinaryError>((v, p + b.len())),
{
    reveal(enc_value);
    reveal(p_attribute);
    let xs = v->Vector4Array_0;
    let f = |x: crate::attribute::Vector4| enc_u32(x.x) + enc_u32(x.y) + enc_u32(x.z) + enc_u32(x.w);
    assert forall|i: int| 0 <= i < xs.len() implies reads_back(d, item_vector4(), f, #[trigger] xs[i]) by {
        lemma_reads_vector4(d, xs[i]);
    }
    lemma_array_items(d, p, version, ATTRIBUTE_VECTOR4_ID, xs, f, item_vector4(), b);
}

proof fn lemma_round_trip_angle_array(
    g: Seq<ElementView>,
    c: Seq<usize>,
    version: i32,
    table: Seq<Seq<char>>,
    name: Seq<char>,
    pos: int,
    v: SpecAttributeValue,
    b: Seq<u8>,
    d: Seq<u8>,
    p: int,
)
    requires
        1 <= version <= BINARY_VERSION,
        stands_alone(v),
        enc_value(g, c, version, table, name, pos, v) == Ok::<Seq<u8>, SpecBinaryError>(b),
        0 <= p,
        p + b.len() <= d.len(),
        d.subrange(p, p + b.len()) == b,
        v is AngleArray,
    ensures
        p_i8(d, p) matches Ok((ty, q)) && q == p + 1 && p_attribute(d, q, version, ty)
            == Ok::<(SpecAttributeValue, int), SpecBinaryError>((v, p + b.len())),
{
    reveal(enc_value);
    reveal(p_attribute);
    let xs = v->AngleArray_0;
    let f = |x: crate::attribute::Angle| enc_u32(x.pitch) + enc_u32(x.yaw) + enc_u32(x.roll);
    assert forall|i: int| 0 <= i < xs.len() implies reads_back(d, item_angle(), f, #[trigger] xs[i]) by {
        lemma_reads_angle(d, xs[i]);
    }
    lemma_array_items(d, p, version, ATTRIBUTE_ANGLE_ID, xs, f, item_angle(), b);
}

proof fn lemma_round_trip_quaternion_array(
    g: Seq<ElementView>,
    c: Seq<usize>,
    version: i32,
    table: Seq<Seq<char>>,
    name: Seq<char>,
    pos: int,
    v: SpecAttributeValue,
    b: Seq<u8>,
    d: Seq<u8>,
    p: int,
)
    requires
        1 <= version <= BINARY_VERSION,
        stands_alone(v),
        enc_value(g, c, version, table, name, pos, v) == Ok::<Seq<u8>, SpecBinaryError>(b),
        0 <= p,
        p + b.len() <= d.len(),
        d.subrange(p, p + b.len()) == b,
        v is QuaternionArray,
    ensures
        p_i8(d, p) matches Ok((ty, q)) && q == p + 1 && p_attribute(d, q, version, ty)
            == Ok::<(SpecAttributeValue, int), SpecBinaryError>((v, p + b.len())),
{
    reveal(enc_value);
    reveal(p_attribute);
    let xs = v->QuaternionArray_0;
    let f = |x: crate::attribute::Quaternion| enc_u32(x.x) + enc_u32(x.y) + enc_u32(x.z) + enc_u32(x.w);
    assert forall|i: int| 0 <= i < xs.len() implies reads_back(d, item_quaternion(), f, #[trigger] xs[i]) by {
        lemma_reads_quaternion(d, xs[i]);
    }
    lemma_array_items(d, p, version, ATTRIBUTE_QUATERNION_ID, xs, f, item_quaternion(), b);
}

proof fn lemma_round_trip_matrix_array(
    g: Seq<ElementView>,
    c: Seq<usize>,
    version: i32,
    table: Seq<Seq<char>>,
    name: Seq<char>,
    pos: int,
    v: SpecAttributeValue,
    b: Seq<u8>,
    d: Seq<u8>,
    p: int,
)
    requires
        1 <= version <= BINARY_VERSION,
        stands_alone(v),
        enc_value(g, c, version, table, name, pos, v) == Ok::<Seq<u8>, SpecBinaryError>(b),
        0 <= p,
        p + b.len() <= d.len(),
        d.subrange(p, p + b.len()) == b,
        v is MatrixArray,
    ensures
        p_i8(d, p) matches Ok((ty, q)) && q == p + 1 && p_attribute(d, q, version, ty)
            == Ok::<(SpecAttributeValue, int), SpecBinaryError>((v, p + b.len())),
{
    reveal(enc_value);
    reveal(p_attribute);
    let xs = v->MatrixArray_0;
    let f = |m: Seq<u32>| enc_items(m, |x: u32| enc_u32(x));
    assert forall|i: int| 0 <= i < xs.len() implies reads_back(d, item_matrix(), f, #[trigger] xs[i]) by {
        lemma_reads_matrix(d, xs[i]);
    }
    lemma_array_items(d, p, version, ATTRIBUTE_MATRIX_ID, xs, f, item_matrix(), b);
}

proof fn lemma_round_trip_u_long_array(
    g: Seq<ElementView>,
    c: Seq<usize>,
    version: i32,
    table: Seq<Seq<char>>,
    name: Seq<char>,
    pos: int,
    v: SpecAttributeValue,
    b: Seq<u8>,
    d: Seq<u8>,
    p: int,
)
    requires
        1 <= version <= BINARY_VERSION,
        stands_alone(v),
        enc_value(g, c, version, table, name, pos, v) == Ok::<Seq<u8>, SpecBinaryError>(b),
        0 <= p,
        p + b.len() <= d.len(),
        d.subrange(p, p + b.len()) == b,
        v is ULongArray,
    ensures
        p_i8(d, p) matches Ok((ty, q)) && q == p + 1 && p_attribute(d, q, version, ty)
            == Ok::<(SpecAttributeValue, int), SpecBinaryError>((v, p + b.len())),
{
    reveal(enc_value);
    reveal(p_attribute);
    let xs = v->ULongArray_0;
    let f = |x: u64| enc_u64(x);
    assert forall|i: int| 0 <= i < xs.len() implies reads_back(d, item_u64(), f, #[trigger] xs[i]) by {
        lemma_reads_u64(d, xs[i]);
    }
    lemma_array_items(d, p, version, ATTRIBUTE_ULONG_ID, xs, f, item_u64(), b);
}

proof fn lemma_round_trip_binary_array(
    g: Seq<ElementView>,
    c: Seq<usize>,
    version: i32,
    table: Seq<Seq<char>>,
    name: Seq<char>,
    pos: int,
    v: SpecAttributeValue,
    b: Seq<u8>,
    d: Seq<u8>,
    p: int,
)
    requires
        1 <= version <= BINARY_VERSION,
        stands_alone(v),
        enc_value(g, c, version, table, name, pos, v) == Ok::<Seq<u8>, SpecBinaryError>(b),
        0 <= p,
        p + b.len() <= d.len(),
        d.subrange(p, p + b.len()) == b,
        v is BinaryArray,
    ensures
        p_i8(d, p) matches Ok((ty, q)) && q == p + 1 && p_attribute(d, q, version, ty)
            == Ok::<(SpecAttributeValue, int), SpecBinaryError>((v, p + b.len())),
{
    reveal(enc_value);
    reveal(p_attribute);
    let bs = v->BinaryArray_0;
    let x = enc_blocks(bs, name, pos)->Ok_0;
    let t = enc_i8(array_id(version, ATTRIBUTE_BINARY_ID));
    let n = enc_i32(wrap_i32(bs.len() as int));
    lemma_split(d, p, t + n, x);
    lemma_split(d, p, t, n);
    lemma_type_id(d, p, array_id(version, ATTRIBUTE_BINARY_ID));
    assert(wrap_i32(bs.len() as int) == bs.len());
    law_i32_round_trip(d, p + 1, wrap_i32(bs.len() as int));
    lemma_blocks(d, p + 5, bs, x, name, pos);
}

proof fn lemma_round_trip_ubyte_array(
    g: Seq<ElementView>,
    c: Seq<usize>,
    version: i32,
    table: Seq<Seq<char>>,
    name: Seq<char>,
    pos: int,
    v: SpecAttributeValue,
    b: Seq<u8>,
    d: Seq<u8>,
    p: int,
)
    requires
        1 <= version <= BINARY_VERSION,
        stands_alone(v),
        enc_value(g, c, version, table, name, pos, v) == Ok::<Seq<u8>, SpecBinaryError>(b),
        0 <= p,
        p + b.len() <= d.len(),
        d.subrange(p, p + b.len()) == b,
        v is UByteArray,
    ensures
        p_i8(d, p) matches Ok((ty, q)) && q == p + 1 && p_attribute(d, q, version, ty)
            == Ok::<(SpecAttributeValue, int), SpecBinaryError>((v, p + b.len())),
{
    reveal(enc_value);
    reveal(p_attribute);
    let xs = v->UByteArray_0;
    let t = enc_i8(array_id(version, ATTRIBUTE_UBYTE_ID));
    let n = enc_i32(wrap_i32(xs.len() as int));
    lemma_split(d, p, t + n, xs);
    lemma_split(d, p, t, n);
    lemma_type_id(d, p, array_id(version, ATTRIBUTE_UBYTE_ID));
    assert(wrap_i32(xs.len() as int) == xs.len());
    law_i32_round_trip(d, p + 1, wrap_i32(xs.len() as int));
}

/// Whether a value is an array.
pub open spec fn is_array_value(v: SpecAttributeValue) -> bool {
    match v {
        SpecAttributeValue::ElementArray(_) | SpecAttributeValue::IntegerArray(_) | SpecAttributeValue::FloatArray(_)
        | SpecAttributeValue::BooleanArray(_) | SpecAttributeValue::StringArray(_) | SpecAttributeValue::BinaryArray(_)
        | SpecAttributeValue::ObjectIdArray(_) | SpecAttributeValue::TimeArray(_) | SpecAttributeValue::ColorArray(_)
        | SpecAttributeValue::Vector2Array(_) | SpecAttributeValue::Vector3Array(_) | SpecAttributeValue::Vector4Array(_)
        | SpecAttributeValue::AngleArray(_) | SpecAttributeValue::QuaternionArray(_) | SpecAttributeValue::MatrixArray(_)
        | SpecAttributeValue::ULongArray(_) | SpecAttributeValue::UByteArray(_) => true,
        _ => false,
    }
}

/// The writer stores only values that the version supports.
proof fn lemma_enc_supported(g: Seq<ElementView>, c: Seq<usize>, version: i32, table: Seq<Seq<char>>, name: Seq<char>, pos: int, v: SpecAttributeValue)
    ensures
        enc_value(g, c, version, table, name, pos, v) is Ok ==> version_supports(version, v),
{
    reveal(enc_value);
}

/// A single type id reads as a single value.
proof fn lemma_attr_single(d: Seq<u8>, q: int, version: i32, ty: i8)
    requires
        ty <= array_offset(version),
    ensures
        p_attribute(d, q, version, ty) == p_single(d, q, version, ty),
{
    reveal(p_attribute);
}

/// What the writer stores for a value of this type.
proof fn lemma_enc_integer(g: Seq<ElementView>, c: Seq<usize>, version: i32, table: Seq<Seq<char>>, name: Seq<char>, pos: int, x: i32)
    requires
        version_supports(version, SpecAttributeValue::Integer(x)),
    ensures
        enc_value(g, c, version, table, name, pos, SpecAttributeValue::Integer(x)) == Ok::<Seq<u8>, SpecBinaryError>(enc_i8(ATTRIBUTE_INTEGER_ID) + enc_i32(x)),
{
    reveal(enc_value);
}

proof fn lemma_round_trip_integer(
    g: Seq<ElementView>,
    c: Seq<usize>,
    version: i32,
    table: Seq<Seq<char>>,
    name: Seq<char>,
    pos: int,
    v: SpecAttributeValue,
    b: Seq<u8>,
    d: Seq<u8>,
    p: int,
)
    requires
        1 <= version <= BINARY_VERSION,
        stands_alone(v),
        enc_value(g, c, version, table, name, pos, v) == Ok::<Seq<u8>, SpecBinaryError>(b),
        0 <= p,
        p + b.len() <= d.len(),
        d.subrange(p, p + b.len()) == b,
        v is Integer,
    ensures
        p_i8(d, p) matches Ok((ty, q)) && q == p + 1 && p_attribute(d, q, version, ty)
            == Ok::<(SpecAttributeValue, int), SpecBinaryError>((v, p + b.len())),
{
    let x = v->Integer_0;
    let payload = enc_i32(x);
    lemma_enc_integer(g, c, version, table, name, pos, x);
    assert(b =~= enc_i8(ATTRIBUTE_INTEGER_ID) + payload);
    lemma_split(d, p, enc_i8(ATTRIBUTE_INTEGER_ID), payload);
    lemma_type_id(d, p, ATTRIBUTE_INTEGER_ID);
    lemma_attr_single(d, p + 1, version, ATTRIBUTE_INTEGER_ID);
    law_i32_round_trip(d, p + 1, x);
}

/// What the writer stores for a value of this type.
proof fn lemma_enc_float(g: Seq<ElementView>, c: Seq<usize>, version: i32, table: Seq<Seq<char>>, name: Seq<char>, pos: int, x: u32)
    requires
        version_supports(version, SpecAttributeValue::Float(x)),
    ensures
        enc_value(g, c, version, table, name, pos, SpecAttributeValue::Float(x)) == Ok::<Seq<u8>, SpecBinaryError>(enc_i8(ATTRIBUTE_FLOAT_ID) + enc_u32(x)),
{
    reveal(enc_value);
}

proof fn lemma_round_trip_float(
    g: Seq<ElementView>,
    c: Seq<usize>,
    version: i32,
    table: Seq<Seq<char>>,
    name: Seq<char>,
    pos: int,
    v: SpecAttributeValue,
    b: Seq<u8>,
    d: Seq<u8>,
    p: int,
)
    requires
        1 <= version <= BINARY_VERSION,
        stands_alone(v),
        enc_value(g, c, version, table, name, pos, v) == Ok::<Seq<u8>, SpecBinaryError>(b),
        0 <= p,
        p + b.len() <= d.len(),
        d.subrange(p, p + b.len()) == b,
        v is Float,
    ensures
        p_i8(d, p) matches Ok((ty, q)) && q == p + 1 && p_attribute(d, q, version, ty)
            == Ok::<(SpecAttributeValue, int), SpecBinaryError>((v, p + b.len())),
{
    let x = v->Float_0;
    let payload = enc_u32(x);
    lemma_enc_float(g, c, version, table, name, pos, x);
    assert(b =~= enc_i8(ATTRIBUTE_FLOAT_ID) + payload);
    lemma_split(d, p, enc_i8(ATTRIBUTE_FLOAT_ID), payload);
    lemma_type_id(d, p, ATTRIBUTE_FLOAT_ID);
    lemma_attr_single(d, p + 1, version, ATTRIBUTE_FLOAT_ID);
    law_u32_round_trip(d, p + 1, x);
}

/// What the writer stores for a value of this type.
proof fn lemma_enc_boolean(g: Seq<ElementView>, c: Seq<usize>, version: i32, table: Seq<Seq<char>>, name: Seq<char>, pos: int, x: bool)
    requires
        version_supports(version, SpecAttributeValue::Boolean(x)),
    ensures
        enc_value(g, c, version, table, name, pos, SpecAttributeValue::Boolean(x)) == Ok::<Seq<u8>, SpecBinaryError>(enc_i8(ATTRIBUTE_BOOLEAN_ID) + seq![if x { 1u8 } else { 0u8 }]),
{
    reveal(enc_value);
}

proof fn lemma_round_trip_boolean(
    g: Seq<ElementView>,
    c: Seq<usize>,
    version: i32,
    table: Seq<Seq<char>>,
    name: Seq<char>,
    pos: int,
    v: SpecAttributeValue,
    b: Seq<u8>,
    d: Seq<u8>,
    p: int,
)
    requires
        1 <= version <= BINARY_VERSION,
        stands_alone(v),
        enc_value(g, c, version, table, name, pos, v) == Ok::<Seq<u8>, SpecBinaryError>(b),
        0 <= p,
        p + b.len() <= d.len(),
        d.subrange(p, p + b.len()) == b,
        v is Boolean,
    ensures
        p_i8(d, p) matches Ok((ty, q)) && q == p + 1 && p_attribute(d, q, version, ty)
            == Ok::<(SpecAttributeValue, int), SpecBinaryError>((v, p + b.len())),
{
    let x = v->Boolean_0;
    let payload = seq![if x { 1u8 } else { 0u8 }];
    lemma_enc_boolean(g, c, version, table, name, pos, x);
    assert(b =~= enc_i8(ATTRIBUTE_BOOLEAN_ID) + payload);
    lemma_split(d, p, enc_i8(ATTRIBUTE_BOOLEAN_ID), payload);
    lemma_type_id(d, p, ATTRIBUTE_BOOLEAN_ID);
    lemma_attr_single(d, p + 1, version, ATTRIBUTE_BOOLEAN_ID);
    lemma_reads_bool(d, x);
    assert(item_bool()(d, p + 1) == Ok::<(bool, int), SpecBinaryError>((x, p + 2)));
}

/// What the writer stores for a value of this type.
proof fn lemma_enc_object_id(g: Seq<ElementView>, c: Seq<usize>, version: i32, table: Seq<Seq<char>>, name: Seq<char>, pos: int, x: Seq<u8>)
    requires
        version_supports(version, SpecAttributeValue::ObjectId(x)),
    ensures
        enc_value(g, c, version, table, name, pos, SpecAttributeValue::ObjectId(x)) == Ok::<Seq<u8>, SpecBinaryError>(enc_i8(ATTRIBUTE_OBJECTID_ID) + enc_uuid(x)),
{
    reveal(enc_value);
}

proof fn lemma_round_trip_object_id(
    g: Seq<ElementView>,
    c: Seq<usize>,
    version: i32,
    table: Seq<Seq<char>>,
    name: Seq<char>,
    pos: int,
    v: SpecAttributeValue,
    b: Seq<u8>,
    d: Seq<u8>,
    p: int,
)
    requires
        1 <= version <= BINARY_VERSION,
        stands_alone(v),
        enc_value(g, c, version, table, name, pos, v) == Ok::<Seq<u8>, SpecBinaryError>(b),
        0 <= p,
        p + b.len() <= d.len(),
        d.subrange(p, p + b.len()) == b,
        v is ObjectId,
    ensures
        p_i8(d, p) matches Ok((ty, q)) && q == p + 1 && p_attribute(d, q, version, ty)
            == Ok::<(SpecAttributeValue, int), SpecBinaryError>((v, p + b.len())),
{
    let x = v->ObjectId_0;
    let payload = enc_uuid(x);
    lemma_enc_supported(g, c, version, table, name, pos, v);
    lemma_enc_object_id(g, c, version, table, name, pos, x);
    assert(b =~= enc_i8(ATTRIBUTE_OBJECTID_ID) + payload);
    lemma_split(d, p, enc_i8(ATTRIBUTE_OBJECTID_ID), payload);
    lemma_type_id(d, p, ATTRIBUTE_OBJECTID_ID);
    lemma_attr_single(d, p + 1, version, ATTRIBUTE_OBJECTID_ID);
    law_uuid_round_trip(d, p + 1, x);
}

/// What the writer stores for a value of this type.
proof fn lemma_enc_time(g: Seq<ElementView>, c: Seq<usize>, version: i32, table: Seq<Seq<char>>, name: Seq<char>, pos: int, x: Time)
    requires
        version_supports(version, SpecAttributeValue::Time(x)),
    ensures
        enc_value(g, c, version, table, name, pos, SpecAttributeValue::Time(x)) == Ok::<Seq<u8>, SpecBinaryError>(enc_i8(ATTRIBUTE_TIME_ID) + enc_i32(x.0)),
{
    reveal(enc_value);
}

proof fn lemma_round_trip_time(
    g: Seq<ElementView>,
    c: Seq<usize>,
    version: i32,
    table: Seq<Seq<char>>,
    name: Seq<char>,
    pos: int,
    v: SpecAttributeValue,
    b: Seq<u8>,
    d: Seq<u8>,
    p: int,
)
    requires
        1 <= version <= BINARY_VERSION,
        stands_alone(v),
        enc_value(g, c, version, table, name, pos, v) == Ok::<Seq<u8>, SpecBinaryError>(b),
        0 <= p,
        p + b.len() <= d.len(),
        d.subrange(p, p + b.len()) == b,
        v is Time,
    ensures
        p_i8(d, p) matches Ok((ty, q)) && q == p + 1 && p_attribute(d, q, version, ty)
            == Ok::<(SpecAttributeValue, int), SpecBinaryError>((v, p + b.len())),
{
    let x = v->Time_0;
    let payload = enc_i32(x.0);
    lemma_enc_supported(g, c, version, table, name, pos, v);
    lemma_enc_time(g, c, version, table, name, pos, x);
    assert(b =~= enc_i8(ATTRIBUTE_TIME_ID) + payload);
    lemma_split(d, p, enc_i8(ATTRIBUTE_TIME_ID), payload);
    lemma_type_id(d, p, ATTRIBUTE_TIME_ID);
    lemma_attr_single(d, p + 1, version, ATTRIBUTE_TIME_ID);
    law_i32_round_trip(d, p + 1, x.0);
}

/// What the writer stores for a value of this type.
proof fn lemma_enc_color(g: Seq<ElementView>, c: Seq<usize>, version: i32, table: Seq<Seq<char>>, name: Seq<char>, pos: int, x: Color)
    requires
        version_supports(version, SpecAttributeValue::Color(x)),
    ensures
        enc_value(g, c, version, table, name, pos, SpecAttributeValue::Color(x)) == Ok::<Seq<u8>, SpecBinaryError>(enc_i8(ATTRIBUTE_COLOR_ID) + enc_color(x)),
{
    reveal(enc_value);
}

proof fn lemma_round_trip_color(
    g: Seq<ElementView>,
    c: Seq<usize>,
    version: i32,
    table: Seq<Seq<char>>,
    name: Seq<char>,
    pos: int,
    v: SpecAttributeValue,
    b: Seq<u8>,
    d: Seq<u8>,
    p: int,
)
    requires
        1 <= version <= BINARY_VERSION,
        stands_alone(v),
        enc_value(g, c, version, table, name, pos, v) == Ok::<Seq<u8>, SpecBinaryError>(b),
        0 <= p,
        p + b.len() <= d.len(),
        d.subrange(p, p + b.len()) == b,
        v is Color,
    ensures
        p_i8(d, p) matches Ok((ty, q)) && q == p + 1 && p_attribute(d, q, version, ty)
            == Ok::<(SpecAttributeValue, int), SpecBinaryError>((v, p + b.len())),
{
    let x = v->Color_0;
    let payload = enc_color(x);
    lemma_enc_color(g, c, version, table, name, pos, x);
    assert(b =~= enc_i8(ATTRIBUTE_COLOR_ID) + payload);
    lemma_split(d, p, enc_i8(ATTRIBUTE_COLOR_ID), payload);
    lemma_type_id(d, p, ATTRIBUTE_COLOR_ID);
    lemma_attr_single(d, p + 1, version, ATTRIBUTE_COLOR_ID);
    lemma_reads_color(d, x);
    assert(item_color()(d, p + 1) == Ok::<(Color, int), SpecBinaryError>((x, p + 5)));
}

/// What the writer stores for a value of this type.
proof fn lemma_enc_vector2(g: Seq<ElementView>, c: Seq<usize>, version: i32, table: Seq<Seq<char>>, name: Seq<char>, pos: int, x: Vector2)
    requires
        version_supports(version, SpecAttributeValue::Vector2(x)),
    ensures
        enc_value(g, c, version, table, name, pos, SpecAttributeValue::Vector2(x)) == Ok::<Seq<u8>, SpecBinaryError>(enc_i8(ATTRIBUTE_VECTOR2_ID) + enc_u32(x.x) + enc_u32(x.y)),
{
    reveal(enc_value);
}

proof fn lemma_round_trip_vector2(
    g: Seq<ElementView>,
    c: Seq<usize>,
    version: i32,
    table: Seq<Seq<char>>,
    name: Seq<char>,
    pos: int,
    v: SpecAttributeValue,
    b: Seq<u8>,
    d: Seq<u8>,
    p: int,
)
    requires
        1 <= version <= BINARY_VERSION,
        stands_alone(v),
        enc_value(g, c, version, table, name, pos, v) == Ok::<Seq<u8>, SpecBinaryError>(b),
        0 <= p,
        p + b.len() <= d.len(),
        d.subrange(p, p + b.len()) == b,
        v is Vector2,
    ensures
        p_i8(d, p) matches Ok((ty, q)) && q == p + 1 && p_attribute(d, q, version, ty)
            == Ok::<(SpecAttributeValue, int), SpecBinaryError>((v, p + b.len())),
{
    let x = v->Vector2_0;
    let payload = enc_u32(x.x) + enc_u32(x.y);
    lemma_enc_vector2(g, c, version, table, name, pos, x);
    assert(b =~= enc_i8(ATTRIBUTE_VECTOR2_ID) + payload);
    lemma_split(d, p, enc_i8(ATTRIBUTE_VECTOR2_ID), payload);
    lemma_type_id(d, p, ATTRIBUTE_VECTOR2_ID);
    lemma_attr_single(d, p + 1, version, ATTRIBUTE_VECTOR2_ID);
    lemma_reads_vector2(d, x);
    assert(item_vector2()(d, p + 1) == Ok::<(Vector2, int), SpecBinaryError>((x, p + 1 + payload.len())));
}

/// What the writer stores for a value of this type.
proof fn lemma_enc_vector3(g: Seq<ElementView>, c: Seq<usize>, version: i32, table: Seq<Seq<char>>, name: Seq<char>, pos: int, x: Vector3)
    requires
        version_supports(version, SpecAttributeValue::Vector3(x)),
    ensures
        enc_value(g, c, version, table, name, pos, SpecAttributeValue::Vector3(x)) == Ok::<Seq<u8>, SpecBinaryError>(enc_i8(ATTRIBUTE_VECTOR3_ID) + enc_u32(x.x) + enc_u32(x.y) + enc_u32(x.z)),
{
    reveal(enc_value);
}

proof fn lemma_round_trip_vector3(
    g: Seq<ElementView>,
    c: Seq<usize>,
    version: i32,
    table: Seq<Seq<char>>,
    name: Seq<char>,
    pos: int,
    v: SpecAttributeValue,
    b: Seq<u8>,
    d: Seq<u8>,
    p: int,
)
    requires
        1 <= version <= BINARY_VERSION,
        stands_alone(v),
        enc_value(g, c, version, table, name, pos, v) == Ok::<Seq<u8>, SpecBinaryError>(b),
        0 <= p,
        p + b.len() <= d.len(),
        d.subrange(p, p + b.len()) == b,
        v is Vector3,
    ensures
        p_i8(d, p) matches Ok((ty, q)) && q == p + 1 && p_attribute(d, q, version, ty)
            == Ok::<(SpecAttributeValue, int), SpecBinaryError>((v, p + b.len())),
{
    let x = v->Vector3_0;
    let payload = enc_u32(x.x) + enc_u32(x.y) + enc_u32(x.z);
    lemma_enc_vector3(g, c, version, table, name, pos, x);
    assert(b =~= enc_i8(ATTRIBUTE_VECTOR3_ID) + payload);
    lemma_split(d, p, enc_i8(ATTRIBUTE_VECTOR3_ID), payload);
    lemma_type_id(d, p, ATTRIBUTE_VECTOR3_ID);
    lemma_attr_single(d, p + 1, version, ATTRIBUTE_VECTOR3_ID);
    lemma_reads_vector3(d, x);
    assert(item_vector3()(d, p + 1) == Ok::<(Vector3, int), SpecBinaryError>((x, p + 1 + payload.len())));
}

/// What the writer stores for a value of this type.
proof fn lemma_enc_vector4(g: Seq<ElementView>, c: Seq<usize>, version: i32, table: Seq<Seq<char>>, name: Seq<char>, pos: int, x: Vector4)
    requires
        version_supports(version, SpecAttributeValue::Vector4(x)),
    ensures
        enc_value(g, c, version, table, name, pos, SpecAttributeValue::Vector4(x)) == Ok::<Seq<u8>, SpecBinaryError>(enc_i8(ATTRIBUTE_VECTOR4_ID) + enc_u32(x.x) + enc_u32(x.y) + enc_u32(x.z) + enc_u32(x.w)),
{
    reveal(enc_value);
}

proof fn lemma_round_trip_vector4(
    g: Seq<ElementView>,
    c: Seq<usize>,
    version: i32,
    table: Seq<Seq<char>>,
    name: Seq<char>,
    pos: int,
    v: SpecAttributeValue,
    b: Seq<u8>,
    d: Seq<u8>,
    p: int,
)
    requires
        1 <= version <= BINARY_VERSION,
        stands_alone(v),
        enc_value(g, c, version, table, name, pos, v) == Ok::<Seq<u8>, SpecBinaryError>(b),
        0 <= p,
        p + b.len() <= d.len(),
        d.subrange(p, p + b.len()) == b,
        v is Vector4,
    ensures
        p_i8(d, p) matches Ok((ty, q)) && q == p + 1 && p_attribute(d, q, version, ty)
            == Ok::<(SpecAttributeValue, int), SpecBinaryError>((v, p + b.len())),
{
    let x = v->Vector4_0;
    let payload = enc_u32(x.x) + enc_u32(x.y) + enc_u32(x.z) + enc_u32(x.w);
    lemma_enc_vector4(g, c, version, table, name, pos, x);
    assert(b =~= enc_i8(ATTRIBUTE_VECTOR4_ID) + payload);
    lemma_split(d, p, enc_i8(ATTRIBUTE_VECTOR4_ID), payload);
    lemma_type_id(d, p, ATTRIBUTE_VECTOR4_ID);
    lemma_attr_single(d, p + 1, version, ATTRIBUTE_VECTOR4_ID);
    lemma_reads_vector4(d, x);
    assert(item_vector4()(d, p + 1) == Ok::<(Vector4, int), SpecBinaryError>((x, p + 1 + payload.len())));
}

/// What the writer stores for a value of this type.
proof fn lemma_enc_angle(g: Seq<ElementView>, c: Seq<usize>, version: i32, table: Seq<Seq<char>>, name: Seq<char>, pos: int, x: Angle)
    requires
        version_supports(version, SpecAttributeValue::Angle(x)),
    ensures
        enc_value(g, c, version, table, name, pos, SpecAttributeValue::Angle(x)) == Ok::<Seq<u8>, SpecBinaryError>(enc_i8(ATTRIBUTE_ANGLE_ID) + enc_u32(x.pitch) + enc_u32(x.yaw) + enc_u32(x.roll)),
{
    reveal(enc_value);
}

proof fn lemma_round_trip_angle(
    g: Seq<ElementView>,
    c: Seq<usize>,
    version: i32,
    table: Seq<Seq<char>>,
    name: Seq<char>,
    pos: int,
    v: SpecAttributeValue,
    b: Seq<u8>,
    d: Seq<u8>,
    p: int,
)
    requires
        1 <= version <= BINARY_VERSION,
        stands_alone(v),
        enc_value(g, c, version, table, name, pos, v) == Ok::<Seq<u8>, SpecBinaryError>(b),
        0 <= p,
        p + b.len() <= d.len(),
        d.subrange(p, p + b.len()) == b,
        v is Angle,
    ensures
        p_i8(d, p) matches Ok((ty, q)) && q == p + 1 && p_attribute(d, q, version, ty)
            == Ok::<(SpecAttributeValue, int), SpecBinaryError>((v, p + b.len())),
{
    let x = v->Angle_0;
    let payload = enc_u32(x.pitch) + enc_u32(x.yaw) + enc_u32(x.roll);
    lemma_enc_angle(g, c, version, table, name, pos, x);
    assert(b =~= enc_i8(ATTRIBUTE_ANGLE_ID) + payload);
    lemma_split(d, p, enc_i8(ATTRIBUTE_ANGLE_ID), payload);
    lemma_type_id(d, p, ATTRIBUTE_ANGLE_ID);
    lemma_attr_single(d, p + 1, version, ATTRIBUTE_ANGLE_ID);
    lemma_reads_angle(d, x);
    assert(item_angle()(d, p + 1) == Ok::<(Angle, int), SpecBinaryError>((x, p + 1 + payload.len())));
}

/// What the writer stores for a value of this type.
proof fn lemma_enc_quaternion(g: Seq<ElementView>, c: Seq<usize>, version: i32, table: Seq<Seq<char>>, name: Seq<char>, pos: int, x: Quaternion)
    requires
        version_supports(version, SpecAttributeValue::Quaternion(x)),
    ensures
        enc_value(g, c, version, table, name, pos, SpecAttributeValue::Quaternion(x)) == Ok::<Seq<u8>, SpecBinaryError>(enc_i8(ATTRIBUTE_QUATERNION_ID) + enc_u32(x.x) + enc_u32(x.y) + enc_u32(x.z) + enc_u32(x.w)),
{
    reveal(enc_value);
}

proof fn lemma_round_trip_quaternion(
    g: Seq<ElementView>,
    c: Seq<usize>,
    version: i32,
    table: Seq<Seq<char>>,
    name: Seq<char>,
    pos: int,
    v: SpecAttributeValue,
    b: Seq<u8>,
    d: Seq<u8>,
    p: int,
)
    requires
        1 <= version <= BINARY_VERSION,
        stands_alone(v),
        enc_value(g, c, version, table, name, pos, v) == Ok::<Seq<u8>, SpecBinaryError>(b),
        0 <= p,
        p + b.len() <= d.len(),
        d.subrange(p, p + b.len()) == b,
        v is Quaternion,
    ensures
        p_i8(d, p) matches Ok((ty, q)) && q == p + 1 && p_attribute(d, q, version, ty)
            == Ok::<(SpecAttributeValue, int), SpecBinaryError>((v, p + b.len())),
{
    let x = v->Quaternion_0;
    let payload = enc_u32(x.x) + enc_u32(x.y) + enc_u32(x.z) + enc_u32(x.w);
    lemma_enc_quaternion(g, c, version, table, name, pos, x);
    assert(b =~= enc_i8(ATTRIBUTE_QUATERNION_ID) + payload);
    lemma_split(d, p, enc_i8(ATTRIBUTE_QUATERNION_ID), payload);
    lemma_type_id(d, p, ATTRIBUTE_QUATERNION_ID);
    lemma_attr_single(d, p + 1, version, ATTRIBUTE_QUATERNION_ID);
    lemma_reads_quaternion(d, x);
    assert(item_quaternion()(d, p + 1) == Ok::<(Quaternion, int), SpecBinaryError>((x, p + 1 + payload.len())));
}

/// What the writer stores for a value of this type.
proof fn lemma_enc_matrix(g: Seq<ElementView>, c: Seq<usize>, version: i32, table: Seq<Seq<char>>, name: Seq<char>, pos: int, x: Seq<u32>)
    requires
        version_supports(version, SpecAttributeValue::Matrix(x)),
    ensures
        enc_value(g, c, version, table, name, pos, SpecAttributeValue::Matrix(x)) == Ok::<Seq<u8>, SpecBinaryError>(enc_i8(ATTRIBUTE_MATRIX_ID) + enc_items(x, |v: u32| enc_u32(v))),
{
    reveal(enc_value);
}

proof fn lemma_round_trip_matrix(
    g: Seq<ElementView>,
    c: Seq<usize>,
    version: i32,
    table: Seq<Seq<char>>,
    name: Seq<char>,
    pos: int,
    v: SpecAttributeValue,
    b: Seq<u8>,
    d: Seq<u8>,
    p: int,
)
    requires
        1 <= version <= BINARY_VERSION,
        stands_alone(v),
        enc_value(g, c, version, table, name, pos, v) == Ok::<Seq<u8>, SpecBinaryError>(b),
        0 <= p,
        p + b.len() <= d.len(),
        d.subrange(p, p + b.len()) == b,
        v is Matrix,
    ensures
        p_i8(d, p) matches Ok((ty, q)) && q == p + 1 && p_attribute(d, q, version, ty)
            == Ok::<(SpecAttributeValue, int), SpecBinaryError>((v, p + b.len())),
{
    let x = v->Matrix_0;
    let payload = enc_items(x, |v: u32| enc_u32(v));
    lemma_enc_matrix(g, c, version, table, name, pos, x);
    assert(b =~= enc_i8(ATTRIBUTE_MATRIX_ID) + payload);
    lemma_split(d, p, enc_i8(ATTRIBUTE_MATRIX_ID), payload);
    lemma_type_id(d, p, ATTRIBUTE_MATRIX_ID);
    lemma_attr_single(d, p + 1, version, ATTRIBUTE_MATRIX_ID);
    lemma_reads_matrix(d, x);
    lemma_u32_items(x);
    assert(item_matrix()(d, p + 1) == Ok::<(Seq<u32>, int), SpecBinaryError>((x, p + 65)));
}

/// What the writer stores for a value of this type.
proof fn lemma_enc_u_long(g: Seq<ElementView>, c: Seq<usize>, version: i32, table: Seq<Seq<char>>, name: Seq<char>, pos: int, x: u64)
    requires
        version_supports(version, SpecAttributeValue::ULong(x)),
    ensures
        enc_value(g, c, version, table, name, pos, SpecAttributeValue::ULong(x)) == Ok::<Seq<u8>, SpecBinaryError>(enc_i8(ATTRIBUTE_ULONG_ID) + enc_u64(x)),
{
    reveal(enc_value);
}

proof fn lemma_round_trip_u_long(
    g: Seq<ElementView>,
    c: Seq<usize>,
    version: i32,
    table: Seq<Seq<char>>,
    name: Seq<char>,
    pos: int,
    v: SpecAttributeValue,
    b: Seq<u8>,
    d: Seq<u8>,
    p: int,
)
    requires
        1 <= version <= BINARY_VERSION,
        stands_alone(v),
        enc_value(g, c, version, table, name, pos, v) == Ok::<Seq<u8>, SpecBinaryError>(b),
        0 <= p,
        p + b.len() <= d.len(),
        d.subrange(p, p + b.len()) == b,
        v is ULong,
    ensures
        p_i8(d, p) matches Ok((ty, q)) && q == p + 1 && p_attribute(d, q, version, ty)
            == Ok::<(SpecAttributeValue, int), SpecBinaryError>((v, p + b.len())),
{
    let x = v->ULong_0;
    let payload = enc_u64(x);
    lemma_enc_supported(g, c, version, table, name, pos, v);
    lemma_enc_u_long(g, c, version, table, name, pos, x);
    assert(b =~= enc_i8(ATTRIBUTE_ULONG_ID) + payload);
    lemma_split(d, p, enc_i8(ATTRIBUTE_ULONG_ID), payload);
    lemma_type_id(d, p, ATTRIBUTE_ULONG_ID);
    lemma_attr_single(d, p + 1, version, ATTRIBUTE_ULONG_ID);
    law_u64_round_trip(d, p + 1, x);
}

/// What the writer stores for a value of this type.
proof fn lemma_enc_u_byte(g: Seq<ElementView>, c: Seq<usize>, version: i32, table: Seq<Seq<char>>, name: Seq<char>, pos: int, x: u8)
    requires
        version_supports(version, SpecAttributeValue::UByte(x)),
    ensures
        enc_value(g, c, version, table, name, pos, SpecAttributeValue::UByte(x)) == Ok::<Seq<u8>, SpecBinaryError>(enc_i8(ATTRIBUTE_UBYTE_ID) + seq![x]),
{
    reveal(enc_value);
}

proof fn lemma_round_trip_u_byte(
    g: Seq<ElementView>,
    c: Seq<usize>,
    version: i32,
    table: Seq<Seq<char>>,
    name: Seq<char>,
    pos: int,
    v: SpecAttributeValue,
    b: Seq<u8>,
    d: Seq<u8>,
    p: int,
)
    requires
        1 <= version <= BINARY_VERSION,
        stands_alone(v),
        enc_value(g, c, version, table, name, pos, v) == Ok::<Seq<u8>, SpecBinaryError>(b),
        0 <= p,
        p + b.len() <= d.len(),
        d.subrange(p, p + b.len()) == b,
        v is UByte,
    ensures
        p_i8(d, p) matches Ok((ty, q)) && q == p + 1 && p_attribute(d, q, version, ty)
            == Ok::<(SpecAttributeValue, int), SpecBinaryError>((v, p + b.len())),
{
    let x = v->UByte_0;
    let payload = seq![x];
    lemma_enc_supported(g, c, version, table, name, pos, v);
    lemma_enc_u_byte(g, c, version, table, name, pos, x);
    assert(b =~= enc_i8(ATTRIBUTE_UBYTE_ID) + payload);
    lemma_split(d, p, enc_i8(ATTRIBUTE_UBYTE_ID), payload);
    lemma_type_id(d, p, ATTRIBUTE_UBYTE_ID);
    lemma_attr_single(d, p + 1, version, ATTRIBUTE_UBYTE_ID);
    assert(d[p + 1] == d.subrange(p + 1, p + 2)[0]);
}

/// What the writer stores for binary data.
proof fn lemma_enc_binary(g: Seq<ElementView>, c: Seq<usize>, version: i32, table: Seq<Seq<char>>, name: Seq<char>, pos: int, x: Seq<u8>)
    ensures
        enc_value(g, c, version, table, name, pos, SpecAttributeValue::Binary(x)) == match enc_block(x, name, pos) {
            Ok(y) => Ok::<Seq<u8>, SpecBinaryError>(enc_i8(ATTRIBUTE_BINARY_ID) + y),
            Err(e) => Err(e),
        },
{
    reveal(enc_value);
}

proof fn lemma_round_trip_binary(
    g: Seq<ElementView>,
    c: Seq<usize>,
    version: i32,
    table: Seq<Seq<char>>,
    name: Seq<char>,
    pos: int,
    v: SpecAttributeValue,
    b: Seq<u8>,
    d: Seq<u8>,
    p: int,
)
    requires
        1 <= version <= BINARY_VERSION,
        stands_alone(v),
        enc_value(g, c, version, table, name, pos, v) == Ok::<Seq<u8>, SpecBinaryError>(b),
        0 <= p,
        p + b.len() <= d.len(),
        d.subrange(p, p + b.len()) == b,
        v is Binary,
    ensures
        p_i8(d, p) matches Ok((ty, q)) && q == p + 1 && p_attribute(d, q, version, ty)
            == Ok::<(SpecAttributeValue, int), SpecBinaryError>((v, p + b.len())),
{
    let x = v->Binary_0;
    lemma_enc_binary(g, c, version, table, name, pos, x);
    let payload = enc_block(x, name, pos)->Ok_0;
    lemma_split(d, p, enc_i8(ATTRIBUTE_BINARY_ID), payload);
    lemma_type_id(d, p, ATTRIBUTE_BINARY_ID);
    lemma_attr_single(d, p + 1, version, ATTRIBUTE_BINARY_ID);
    lemma_block(d, p + 1, x, payload, name, pos);
}

/// A value that the binary writer stores by itself reads back: after its
/// type id, the reader's value of that type is the value written, and it ends
/// where the written bytes end.
pub proof fn law_value_round_trip(
    g: Seq<ElementView>,
    c: Seq<usize>,
    version: i32,
    table: Seq<Seq<char>>,
    name: Seq<char>,
    pos: int,
    v: SpecAttributeValue,
    b: Seq<u8>,
    d: Seq<u8>,
    p: int,
)
    requires
        1 <= version <= BINARY_VERSION,
        stands_alone(v),
        enc_value(g, c, version, table, name, pos, v) == Ok::<Seq<u8>, SpecBinaryError>(b),
        0 <= p,
        p + b.len() <= d.len(),
        d.subrange(p, p + b.len()) == b,
    ensures
        p_i8(d, p) matches Ok((ty, q)) && q == p + 1 && p_attribute(d, q, version, ty)
            == Ok::<(SpecAttributeValue, int), SpecBinaryError>((v, p + b.len())),
{
    match v {
        SpecAttributeValue::Integer(_) => lemma_round_trip_integer(g, c, version, table, name, pos, v, b, d, p),
        SpecAttributeValue::Float(_) => lemma_round_trip_float(g, c, version, table, name, pos, v, b, d, p),
        SpecAttributeValue::Boolean(_) => lemma_round_trip_boolean(g, c, version, table, name, pos, v, b, d, p),
        SpecAttributeValue::ObjectId(_) => lemma_round_trip_object_id(g, c, version, table, name, pos, v, b, d, p),
        SpecAttributeValue::Time(_) => lemma_round_trip_time(g, c, version, table, name, pos, v, b, d, p),
        SpecAttributeValue::Color(_) => lemma_round_trip_color(g, c, version, table, name, pos, v, b, d, p),
        SpecAttributeValue::Vector2(_) => lemma_round_trip_vector2(g, c, version, table, name, pos, v, b, d, p),
        SpecAttributeValue::Vector3(_) => lemma_round_trip_vector3(g, c, version, table, name, pos, v, b, d, p),
        SpecAttributeValue::Vector4(_) => lemma_round_trip_vector4(g, c, version, table, name, pos, v, b, d, p),
        SpecAttributeValue::Angle(_) => lemma_round_trip_angle(g, c, version, table, name, pos, v, b, d, p),
        SpecAttributeValue::Quaternion(_) => lemma_round_trip_quaternion(g, c, version, table, name, pos, v, b, d, p),
        SpecAttributeValue::Matrix(_) => lemma_round_trip_matrix(g, c, version, table, name, pos, v, b, d, p),
        SpecAttributeValue::ULong(_) => lemma_round_trip_u_long(g, c, version, table, name, pos, v, b, d, p),
        SpecAttributeValue::UByte(_) => lemma_round_trip_u_byte(g, c, version, table, name, pos, v, b, d, p),
        SpecAttributeValue::Binary(_) => lemma_round_trip_binary(g, c, version, table, name, pos, v, b, d, p),
        SpecAttributeValue::IntegerArray(_) => lemma_round_trip_integer_array(g, c, version, table, name, pos, v, b, d, p),
        SpecAttributeValue::FloatArray(_) => lemma_round_trip_float_array(g, c, version, table, name, pos, v, b, d, p),
        SpecAttributeValue::BooleanArray(_) => lemma_round_trip_boolean_array(g, c, version, table, name, pos, v, b, d, p),
        SpecAttributeValue::ObjectIdArray(_) => lemma_round_trip_object_id_array(g, c, version, table, name, pos, v, b, d, p),
        SpecAttributeValue::TimeArray(_) => lemma_round_trip_time_array(g, c, version, table, name, pos, v, b, d, p),
        SpecAttributeValue::ColorArray(_) => lemma_round_trip_color_array(g, c, version, table, name, pos, v, b, d, p),
        SpecAttributeValue::Vector2Array(_) => lemma_round_trip_vector2_array(g, c, version, table, name, pos, v, b, d, p),
        SpecAttributeValue::Vector3Array(_) => lemma_round_trip_vector3_array(g, c, version, table, name, pos, v, b, d, p),
        SpecAttributeValue::Vector4Array(_) => lemma_round_trip_vector4_array(g, c, version, table, name, pos, v, b, d, p),
        SpecAttributeValue::AngleArray(_) => lemma_round_trip_angle_array(g, c, version, table, name, pos, v, b, d, p),
        SpecAttributeValue::QuaternionArray(_) => lemma_round_trip_quaternion_array(g, c, version, table, name, pos, v, b, d, p),
        SpecAttributeValue::MatrixArray(_) => lemma_round_trip_matrix_array(g, c, version, table, name, pos, v, b, d, p),
        SpecAttributeValue::ULongArray(_) => lemma_round_trip_u_long_array(g, c, version, table, name, pos, v, b, d, p),
        SpecAttributeValue::BinaryArray(_) => lemma_round_trip_binary_array(g, c, version, table, name, pos, v, b, d, p),
        SpecAttributeValue::UByteArray(_) => lemma_round_trip_ubyte_array(g, c, version, table, name, pos, v, b, d, p),
        _ => {},
    }
}

} // verus!
