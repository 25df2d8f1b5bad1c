//! What writing an element graph as KeyValues2 text gives, as
//! specifications.
//!
//! The text of a floating-point number and of a time is what the functions
//! `ft` and `tt` give for its bit pattern and its ten-thousandths of a second.

use vstd::prelude::*;
use crate::attribute::{
    spec_type_of, Angle, AttributeType, Color, Quaternion, SpecAttributeValue, Time, Vector2,
    Vector3, Vector4,
};
use crate::collections::key_position;
use crate::element::ElementView;
use crate::ids::uuid_text;
use crate::serializers::binary_document::{id_key, name_key};
use crate::serializers::collect::id_entries;
use crate::serializers::keyvalues2_collect::kv_collect_all;
use crate::serializers::keyvalues2_error::KeyValues2SerializationError;
use crate::serializers::keyvalues2_text::{escape, hex_digits, hex_lines, kv_type_name, line, quoted};
use crate::text::{int_decimal, nat_decimal};

verus! {

/// Text, or the error that stops it.
pub type KvResult = Result<Seq<char>, KeyValues2SerializationError>;

/// What the writing of the attributes knows: the graph, the collected
/// elements with whether each stands at the top level, and the texts of
/// numbers.
pub struct KvText {
    pub g: Seq<ElementView>,
    pub c: Seq<usize>,
    pub top: Seq<bool>,
    pub ft: spec_fn(u32) -> Seq<char>,
    pub tt: spec_fn(i32) -> Seq<char>,
}

/// Whether the element at graph position `r` stands at the top level.
pub open spec fn is_top(x: KvText, r: usize) -> bool {
    match key_position(id_entries(x.g, x.c), x.g[r as int].id) {
        Some(i) => x.top[i],
        None => false,
    }
}

pub open spec fn sp() -> Seq<char> {
    seq![' ']
}

/// A line with an attribute's name, type and value.
pub open spec fn attr3(t: nat, name: Seq<char>, ty: Seq<char>, val: Seq<char>) -> Seq<char> {
    line(t, quoted(escape(name)) + sp() + quoted(ty) + sp() + quoted(val))
}

/// A line with an attribute's name and type.
pub open spec fn attr2(t: nat, name: Seq<char>, ty: Seq<char>) -> Seq<char> {
    line(t, quoted(escape(name)) + sp() + quoted(ty))
}

/// The line that gives an element's id.
pub open spec fn id_line(id: Seq<u8>) -> Seq<char> {
    quoted("id"@) + sp() + quoted("elementid"@) + sp() + quoted(uuid_text(id))
}

/// A comma unless the item is the last.
pub open spec fn comma(last: bool) -> Seq<char> {
    if last {
        seq![]
    } else {
        seq![',']
    }
}

/// An array item on a line of its own.
pub open spec fn item(t: nat, text: Seq<char>, last: bool) -> Seq<char> {
    line(t, quoted(text) + comma(last))
}

/// The first `k` items of an array.
pub open spec fn items<T>(t: nat, xs: Seq<T>, f: spec_fn(T) -> Seq<char>, k: nat) -> Seq<char>
    decreases k,
{
    if k == 0 {
        seq![]
    } else {
        items(t, xs, f, (k - 1) as nat) + item(t, f(xs[k - 1]), k == xs.len())
    }
}

/// An array attribute: a name and type line, then the items between brackets.
pub open spec fn array_text(t: nat, name: Seq<char>, ty: Seq<char>, body: Seq<char>) -> Seq<char> {
    attr2(t, name, ty) + line(t, seq!['[']) + body + line(t, seq![']'])
}

/// The closing quote line of a multi-line item.
pub open spec fn quote_mark(last: bool) -> Seq<char> {
    seq!['"'] + comma(last)
}

/// A block of binary data as an array item.
pub open spec fn binary_item(t: nat, b: Seq<u8>, last: bool) -> Seq<char> {
    line(t, seq!['"']) + hex_lines(t + 1, b) + line(t, quote_mark(last))
}

/// The first `k` blocks of an array.
pub open spec fn binary_items(t: nat, bs: Seq<Seq<u8>>, k: nat) -> Seq<char>
    decreases k,
{
    if k == 0 {
        seq![]
    } else {
        binary_items(t, bs, (k - 1) as nat) + binary_item(t, bs[k - 1], k == bs.len())
    }
}

/// Numbers joined by spaces.
pub open spec fn joined(xs: Seq<u32>, ft: spec_fn(u32) -> Seq<char>) -> Seq<char>
    decreases xs.len(),
{
    if xs.len() == 0 {
        seq![]
    } else if xs.len() == 1 {
        ft(xs[0])
    } else {
        joined(xs.drop_last(), ft) + sp() + ft(xs.last())
    }
}

/// Row `r` of a matrix.
pub open spec fn matrix_row(m: Seq<u32>, r: int, ft: spec_fn(u32) -> Seq<char>) -> Seq<char> {
    joined(m.subrange(4 * r, 4 * r + 4), ft)
}

/// The four row lines of a matrix.
pub open spec fn matrix_rows(t: nat, m: Seq<u32>, ft: spec_fn(u32) -> Seq<char>) -> Seq<char> {
    line(t, matrix_row(m, 0, ft)) + line(t, matrix_row(m, 1, ft)) + line(t, matrix_row(m, 2, ft)) + line(
        t,
        matrix_row(m, 3, ft),
    )
}

/// A matrix as an array item.
pub open spec fn matrix_item(t: nat, m: Seq<u32>, last: bool, ft: spec_fn(u32) -> Seq<char>) -> Seq<char> {
    line(t, seq!['"']) + matrix_rows(t + 1, m, ft) + line(t, quote_mark(last))
}

/// The first `k` matrices of an array.
pub open spec fn matrix_items(t: nat, ms: Seq<Seq<u32>>, ft: spec_fn(u32) -> Seq<char>, k: nat) -> Seq<char>
    decreases k,
{
    if k == 0 {
        seq![]
    } else {
        matrix_items(t, ms, ft, (k - 1) as nat) + matrix_item(t, ms[k - 1], k == ms.len(), ft)
    }
}

pub open spec fn bool_text(b: bool) -> Seq<char> {
    if b {
        seq!['1']
    } else {
        seq!['0']
    }
}

pub open spec fn color_text(c: Color) -> Seq<char> {
    nat_decimal(c.red as nat) + sp() + nat_decimal(c.green as nat) + sp() + nat_decimal(c.blue as nat) + sp()
        + nat_decimal(c.alpha as nat)
}

pub open spec fn vector2_text(v: Vector2, ft: spec_fn(u32) -> Seq<char>) -> Seq<char> {
    joined(seq![v.x, v.y], ft)
}

pub open spec fn vector3_text(v: Vector3, ft: spec_fn(u32) -> Seq<char>) -> Seq<char> {
    joined(seq![v.x, v.y, v.z], ft)
}

pub open spec fn vector4_text(v: Vector4, ft: spec_fn(u32) -> Seq<char>) -> Seq<char> {
    joined(seq![v.x, v.y, v.z, v.w], ft)
}

pub open spec fn angle_text(v: Angle, ft: spec_fn(u32) -> Seq<char>) -> Seq<char> {
    joined(seq![v.pitch, v.yaw, v.roll], ft)
}

pub open spec fn quaternion_text(v: Quaternion, ft: spec_fn(u32) -> Seq<char>) -> Seq<char> {
    joined(seq![v.x, v.y, v.z, v.w], ft)
}

/// `0x` and the uppercase hexadecimal digits.
pub open spec fn ulong_text(v: u64) -> Seq<char> {
    seq!['0', 'x'] + hex_digits(v as nat)
}

/// An attribute whose value holds no element references.
#[verifier::opaque]
pub open spec fn kv_plain(x: KvText, t: nat, name: Seq<char>, v: SpecAttributeValue) -> Seq<char> {
    let ty = kv_type_name(spec_type_of(v));
    match v {
        SpecAttributeValue::Integer(i) => attr3(t, name, ty, int_decimal(i as int)),
        SpecAttributeValue::Float(f) => attr3(t, name, ty, (x.ft)(f)),
        SpecAttributeValue::Boolean(b) => attr3(t, name, ty, bool_text(b)),
        SpecAttributeValue::String(s) => attr3(t, name, ty, escape(s)),
        SpecAttributeValue::Binary(b) => attr2(t, name, ty) + line(t, seq!['"']) + hex_lines(t + 1, b) + line(t, seq!['"']),
        SpecAttributeValue::ObjectId(id) => attr3(t, name, ty, uuid_text(id)),
        SpecAttributeValue::Time(tm) => attr3(t, name, ty, (x.tt)(tm.0)),
        SpecAttributeValue::Color(c) => attr3(t, name, ty, color_text(c)),
        SpecAttributeValue::Vector2(v) => attr3(t, name, ty, vector2_text(v, x.ft)),
        SpecAttributeValue::Vector3(v) => attr3(t, name, ty, vector3_text(v, x.ft)),
        SpecAttributeValue::Vector4(v) => attr3(t, name, ty, vector4_text(v, x.ft)),
        SpecAttributeValue::Angle(v) => attr3(t, name, ty, angle_text(v, x.ft)),
        SpecAttributeValue::Quaternion(v) => attr3(t, name, ty, quaternion_text(v, x.ft)),
        SpecAttributeValue::Matrix(m) => attr2(t, name, ty) + line(t, seq!['"']) + matrix_rows(t + 1, m, x.ft) + line(t, seq!['"']),
        SpecAttributeValue::ULong(u) => attr3(t, name, ty, ulong_text(u)),
        SpecAttributeValue::UByte(b) => attr3(t, name, ty, nat_decimal(b as nat)),
        SpecAttributeValue::IntegerArray(xs) => array_text(t, name, ty, items(t + 1, xs, |i: i32| int_decimal(i as int), xs.len())),
        SpecAttributeValue::FloatArray(xs) => array_text(t, name, ty, items(t + 1, xs, x.ft, xs.len())),
        SpecAttributeValue::BooleanArray(xs) => array_text(t, name, ty, items(t + 1, xs, |b: bool| bool_text(b), xs.len())),
        SpecAttributeValue::StringArray(xs) => array_text(t, name, ty, items(t + 1, xs, |s: Seq<char>| escape(s), xs.len())),
        SpecAttributeValue::BinaryArray(bs) => array_text(t, name, ty, binary_items(t + 1, bs, bs.len())),
        SpecAttributeValue::ObjectIdArray(xs) => array_text(t, name, ty, items(t + 1, xs, |id: Seq<u8>| uuid_text(id), xs.len())),
        SpecAttributeValue::TimeArray(xs) => array_text(t, name, ty, items(t + 1, xs, |tm: Time| (x.tt)(tm.0), xs.len())),
        SpecAttributeValue::ColorArray(xs) => array_text(t, name, ty, items(t + 1, xs, |c: Color| color_text(c), xs.len())),
        SpecAttributeValue::Vector2Array(xs) => array_text(t, name, ty, items(t + 1, xs, |v: Vector2| vector2_text(v, x.ft), xs.len())),
        SpecAttributeValue::Vector3Array(xs) => array_text(t, name, ty, items(t + 1, xs, |v: Vector3| vector3_text(v, x.ft), xs.len())),
        SpecAttributeValue::Vector4Array(xs) => array_text(t, name, ty, items(t + 1, xs, |v: Vector4| vector4_text(v, x.ft), xs.len())),
        SpecAttributeValue::AngleArray(xs) => array_text(t, name, ty, items(t + 1, xs, |v: Angle| angle_text(v, x.ft), xs.len())),
        SpecAttributeValue::QuaternionArray(xs) => array_text(t, name, ty, items(t + 1, xs, |v: Quaternion| quaternion_text(v, x.ft), xs.len())),
        SpecAttributeValue::MatrixArray(ms) => array_text(t, name, ty, matrix_items(t + 1, ms, x.ft, ms.len())),
        SpecAttributeValue::ULongArray(xs) => array_text(t, name, ty, items(t + 1, xs, |u: u64| ulong_text(u), xs.len())),
        SpecAttributeValue::UByteArray(xs) => array_text(t, name, ty, items(t + 1, xs, |b: u8| nat_decimal(b as nat), xs.len())),
        _ => seq![],
    }
}

/// A reference line of an element array.
pub open spec fn ref_line(t: nat, text: Seq<char>, last: bool) -> Seq<char> {
    line(t, quoted("element"@) + sp() + quoted(text) + comma(last))
}

/// An element written where it is referred to: a brace line, its id line
/// and its attributes, one level deeper; the closing line is the caller's.
pub open spec fn kv_block(x: KvText, r: usize, t: nat, fuel: nat) -> KvResult
    decreases fuel, 3nat, 0nat,
{
    match kv_attrs_upto(x, r, t + 1, fuel, x.g[r as int].attributes.len()) {
        Ok(body) => Ok(line(t, seq!['{']) + line(t + 1, id_line(x.g[r as int].id)) + body),
        Err(e) => Err(e),
    }
}

/// The first `k` attributes of the element at graph position `e`.
pub open spec fn kv_attrs_upto(x: KvText, e: usize, t: nat, fuel: nat, k: nat) -> KvResult
    decreases fuel, 2nat, k,
{
    if k == 0 {
        Ok(seq![])
    } else {
        match kv_attrs_upto(x, e, t, fuel, (k - 1) as nat) {
            Ok(a) => match kv_attr(x, e, t, fuel, x.g[e as int].attributes[k - 1]) {
                Ok(b) => Ok(a + b),
                Err(err) => Err(err),
            },
            Err(err) => Err(err),
        }
    }
}

/// One attribute of the element at graph position `e`. An element that
/// stands at the top level is referred to by id; another is written here.
pub open spec fn kv_attr(x: KvText, e: usize, t: nat, fuel: nat, a: (Seq<char>, SpecAttributeValue)) -> KvResult
    decreases fuel, 1nat, 0nat,
{
    if a.0 == name_key() && spec_type_of(a.1) != AttributeType::String {
        Err(KeyValues2SerializationError::InvalidNameAttribute { element: e })
    } else if a.0 == id_key() && spec_type_of(a.1) == AttributeType::ObjectId {
        Err(KeyValues2SerializationError::InvalidIdAttribute { element: e })
    } else {
        match a.1 {
            SpecAttributeValue::Element(None) => Ok(attr3(t, a.0, "element"@, seq![])),
            SpecAttributeValue::Element(Some(r)) => if is_top(x, r) {
                Ok(attr3(t, a.0, "element"@, uuid_text(x.g[r as int].id)))
            } else if fuel == 0 {
                Ok(seq![])
            } else {
                match kv_block(x, r, t, (fuel - 1) as nat) {
                    Ok(b) => Ok(attr2(t, a.0, escape(x.g[r as int].class)) + b + line(t, seq!['}']) + line(t, seq![])),
                    Err(err) => Err(err),
                }
            },
            SpecAttributeValue::ElementArray(rs) => match kv_refs(x, t + 1, fuel, rs, rs.len()) {
                Ok(body) => Ok(array_text(t, a.0, "element_array"@, body)),
                Err(err) => Err(err),
            },
            _ => Ok(kv_plain(x, t, a.0, a.1)),
        }
    }
}

/// One item of an element array.
pub open spec fn kv_ref_item(x: KvText, t: nat, fuel: nat, r: Option<usize>, last: bool) -> KvResult
    decreases fuel, 0nat, 0nat,
{
    match r {
        None => Ok(ref_line(t, seq![], last)),
        Some(r) => if is_top(x, r) {
            Ok(ref_line(t, uuid_text(x.g[r as int].id), last))
        } else if fuel == 0 {
            Ok(seq![])
        } else {
            match kv_block(x, r, t, (fuel - 1) as nat) {
                Ok(b) => Ok(line(t, quoted(escape(x.g[r as int].class))) + b + line(t, seq!['}'] + comma(last))),
                Err(err) => Err(err),
            }
        },
    }
}

/// The first `k` items of an element array.
pub open spec fn kv_refs(x: KvText, t: nat, fuel: nat, rs: Seq<Option<usize>>, k: nat) -> KvResult
    decreases fuel, 0nat, k,
{
    if k == 0 {
        Ok(seq![])
    } else {
        match kv_refs(x, t, fuel, rs, (k - 1) as nat) {
            Ok(a) => match kv_ref_item(x, t, fuel, rs[k - 1], k == rs.len()) {
                Ok(b) => Ok(a + b),
                Err(err) => Err(err),
            },
            Err(err) => Err(err),
        }
    }
}

/// The elements of the first `k` collected elements that stand at the top level.
pub open spec fn kv_tops(x: KvText, fuel: nat, k: nat) -> KvResult
    decreases k,
{
    if k == 0 {
        Ok(seq![])
    } else {
        match kv_tops(x, fuel, (k - 1) as nat) {
            Ok(a) => if x.top[k - 1] {
                let r = x.c[k - 1];
                match kv_block(x, r, 0, fuel) {
                    Ok(b) => Ok(a + line(0, quoted(escape(x.g[r as int].class))) + b + line(0, seq!['}']) + line(0, seq![])),
                    Err(err) => Err(err),
                }
            } else {
                Ok(a)
            },
            Err(err) => Err(err),
        }
    }
}

/// The newest version of the KeyValues2 encodings.
pub const KEYVALUES2_VERSION: i32 = 4;

/// What writing the elements that `root` reaches as KeyValues2 text gives,
/// after the header line `header`.
pub open spec fn encode_kv2(
    header: Seq<char>,
    g: Seq<ElementView>,
    root: usize,
    version: i32,
    flat: bool,
    ft: spec_fn(u32) -> Seq<char>,
    tt: spec_fn(i32) -> Seq<char>,
) -> KvResult {
    if version < 1 || version > KEYVALUES2_VERSION {
        Err(KeyValues2SerializationError::InvalidEncodingVersion)
    } else {
        let st = kv_collect_all(g, root, flat);
        let x = KvText { g, c: st.c, top: st.top, ft, tt };
        match kv_tops(x, g.len(), st.c.len()) {
            Ok(body) => Ok(header + body),
            Err(err) => Err(err),
        }
    }
}

} // verus!
