//! What the KeyValues2 reader gives back of the value texts that the
//! KeyValues2 writer writes.

use vstd::prelude::*;
use crate::attribute::{spec_type_of, Color, SpecAttributeValue};
use crate::serializers::keyvalues2_encode::{
    angle_text, attr3, bool_text, color_text, joined, kv_plain, quaternion_text, sp, ulong_text, vector2_text,
    vector3_text, vector4_text, KvText,
};
use crate::serializers::keyvalues2_text::{escape, hex_digits, hex_upper, kv_type_name, quoted, tabs};
use crate::serializers::keyvalues2_token::{
    cursor_ok, kv_next_token, lemma_escape_plain, lemma_quoted_token, lines_ok, plain_backslashes, plain_text,
    KvCursor, KvToken,
};
use crate::serializers::keyvalues2_parse::{advanced, at, kv_attr, kv_attrs, kv_set, kv_text, KvState};
use crate::serializers::keyvalues2_values::{is_value_type, kv_value, KvIn};
use crate::serializers::keyvalues2_values::{
    decimal_byte, digit_of, digits_value, kv_scalar, parts_upto, ParsedTime,
};
use crate::serializers::keyvalues2_error::KeyValues2SerializationError;
use crate::text::{int_decimal, is_digit, is_word, law_decimal_parses, lemma_decimal_digits, lemma_split_word, nat_decimal, split_ws};

verus! {

/// The digits of a decimal text have its value.
proof fn lemma_decimal_value(n: nat)
    ensures
        digits_value(nat_decimal(n), 10) == Some(n as int),
    decreases n,
{
    let s = nat_decimal(n);
    assert(digits_value(Seq::<char>::empty(), 10) == Some(0int));
    if n < 10 {
        assert(s.drop_last() =~= Seq::<char>::empty());
        assert(digit_of(s.last(), 10) == Some(n as int));
    } else {
        lemma_decimal_value(n / 10);
        assert(s.drop_last() =~= nat_decimal(n / 10));
        assert(digit_of(s.last(), 10) == Some((n % 10) as int));
        assert(n == (n / 10) * 10 + n % 10);
    }
}

/// The digits of a hexadecimal text have its value.
proof fn lemma_hex_value(n: nat)
    ensures
        digits_value(hex_digits(n), 16) == Some(n as int),
        hex_digits(n).len() > 0,
        hex_digits(n)[0] != '+',
    decreases n,
{
    let s = hex_digits(n);
    assert(digits_value(Seq::<char>::empty(), 16) == Some(0int));
    if n < 16 {
        assert(s.drop_last() =~= Seq::<char>::empty());
        assert(digit_of(hex_upper(n as int), 16) == Some(n as int));
    } else {
        lemma_hex_value(n / 16);
        assert(s.drop_last() =~= hex_digits(n / 16));
        assert(digit_of(hex_upper((n % 16) as int), 16) == Some((n % 16) as int));
        assert(s[0] == hex_digits(n / 16)[0]);
        assert(n == (n / 16) * 16 + n % 16);
    }
}

/// A byte's decimal text reads back as the byte.
proof fn lemma_byte_text(b: u8)
    ensures
        decimal_byte(nat_decimal(b as nat)) == Some(b as int),
        is_word(nat_decimal(b as nat)),
{
    lemma_decimal_value(b as nat);
    lemma_decimal_digits(b as nat);
    assert forall|k: int| 0 <= k < nat_decimal(b as nat).len() implies !crate::text::is_ws(#[trigger] nat_decimal(b as nat)[k]) by {
        assert(is_digit(nat_decimal(b as nat)[k]));
    }
    assert(is_digit(nat_decimal(b as nat)[0]));
}

/// A value that the KeyValues2 writer writes as one quoted word of digits:
/// an integer, a boolean, a color, a `u64` or a byte.
pub open spec fn digit_value_text(v: SpecAttributeValue) -> Option<Seq<char>> {
    match v {
        SpecAttributeValue::Integer(i) => Some(int_decimal(i as int)),
        SpecAttributeValue::Boolean(b) => Some(bool_text(b)),
        SpecAttributeValue::Color(c) => Some(color_text(c)),
        SpecAttributeValue::ULong(u) => Some(ulong_text(u)),
        SpecAttributeValue::UByte(b) => Some(nat_decimal(b as nat)),
        _ => None,
    }
}

/// The scalar type names of the text differ in length, first or last letter,
/// so no two of them are equal.
pub(crate) proof fn lemma_scalar_names()
    ensures
        "int"@.len() == 3 && "int"@[0] == 'i' && "int"@[2] == 't',
        "float"@.len() == 5 && "float"@[0] == 'f' && "float"@[4] == 't',
        "bool"@.len() == 4 && "bool"@[0] == 'b' && "bool"@[3] == 'l',
        "string"@.len() == 6 && "string"@[0] == 's' && "string"@[5] == 'g',
        "binary"@.len() == 6 && "binary"@[0] == 'b' && "binary"@[5] == 'y',
        "elementid"@.len() == 9 && "elementid"@[0] == 'e' && "elementid"@[8] == 'd',
        "time"@.len() == 4 && "time"@[0] == 't' && "time"@[3] == 'e',
        "color"@.len() == 5 && "color"@[0] == 'c' && "color"@[4] == 'r',
        "vector2"@.len() == 7 && "vector2"@[0] == 'v' && "vector2"@[6] == '2',
        "vector3"@.len() == 7 && "vector3"@[0] == 'v' && "vector3"@[6] == '3',
        "vector4"@.len() == 7 && "vector4"@[0] == 'v' && "vector4"@[6] == '4',
        "qangle"@.len() == 6 && "qangle"@[0] == 'q' && "qangle"@[5] == 'e',
        "quaternion"@.len() == 10 && "quaternion"@[0] == 'q' && "quaternion"@[9] == 'n',
        "matrix"@.len() == 6 && "matrix"@[0] == 'm' && "matrix"@[5] == 'x',
        "uint64"@.len() == 6 && "uint64"@[0] == 'u' && "uint64"@[5] == '4',
        "uint8"@.len() == 5 && "uint8"@[0] == 'u' && "uint8"@[4] == '8',
{
    reveal_strlit("int");
    reveal_strlit("float");
    reveal_strlit("bool");
    reveal_strlit("string");
    reveal_strlit("binary");
    reveal_strlit("elementid");
    reveal_strlit("time");
    reveal_strlit("color");
    reveal_strlit("vector2");
    reveal_strlit("vector3");
    reveal_strlit("vector4");
    reveal_strlit("qangle");
    reveal_strlit("quaternion");
    reveal_strlit("matrix");
    reveal_strlit("uint64");
    reveal_strlit("uint8");
}

proof fn lemma_int_text(ft: spec_fn(Seq<char>) -> Option<u32>, tt: spec_fn(Seq<char>) -> ParsedTime, line: int, col: int, i: i32)
    ensures
        kv_scalar(ft, tt, line, col, "int"@, int_decimal(i as int)) == Ok::<SpecAttributeValue, KeyValues2SerializationError>(SpecAttributeValue::Integer(i)),
{
    law_decimal_parses(i);
}

proof fn lemma_bool_text(ft: spec_fn(Seq<char>) -> Option<u32>, tt: spec_fn(Seq<char>) -> ParsedTime, line: int, col: int, b: bool)
    ensures
        kv_scalar(ft, tt, line, col, "bool"@, bool_text(b)) == Ok::<SpecAttributeValue, KeyValues2SerializationError>(SpecAttributeValue::Boolean(b)),
{
    lemma_scalar_names();
    assert(digits_value(Seq::<char>::empty(), 10) == Some(0int));
    assert(bool_text(b).drop_last() =~= Seq::<char>::empty());
    assert(digits_value(bool_text(b), 10) == Some(if b { 1int } else { 0int }));
    assert(decimal_byte(bool_text(b)) == Some(if b { 1int } else { 0int }));
    assert("bool"@ != "int"@);
    assert("bool"@ != "float"@);
}

proof fn lemma_color_parts(c: Color)
    ensures
        parts_upto(|s: Seq<char>| decimal_byte(s), split_ws(color_text(c)), 4) == Ok::<Seq<int>, bool>(
            seq![c.red as int, c.green as int, c.blue as int, c.alpha as int],
        ),
{
    lemma_byte_text(c.red);
    lemma_byte_text(c.green);
    lemma_byte_text(c.blue);
    lemma_byte_text(c.alpha);
    let r = nat_decimal(c.red as nat);
    let g = nat_decimal(c.green as nat);
    let bl = nat_decimal(c.blue as nat);
    let a = nat_decimal(c.alpha as nat);
    let t3 = bl + seq![' '] + a;
    let t2 = g + seq![' '] + t3;
    assert(color_text(c) =~= r + seq![' '] + t2);
    lemma_split_word(r, t2);
    lemma_split_word(g, t3);
    lemma_split_word(bl, a);
    lemma_split_word(a, seq![]);
    let parts = split_ws(color_text(c));
    assert(parts =~= seq![r, g, bl, a]);
    let p = |s: Seq<char>| decimal_byte(s);
    assert(parts_upto(p, parts, 0) == Ok::<Seq<int>, bool>(seq![]));
    assert(p(parts[0]) == Some(c.red as int));
    assert(seq![].push(c.red as int) =~= seq![c.red as int]);
    assert(parts_upto(p, parts, 1) == Ok::<Seq<int>, bool>(seq![c.red as int]));
    assert(p(parts[1]) == Some(c.green as int));
    assert(seq![c.red as int].push(c.green as int) =~= seq![c.red as int, c.green as int]);
    assert(parts_upto(p, parts, 2) == Ok::<Seq<int>, bool>(seq![c.red as int, c.green as int]));
    assert(p(parts[2]) == Some(c.blue as int));
    assert(seq![c.red as int, c.green as int].push(c.blue as int) =~= seq![c.red as int, c.green as int, c.blue as int]);
    assert(parts_upto(p, parts, 3) == Ok::<Seq<int>, bool>(seq![c.red as int, c.green as int, c.blue as int]));
    assert(p(parts[3]) == Some(c.alpha as int));
    assert(seq![c.red as int, c.green as int, c.blue as int].push(c.alpha as int) =~= seq![c.red as int, c.green as int, c.blue as int, c.alpha as int]);
}

proof fn lemma_color_text(ft: spec_fn(Seq<char>) -> Option<u32>, tt: spec_fn(Seq<char>) -> ParsedTime, line: int, col: int, c: Color)
    ensures
        kv_scalar(ft, tt, line, col, "color"@, color_text(c)) == Ok::<SpecAttributeValue, KeyValues2SerializationError>(SpecAttributeValue::Color(c)),
{
    lemma_scalar_names();
    lemma_color_parts(c);
}

proof fn lemma_ulong_text(ft: spec_fn(Seq<char>) -> Option<u32>, tt: spec_fn(Seq<char>) -> ParsedTime, line: int, col: int, u: u64)
    ensures
        kv_scalar(ft, tt, line, col, "uint64"@, ulong_text(u)) == Ok::<SpecAttributeValue, KeyValues2SerializationError>(SpecAttributeValue::ULong(u)),
{
    lemma_scalar_names();
    lemma_hex_value(u as nat);
    let t = ulong_text(u);
    assert(t.skip(2) =~= hex_digits(u as nat));
}

proof fn lemma_ubyte_text(ft: spec_fn(Seq<char>) -> Option<u32>, tt: spec_fn(Seq<char>) -> ParsedTime, line: int, col: int, b: u8)
    ensures
        kv_scalar(ft, tt, line, col, "uint8"@, nat_decimal(b as nat)) == Ok::<SpecAttributeValue, KeyValues2SerializationError>(SpecAttributeValue::UByte(b)),
{
    lemma_scalar_names();
    lemma_byte_text(b);
}

/// The KeyValues2 writer writes an integer, a boolean, a color, a `u64` or
/// a byte as one line holding its name, its type name and one quoted text;
/// that text reads back, under that type name, as the same value.
pub proof fn law_value_text_reads_back(
    x: KvText,
    t: nat,
    name: Seq<char>,
    ft: spec_fn(Seq<char>) -> Option<u32>,
    tt: spec_fn(Seq<char>) -> ParsedTime,
    line: int,
    col: int,
    v: SpecAttributeValue,
)
    requires
        digit_value_text(v) is Some,
    ensures
        kv_plain(x, t, name, v) == attr3(t, name, kv_type_name(spec_type_of(v)), digit_value_text(v)->0),
        kv_scalar(ft, tt, line, col, kv_type_name(spec_type_of(v)), digit_value_text(v)->0) == Ok::<
            SpecAttributeValue,
            KeyValues2SerializationError,
        >(v),
{
    reveal(kv_plain);
    match v {
        SpecAttributeValue::Integer(i) => lemma_int_text(ft, tt, line, col, i),
        SpecAttributeValue::Boolean(b) => lemma_bool_text(ft, tt, line, col, b),
        SpecAttributeValue::Color(c) => lemma_color_text(ft, tt, line, col, c),
        SpecAttributeValue::ULong(u) => lemma_ulong_text(ft, tt, line, col, u),
        SpecAttributeValue::UByte(b) => lemma_ubyte_text(ft, tt, line, col, b),
        _ => {},
    }
}

/// The KeyValues2 writer writes a string value as its escaped text under the
/// type name "string"; once the reader has read that text back into the
/// string (see [crate::serializers::keyvalues2_token::law_escaped_string_reads_back]),
/// it takes it, under that type name, as the same string value.
pub proof fn law_string_text_reads_back(
    x: KvText,
    t: nat,
    name: Seq<char>,
    ft: spec_fn(Seq<char>) -> Option<u32>,
    tt: spec_fn(Seq<char>) -> ParsedTime,
    line: int,
    col: int,
    s: Seq<char>,
)
    ensures
        kv_plain(x, t, name, SpecAttributeValue::String(s)) == attr3(t, name, "string"@, escape(s)),
        kv_scalar(ft, tt, line, col, "string"@, s) == Ok::<SpecAttributeValue, KeyValues2SerializationError>(
            SpecAttributeValue::String(s),
        ),
{
    reveal(kv_plain);
    lemma_scalar_names();
}

/// A text of numbers joined by spaces starts with the first number's text.
proof fn lemma_joined_front(xs: Seq<u32>, ft: spec_fn(u32) -> Seq<char>)
    requires
        xs.len() >= 2,
    ensures
        joined(xs, ft) == ft(xs[0]) + sp() + joined(xs.drop_first(), ft),
    decreases xs.len(),
{
    if xs.len() == 2 {
        assert(joined(xs.drop_last(), ft) == ft(xs.drop_last()[0]));
        assert(xs.drop_last()[0] == xs[0]);
        assert(joined(xs.drop_first(), ft) == ft(xs.drop_first()[0]));
        assert(xs.drop_first()[0] == xs.last());
    } else {
        let a = xs.drop_last();
        lemma_joined_front(a, ft);
        assert(a.drop_first() =~= xs.drop_first().drop_last());
        assert(xs.drop_first().last() == xs.last());
        assert(a[0] == xs[0]);
        assert(joined(xs, ft) == joined(a, ft) + sp() + ft(xs.last()));
        assert(joined(xs.drop_first(), ft) == joined(xs.drop_first().drop_last(), ft) + sp() + ft(xs.drop_first().last()));
        assert(joined(xs, ft) =~= ft(xs[0]) + sp() + joined(xs.drop_first(), ft));
    }
}

/// The words of numbers joined by spaces are the numbers' texts, when each
/// is a word.
proof fn lemma_split_joined(xs: Seq<u32>, ft: spec_fn(u32) -> Seq<char>)
    requires
        xs.len() >= 1,
        forall|b: u32| is_word(#[trigger] ft(b)),
    ensures
        split_ws(joined(xs, ft)) == xs.map_values(ft),
    decreases xs.len(),
{
    if xs.len() == 1 {
        lemma_split_word(ft(xs[0]), seq![]);
        assert(xs.map_values(ft) =~= seq![ft(xs[0])]);
    } else {
        lemma_joined_front(xs, ft);
        lemma_split_joined(xs.drop_first(), ft);
        lemma_split_word(ft(xs[0]), joined(xs.drop_first(), ft));
        assert(ft(xs[0]) + sp() + joined(xs.drop_first(), ft) == ft(xs[0]) + seq![' '] + joined(xs.drop_first(), ft));
        assert(seq![ft(xs[0])] + xs.drop_first().map_values(ft) =~= xs.map_values(ft));
    }
}

/// Parts each of which reads as its value read back as those values.
proof fn lemma_parts_read(rf: spec_fn(Seq<char>) -> Option<u32>, ft: spec_fn(u32) -> Seq<char>, xs: Seq<u32>, n: nat)
    requires
        n <= xs.len(),
        forall|b: u32| #[trigger] rf(ft(b)) == Some(b),
    ensures
        parts_upto(rf, xs.map_values(ft), n) == Ok::<Seq<u32>, bool>(xs.take(n as int)),
    decreases n,
{
    if n == 0 {
        assert(xs.take(0) =~= Seq::<u32>::empty());
    } else {
        lemma_parts_read(rf, ft, xs, (n - 1) as nat);
        assert(rf(xs.map_values(ft)[n - 1]) == Some(xs[n - 1]));
        assert(xs.take(n - 1).push(xs[n - 1]) =~= xs.take(n as int));
    }
}

/// The texts that the KeyValues2 writer writes for floating-point values
/// (a float, a vector, an angle or a quaternion): the caller's texts of the
/// numbers, joined by spaces.
pub open spec fn float_value_text(ft: spec_fn(u32) -> Seq<char>, v: SpecAttributeValue) -> Option<Seq<char>> {
    match v {
        SpecAttributeValue::Float(f) => Some(ft(f)),
        SpecAttributeValue::Vector2(w) => Some(vector2_text(w, ft)),
        SpecAttributeValue::Vector3(w) => Some(vector3_text(w, ft)),
        SpecAttributeValue::Vector4(w) => Some(vector4_text(w, ft)),
        SpecAttributeValue::Angle(w) => Some(angle_text(w, ft)),
        SpecAttributeValue::Quaternion(w) => Some(quaternion_text(w, ft)),
        _ => None,
    }
}

/// The KeyValues2 writer writes a floating-point value (a float, a vector,
/// an angle or a quaternion) as one line holding its name, its type name
/// and the caller's texts of its numbers joined by spaces; when each such
/// text is a word that the reader's number function reads back, the text
/// reads back, under that type name, as the same value.
pub proof fn law_float_text_reads_back(
    x: KvText,
    t: nat,
    name: Seq<char>,
    rf: spec_fn(Seq<char>) -> Option<u32>,
    tt: spec_fn(Seq<char>) -> ParsedTime,
    line: int,
    col: int,
    v: SpecAttributeValue,
)
    requires
        float_value_text(x.ft, v) is Some,
        forall|b: u32| is_word(#[trigger] (x.ft)(b)),
        forall|b: u32| #[trigger] rf((x.ft)(b)) == Some(b),
    ensures
        kv_plain(x, t, name, v) == attr3(t, name, kv_type_name(spec_type_of(v)), float_value_text(x.ft, v)->0),
        kv_scalar(rf, tt, line, col, kv_type_name(spec_type_of(v)), float_value_text(x.ft, v)->0) == Ok::<
            SpecAttributeValue,
            KeyValues2SerializationError,
        >(v),
{
    reveal(kv_plain);
    lemma_scalar_names();
    let ft = x.ft;
    match v {
        SpecAttributeValue::Float(f) => {},
        SpecAttributeValue::Vector2(w) => {
            let xs = seq![w.x, w.y];
            lemma_split_joined(xs, ft);
            lemma_parts_read(rf, ft, xs, 2);
            assert(xs.take(2) =~= xs);
        },
        SpecAttributeValue::Vector3(w) => {
            let xs = seq![w.x, w.y, w.z];
            lemma_split_joined(xs, ft);
            lemma_parts_read(rf, ft, xs, 3);
            assert(xs.take(3) =~= xs);
        },
        SpecAttributeValue::Vector4(w) => {
            let xs = seq![w.x, w.y, w.z, w.w];
            lemma_split_joined(xs, ft);
            lemma_parts_read(rf, ft, xs, 4);
            assert(xs.take(4) =~= xs);
        },
        SpecAttributeValue::Angle(w) => {
            let xs = seq![w.pitch, w.yaw, w.roll];
            lemma_split_joined(xs, ft);
            lemma_parts_read(rf, ft, xs, 3);
            assert(xs.take(3) =~= xs);
        },
        SpecAttributeValue::Quaternion(w) => {
            let xs = seq![w.x, w.y, w.z, w.w];
            lemma_split_joined(xs, ft);
            lemma_parts_read(rf, ft, xs, 4);
            assert(xs.take(4) =~= xs);
        },
        _ => {},
    }
}

/// The characters of a line from column `col` on are `text`.
pub open spec fn line_holds(c: KvCursor, text: Seq<char>) -> bool {
    &&& 0 <= c.col
    &&& c.col + text.len() <= c.cur.len()
    &&& c.cur.subrange(c.col, c.col + text.len()) == text
}

/// A part of a text that a line holds is held at its place.
pub(crate) proof fn lemma_line_part(c: KvCursor, text: Seq<char>, off: int, part: Seq<char>)
    requires
        line_holds(c, text),
        0 <= off,
        off + part.len() <= text.len(),
        text.subrange(off, off + part.len()) == part,
    ensures
        line_holds(KvCursor { col: c.col + off, ..c }, part),
{
    assert forall|k: int| 0 <= k < part.len() implies c.cur.subrange(c.col + off, c.col + off + part.len())[k] == part[k] by {
        assert(c.cur.subrange(c.col, c.col + text.len())[off + k] == text[off + k]);
        assert(text.subrange(off, off + part.len())[k] == part[k]);
    }
    assert(c.cur.subrange(c.col + off, c.col + off + part.len()) =~= part);
}

/// A token written as white space and a quoted escaped string, held by the
/// line from the cursor on, is read as that string.
pub(crate) proof fn lemma_token_held(x: KvIn, c: KvCursor, lead: Seq<char>, s: Seq<char>)
    requires
        cursor_ok(x.lines, c),
        plain_backslashes(s),
        forall|k: int| 0 <= k < lead.len() ==> crate::text::is_ws(#[trigger] lead[k]),
        line_holds(c, lead + quoted(escape(s))),
    ensures
        kv_next_token(x.lines, c) == Ok::<(Option<KvToken>, KvCursor), KeyValues2SerializationError>(
            (Some(KvToken::Text(s)), KvCursor { col: c.col + lead.len() + escape(s).len() + 2, ..c }),
        ),
{
    let e = escape(s);
    let text = lead + quoted(e);
    let w = lead.len() as int;
    assert forall|k: int| 0 <= k < w implies crate::text::is_ws(#[trigger] c.cur[c.col + k]) by {
        assert(c.cur.subrange(c.col, c.col + text.len())[k] == text[k]);
    }
    assert(c.cur[c.col + w] == '"') by {
        assert(c.cur.subrange(c.col, c.col + text.len())[w] == text[w]);
    }
    assert(text.subrange(w + 1, w + 1 + e.len() + 1) =~= e.push('"'));
    lemma_line_part(c, text, w + 1, e.push('"'));
    lemma_quoted_token(x.lines, c, w, s);
}

/// The line of an attribute with a single value as the KeyValues2 writer
/// writes it (before its line end): indentation, then the quoted name, type
/// and value text.
pub open spec fn attribute_line(t: nat, name: Seq<char>, ty: Seq<char>, val: Seq<char>) -> Seq<char> {
    tabs(t) + quoted(escape(name)) + sp() + quoted(ty) + sp() + quoted(escape(val))
}

/// Reading the attributes of an element, where the text holds a line that
/// the KeyValues2 writer writes for an attribute with a single value: the
/// reader sets that attribute on the element to the value that the value
/// text reads as, and goes on just after the line's text.
pub proof fn law_attribute_line_reads_back(
    x: KvIn,
    s: KvState,
    e: usize,
    t: nat,
    name: Seq<char>,
    ty: Seq<char>,
    val: Seq<char>,
    a: SpecAttributeValue,
)
    requires
        lines_ok(x.lines),
        cursor_ok(x.lines, s.c),
        line_holds(s.c, attribute_line(t, name, ty, val)),
        plain_backslashes(name),
        plain_text(ty),
        plain_backslashes(val),
        is_value_type(ty),
        !(name == "name"@ && ty != "string"@),
        !(name == "id"@ && ty == "elementid"@),
        kv_scalar(x.ft, x.tt, s.c.line, s.c.col + attribute_line(t, name, ty, val).len(), ty, val) == Ok::<
            SpecAttributeValue,
            KeyValues2SerializationError,
        >(a),
    ensures
        kv_attrs(x, s, e) == kv_attrs(
            x,
            kv_set(at(s, KvCursor { col: s.c.col + attribute_line(t, name, ty, val).len(), ..s.c }), e, name, a),
            e,
        ),
{
    let c = s.c;
    let en = escape(name);
    let ev = escape(val);
    lemma_escape_plain(ty);
    let text = attribute_line(t, name, ty, val);
    let part1 = tabs(t) + quoted(en);
    let part2 = sp() + quoted(escape(ty));
    let part3 = sp() + quoted(ev);
    assert(text =~= part1 + part2 + part3);
    let p1 = part1.len() as int;
    let p2 = p1 + part2.len();
    assert(text.subrange(0, p1) =~= part1);
    assert(text.subrange(p1, p1 + part2.len()) =~= part2);
    assert(text.subrange(p2, p2 + part3.len()) =~= part3);
    lemma_line_part(c, text, 0, part1);
    lemma_line_part(c, text, p1, part2);
    lemma_line_part(c, text, p2, part3);
    assert(KvCursor { col: c.col + 0, ..c } == c);
    assert forall|k: int| 0 <= k < tabs(t).len() implies crate::text::is_ws(#[trigger] tabs(t)[k]) by {}
    assert(crate::text::is_ws(sp()[0]));
    assert(plain_backslashes(ty)) by {
        assert forall|k: int| 0 <= k < ty.len() - 1 && ty[k] == '\\' implies !(#[trigger] ty[k + 1] == '\\' || ty[k + 1] == '\'' || ty[k + 1] == '"') by {
            assert(ty[k] != '\\');
        }
    }
    lemma_token_held(x, c, tabs(t), name);
    let c1 = KvCursor { col: c.col + p1, ..c };
    lemma_token_held(x, c1, sp(), ty);
    let c2 = KvCursor { col: c.col + p2, ..c };
    lemma_token_held(x, c2, sp(), val);
    let c3 = KvCursor { col: c.col + text.len(), ..c };
    assert(kv_text(x, c1) == Ok::<(Seq<char>, KvCursor), KeyValues2SerializationError>((ty, c2)));
    assert(kv_value(x, c2, ty) == Ok::<(Option<SpecAttributeValue>, KvCursor), KeyValues2SerializationError>((Some(a), c3)));
    assert(kv_attr(x, at(s, c2), e, name, ty) == Ok::<KvState, KeyValues2SerializationError>(kv_set(at(s, c3), e, name, a)));
    assert(advanced(x, c3, c));
}

} // verus!
