//! What reading a whole KeyValues2 text gives back of writing it.
//!
//! The law here covers a document of one element: a root whose attributes
//! each hold a value that the writer puts on one line (an integer, a float,
//! a boolean, a string, an element id, a color, a vector, an angle, a
//! quaternion, a `u64` or a byte), an array of such values, or an empty
//! element reference. Such a root refers to no other
//! element, so the text holds it alone; reading the text gives it back
//! whole, id included.

use vstd::prelude::*;
use crate::serializers::binary_round_trip::{lemma_line_end, lemma_no_newline_add, lemma_newline_utf8, lemma_utf8_no_newline, no_newline};
use crate::serializers::keyvalues2_token::{
    cursor_ok, decoded_line, kv_line_step, kv_lines, kv_measure, kv_next_token, kv_rest, kv_scan, lemma_skip_ws, line_len,
    kv_start, lines_ok, KvCursor, KvLineStep, KvLines, KvToken,
};
use crate::serializing::{keyvalues2_flat_name, keyvalues2_name, line_end};
use crate::ids::{byte_hex_lower, bytes_hex_lower, uuid_text};
use crate::serializers::keyvalues2_encode::{joined, sp};
use crate::attribute::{spec_type_of, Angle, AttributeType, Color, Quaternion, SpecAttributeValue, UuidBytes, Vector2, Vector3, Vector4};
use crate::ids::parsed_uuid;
use crate::collections::{key_position, lemma_key_position, map_insert, map_shift_remove, unique_keys};
use crate::element::{with_attribute, ElementView};
use crate::serializers::binary_document::{id_key as id_name_key, name_key};
use crate::serializers::collect::{attribute_refs, value_refs};
use crate::serializers::keyvalues2_collect::{kv_collect_all, kv_collect_refs, kv_state};
use crate::serializers::keyvalues2_encode::{
    angle_text, array_text, attr2, attr3, bool_text, color_text, comma, encode_kv2, id_line, item, items, kv_attr as kv_write_attr, kv_attrs_upto,
    kv_plain, kv_tops, quaternion_text, ulong_text, vector2_text, vector3_text, vector4_text, KvText, KEYVALUES2_VERSION,
};
use crate::serializers::keyvalues2_error::KeyValues2SerializationError;
use crate::serializers::keyvalues2_laws::{
    attribute_line, digit_value_text, float_value_text, law_float_text_reads_back, law_string_text_reads_back,
    law_value_text_reads_back, lemma_line_part, lemma_scalar_names, lemma_token_held, line_holds,
};
use crate::serializers::keyvalues2_parse::{
    decode_kv2, decode_kv2_flat,
    advanced, at, gen_id, id_key, kv_apply, kv_attr, kv_attrs, kv_create, kv_element, kv_elements, kv_read, kv_set,
    kv_set_id, kv_state_start, kv_text, KvRemap, KvState,
};
use crate::serializers::keyvalues2_text::{escape, hex_digits, hex_upper, kv_type_name, line, quoted, tabs};
use crate::serializers::keyvalues2_values::{
    array_start, is_value_type, kv_array, kv_items, kv_scalar, kv_value, push_item, KvIn, ParsedTime,
};
use crate::serializers::keyvalues2_token::{lemma_escape_plain, plain_backslashes, plain_text};
use crate::text::{is_word, is_ws, int_decimal, is_digit, lemma_decimal_digits, lemma_utf8_add, nat_decimal};

verus! {

/// Lines of text, each ending in a line feed and holding no other.
pub open spec fn text_lines_ok(ls: Seq<Seq<char>>) -> bool {
    forall|i: int|
        0 <= i < ls.len() ==> (#[trigger] ls[i]).len() > 0 && ls[i].last() == '\n' && no_newline(ls[i].drop_last())
}

/// The lines one after the other.
pub open spec fn concat_lines(ls: Seq<Seq<char>>) -> Seq<char>
    decreases ls.len(),
{
    if ls.len() == 0 {
        seq![]
    } else {
        ls[0] + concat_lines(ls.drop_first())
    }
}

/// The reader splits the UTF-8 encoding of lines back into those lines.
proof fn lemma_kv_lines_of(ls: Seq<Seq<char>>)
    requires
        text_lines_ok(ls),
    ensures
        kv_lines(vstd::utf8::encode_utf8(concat_lines(ls))) == ls.map_values(|l: Seq<char>| Some(l)),
    decreases ls.len(),
{
    broadcast use vstd::utf8::encode_utf8_valid_utf8, vstd::utf8::encode_utf8_decode_utf8;

    let d = vstd::utf8::encode_utf8(concat_lines(ls));
    if ls.len() == 0 {
        assert(d =~= Seq::<u8>::empty());
        assert(ls.map_values(|l: Seq<char>| Some(l)) =~= Seq::<Option<Seq<char>>>::empty());
    } else {
        let h = ls[0];
        let rest = ls.drop_first();
        assert(text_lines_ok(rest)) by {
            assert forall|i: int| 0 <= i < rest.len() implies (#[trigger] rest[i]).len() > 0 && rest[i].last() == '\n'
                && no_newline(rest[i].drop_last()) by {
                assert(rest[i] == ls[i + 1]);
            }
        }
        lemma_kv_lines_of(rest);
        let tail = vstd::utf8::encode_utf8(concat_lines(rest));
        lemma_utf8_add(h, concat_lines(rest));
        let body = h.drop_last();
        assert(no_newline(body));
        assert(h =~= body + seq!['\n']);
        lemma_utf8_add(body, seq!['\n']);
        lemma_newline_utf8();
        let bb = vstd::utf8::encode_utf8(body);
        lemma_utf8_no_newline(body);
        assert(d =~= bb + seq![10u8] + tail);
        lemma_line_end(bb, tail);
        let q = line_end(d);
        assert(d.take(q) =~= vstd::utf8::encode_utf8(h));
        assert(d.skip(q) =~= tail);
        assert(decoded_line(d.take(q)) == Some(h));
        assert(kv_lines(d) == seq![decoded_line(d.take(q))] + kv_lines(d.skip(q)));
        assert(ls.map_values(|l: Seq<char>| Some(l)) =~= seq![Some(h)] + rest.map_values(|l: Seq<char>| Some(l)));
    }
}


// ---------------------------------------------------------------------------
// Texts that need no escape and hold no line feed
// ---------------------------------------------------------------------------

/// Text without a line feed, a backslash, an apostrophe or a quote.
pub open spec fn safe_text(s: Seq<char>) -> bool {
    forall|k: int| 0 <= k < s.len() ==> #[trigger] s[k] != '\n' && s[k] != '\\' && s[k] != '\'' && s[k] != '"'
}

proof fn lemma_safe_add(a: Seq<char>, b: Seq<char>)
    requires
        safe_text(a),
        safe_text(b),
    ensures
        safe_text(a + b),
{
    assert forall|k: int| 0 <= k < (a + b).len() implies #[trigger] (a + b)[k] != '\n' && (a + b)[k] != '\\'
        && (a + b)[k] != '\'' && (a + b)[k] != '"' by {
        if k < a.len() {
            assert((a + b)[k] == a[k]);
        } else {
            assert((a + b)[k] == b[k - a.len()]);
        }
    }
}

proof fn lemma_safe_plain(s: Seq<char>)
    requires
        safe_text(s),
    ensures
        plain_text(s),
        plain_backslashes(s),
        no_newline(s),
        escape(s) == s,
{
    assert(plain_text(s)) by {
        assert forall|k: int| 0 <= k < s.len() implies #[trigger] s[k] != '\\' && s[k] != '\'' && s[k] != '"' by {
            assert(s[k] != '\n');
        }
    }
    assert(plain_backslashes(s)) by {
        assert forall|k: int| 0 <= k < s.len() - 1 && s[k] == '\\' implies !(#[trigger] s[k + 1] == '\\' || s[k + 1] == '\''
            || s[k + 1] == '"') by {
            assert(s[k] != '\\');
        }
    }
    assert(no_newline(s)) by {
        assert forall|k: int| 0 <= k < s.len() implies s[k] != '\n' by {
            assert(s[k] != '\\');
        }
    }
    lemma_escape_plain(s);
}

proof fn lemma_digits_safe(n: nat)
    ensures
        safe_text(nat_decimal(n)),
{
    lemma_decimal_digits(n);
    assert forall|k: int| 0 <= k < nat_decimal(n).len() implies #[trigger] nat_decimal(n)[k] != '\n'
        && nat_decimal(n)[k] != '\\' && nat_decimal(n)[k] != '\'' && nat_decimal(n)[k] != '"' by {
        assert(is_digit(nat_decimal(n)[k]));
    }
}

proof fn lemma_int_safe(v: int)
    ensures
        safe_text(int_decimal(v)),
{
    if v < 0 {
        lemma_digits_safe((-v) as nat);
        assert(safe_text(seq!['-']));
        lemma_safe_add(seq!['-'], nat_decimal((-v) as nat));
    } else {
        lemma_digits_safe(v as nat);
    }
}

proof fn lemma_hex_safe(n: nat)
    ensures
        safe_text(hex_digits(n)),
    decreases n,
{
    if n < 16 {
        assert(safe_text(hex_digits(n)));
    } else {
        lemma_hex_safe(n / 16);
        let d = (n % 16) as int;
        assert(safe_text(seq![hex_upper(d)]));
        lemma_safe_add(hex_digits(n / 16), seq![hex_upper(d)]);
    }
}

proof fn lemma_joined_safe(xs: Seq<u32>, ft: spec_fn(u32) -> Seq<char>)
    requires
        forall|b: u32| safe_text(#[trigger] ft(b)),
    ensures
        safe_text(joined(xs, ft)),
    decreases xs.len(),
{
    if xs.len() == 0 {
    } else if xs.len() == 1 {
        assert(safe_text(ft(xs[0])));
    } else {
        lemma_joined_safe(xs.drop_last(), ft);
        assert(safe_text(ft(xs.last())));
        assert(safe_text(sp()));
        lemma_safe_add(joined(xs.drop_last(), ft), sp());
        lemma_safe_add(joined(xs.drop_last(), ft) + sp(), ft(xs.last()));
    }
}

proof fn lemma_bytes_hex_lower_safe(b: Seq<u8>, from: int, to: int)
    ensures
        safe_text(bytes_hex_lower(b, from, to)),
    decreases to - from,
{
    if from < to {
        lemma_bytes_hex_lower_safe(b, from, to - 1);
        let x = b[to - 1];
        assert(safe_text(byte_hex_lower(x)));
        lemma_safe_add(bytes_hex_lower(b, from, to - 1), byte_hex_lower(x));
    }
}

proof fn lemma_uuid_text_safe(b: Seq<u8>)
    ensures
        safe_text(uuid_text(b)),
{
    let h = seq!['-'];
    assert(safe_text(h));
    lemma_bytes_hex_lower_safe(b, 0, 4);
    lemma_bytes_hex_lower_safe(b, 4, 6);
    lemma_bytes_hex_lower_safe(b, 6, 8);
    lemma_bytes_hex_lower_safe(b, 8, 10);
    lemma_bytes_hex_lower_safe(b, 10, 16);
    let a1 = bytes_hex_lower(b, 0, 4);
    let a2 = bytes_hex_lower(b, 4, 6);
    let a3 = bytes_hex_lower(b, 6, 8);
    let a4 = bytes_hex_lower(b, 8, 10);
    let a5 = bytes_hex_lower(b, 10, 16);
    lemma_safe_add(a1, h);
    lemma_safe_add(a1 + h, a2);
    lemma_safe_add(a1 + h + a2, h);
    lemma_safe_add(a1 + h + a2 + h, a3);
    lemma_safe_add(a1 + h + a2 + h + a3, h);
    lemma_safe_add(a1 + h + a2 + h + a3 + h, a4);
    lemma_safe_add(a1 + h + a2 + h + a3 + h + a4, h);
    lemma_safe_add(a1 + h + a2 + h + a3 + h + a4 + h, a5);
}

/// Escaping keeps a text free of line feeds.
proof fn lemma_escape_no_newline(s: Seq<char>)
    requires
        no_newline(s),
    ensures
        no_newline(escape(s)),
    decreases s.len(),
{
    if s.len() > 0 {
        if s[0] == '\\' && s.len() >= 2 || s[0] != '\\' {
            let n: int = if s[0] == '\\' { 2 } else { 1 };
            assert(no_newline(s.skip(n))) by {
                assert forall|k: int| 0 <= k < s.skip(n).len() implies s.skip(n)[k] != '\n' by {
                    assert(s.skip(n)[k] == s[k + n]);
                }
            }
            lemma_escape_no_newline(s.skip(n));
            if s[0] == '\\' {
                assert(s[1] != '\n');
            }
        }
    }
}

// ---------------------------------------------------------------------------
// Moving from line to line
// ---------------------------------------------------------------------------

/// The cursor at the start of the next line.
pub open spec fn next_start(lines: KvLines, c: KvCursor) -> KvCursor {
    KvCursor { cur: lines[c.next]->0, col: 0, line: c.line + 1, next: c.next + 1 }
}

/// From the cursor on, the current line holds only white space.
pub open spec fn rest_ws(c: KvCursor) -> bool {
    forall|k: int| c.col <= k < c.cur.len() ==> is_ws(#[trigger] c.cur[k])
}

/// What is left of the lines from `j` on is no less than from `k` on.
proof fn lemma_rest_mono(lines: KvLines, j: int, k: int)
    requires
        0 <= j <= k,
    ensures
        kv_rest(lines, j) >= kv_rest(lines, k),
    decreases k - j,
{
    if j < k {
        lemma_rest_mono(lines, j + 1, k);
    }
}

/// White space to the end of a line is skipped: the next token is the
/// first one of the next line.
proof fn lemma_next_line(lines: KvLines, c: KvCursor)
    requires
        lines_ok(lines),
        cursor_ok(lines, c),
        rest_ws(c),
        0 <= c.next < lines.len(),
        lines[c.next] is Some,
        (lines[c.next]->0).len() > 0,
    ensures
        cursor_ok(lines, next_start(lines, c)),
        kv_next_token(lines, c) == kv_next_token(lines, next_start(lines, c)),
        kv_measure(lines, next_start(lines, c)) < kv_measure(lines, c),
{
    let c2 = next_start(lines, c);
    assert(line_len(lines[c.next]) < usize::MAX);
    assert(kv_line_step(lines, c) == KvLineStep::Next(c2));
    if c.col < c.cur.len() {
        let w = c.cur.len() - c.col;
        assert forall|k: int| 0 <= k < w implies is_ws(#[trigger] c.cur[c.col + k]) by {
            assert(is_ws(c.cur[c.col + k]));
        }
        lemma_skip_ws(lines, c, w);
        let ce = KvCursor { col: c.cur.len() as int, ..c };
        assert(KvCursor { col: c.col + w, ..c } == ce);
        assert(kv_line_step(lines, ce) == KvLineStep::Next(c2));
        assert(kv_scan(lines, ce, None) == kv_scan(lines, c2, None));
    }
    assert(kv_rest(lines, c.next) == line_len(lines[c.next]) + 1 + kv_rest(lines, c.next + 1));
}

/// White space to the end of the last line ends the text.
proof fn lemma_end_of_text(lines: KvLines, c: KvCursor)
    requires
        cursor_ok(lines, c),
        rest_ws(c),
        c.next == lines.len(),
    ensures
        kv_next_token(lines, c) matches Ok((None, _)),
{
    assert(kv_line_step(lines, c) == KvLineStep::End);
    if c.col < c.cur.len() {
        let w = c.cur.len() - c.col;
        assert forall|k: int| 0 <= k < w implies is_ws(#[trigger] c.cur[c.col + k]) by {
            assert(is_ws(c.cur[c.col + k]));
        }
        lemma_skip_ws(lines, c, w);
        let ce = KvCursor { col: c.cur.len() as int, ..c };
        assert(KvCursor { col: c.col + w, ..c } == ce);
        assert(kv_line_step(lines, ce) == KvLineStep::End);
    }
}

// ---------------------------------------------------------------------------
// Reading the lines of an element
// ---------------------------------------------------------------------------

/// The line end that the writer puts after each line.
pub open spec fn crlf() -> Seq<char> {
    seq!['\r', '\n']
}

/// The next line is an attribute line that the writer writes for a single
/// value: the reader sets the attribute to what the value text reads as and
/// stops after the line's text.
proof fn lemma_attr_step(
    x: KvIn,
    s: KvState,
    e: usize,
    t: nat,
    name: Seq<char>,
    ty: Seq<char>,
    val: Seq<char>,
    a: SpecAttributeValue,
)
    requires
        lines_ok(x.lines),
        cursor_ok(x.lines, s.c),
        rest_ws(s.c),
        0 <= s.c.next < x.lines.len(),
        x.lines[s.c.next] == Some(attribute_line(t, name, ty, val) + crlf()),
        plain_backslashes(name),
        plain_text(ty),
        plain_backslashes(val),
        is_value_type(ty),
        !(name == "name"@ && ty != "string"@),
        !(name == "id"@ && ty == "elementid"@),
        kv_scalar(x.ft, x.tt, s.c.line + 1, attribute_line(t, name, ty, val).len() as int, ty, val) == Ok::<
            SpecAttributeValue,
            KeyValues2SerializationError,
        >(a),
    ensures
        kv_attrs(x, s, e) == kv_attrs(
            x,
            kv_set(
                at(s, KvCursor { col: attribute_line(t, name, ty, val).len() as int, ..next_start(x.lines, s.c) }),
                e,
                name,
                a,
            ),
            e,
        ),
{
    let c = next_start(x.lines, s.c);
    lemma_next_line(x.lines, s.c);
    let en = escape(name);
    let ev = escape(val);
    lemma_escape_plain(ty);
    let text = attribute_line(t, name, ty, val);
    assert(c.cur.subrange(0, text.len() as int) =~= text);
    assert(line_holds(c, text));
    let part1 = tabs(t) + quoted(en);
    let part2 = sp() + quoted(escape(ty));
    let part3 = sp() + quoted(ev);
    assert(text =~= part1 + part2 + part3);
    let p1 = part1.len() as int;
    let p2 = p1 + part2.len();
    assert(text.subrange(0, p1) =~= part1);
    assert(text.subrange(p1, p1 + part2.len()) =~= part2);
    assert(text.subrange(p2, p2 + part3.len()) =~= part3);
    lemma_line_part(c, text, 0, part1);
    lemma_line_part(c, text, p1, part2);
    lemma_line_part(c, text, p2, part3);
    assert(KvCursor { col: c.col + 0, ..c } == c);
    assert forall|k: int| 0 <= k < tabs(t).len() implies is_ws(#[trigger] tabs(t)[k]) by {}
    assert(is_ws(sp()[0]));
    assert(plain_backslashes(ty)) by {
        assert forall|k: int| 0 <= k < ty.len() - 1 && ty[k] == '\\' implies !(#[trigger] ty[k + 1] == '\\' || ty[k + 1]
            == '\'' || ty[k + 1] == '"') by {
            assert(ty[k] != '\\');
        }
    }
    lemma_token_held(x, c, tabs(t), name);
    let c1 = KvCursor { col: c.col + p1, ..c };
    lemma_token_held(x, c1, sp(), ty);
    let c2 = KvCursor { col: c.col + p2, ..c };
    lemma_token_held(x, c2, sp(), val);
    let c3 = KvCursor { col: c.col + text.len(), ..c };
    assert(kv_text(x, c1) == Ok::<(Seq<char>, KvCursor), KeyValues2SerializationError>((ty, c2)));
    assert(kv_value(x, c2, ty) == Ok::<(Option<SpecAttributeValue>, KvCursor), KeyValues2SerializationError>((Some(a), c3)));
    assert(kv_attr(x, at(s, c2), e, name, ty) == Ok::<KvState, KeyValues2SerializationError>(kv_set(at(s, c3), e, name, a)));
    assert(advanced(x, c3, s.c));
}

/// The next line gives the element's id: the reader gives the element the
/// id that the text parses as and stops after the line's text.
proof fn lemma_id_step(x: KvIn, s: KvState, e: usize, id: Seq<u8>, k: UuidBytes)
    requires
        lines_ok(x.lines),
        cursor_ok(x.lines, s.c),
        rest_ws(s.c),
        0 <= s.c.next < x.lines.len(),
        x.lines[s.c.next] == Some(line(1, id_line(id))),
        parsed_uuid(uuid_text(id)) == Some(k),
    ensures
        kv_attrs(x, s, e) == (match kv_set_id(
            at(s, KvCursor { col: 1 + id_line(id).len() as int, ..next_start(x.lines, s.c) }),
            e,
            k,
        ) {
            Ok(s3) => kv_attrs(x, s3, e),
            Err(err) => Err(err),
        }),
{
    reveal_strlit("id");
    reveal_strlit("elementid");
    reveal_strlit("name");
    let c = next_start(x.lines, s.c);
    lemma_next_line(x.lines, s.c);
    let u = uuid_text(id);
    lemma_uuid_text_safe(id);
    lemma_safe_plain(u);
    assert(safe_text("id"@));
    lemma_safe_plain("id"@);
    assert(safe_text("elementid"@));
    lemma_safe_plain("elementid"@);
    let text = tabs(1) + id_line(id);
    assert(c.cur.subrange(0, text.len() as int) =~= text);
    assert(line_holds(c, text));
    let part1 = tabs(1) + quoted("id"@);
    let part2 = sp() + quoted("elementid"@);
    let part3 = sp() + quoted(u);
    assert(text =~= part1 + part2 + part3);
    let p1 = part1.len() as int;
    let p2 = p1 + part2.len();
    assert(text.subrange(0, p1) =~= part1);
    assert(text.subrange(p1, p1 + part2.len()) =~= part2);
    assert(text.subrange(p2, p2 + part3.len()) =~= part3);
    lemma_line_part(c, text, 0, part1);
    lemma_line_part(c, text, p1, part2);
    lemma_line_part(c, text, p2, part3);
    assert(KvCursor { col: c.col + 0, ..c } == c);
    assert forall|j: int| 0 <= j < tabs(1).len() implies is_ws(#[trigger] tabs(1)[j]) by {}
    assert(is_ws(sp()[0]));
    lemma_token_held(x, c, tabs(1), "id"@);
    let c1 = KvCursor { col: c.col + p1, ..c };
    lemma_token_held(x, c1, sp(), "elementid"@);
    let c2 = KvCursor { col: c.col + p2, ..c };
    lemma_token_held(x, c2, sp(), u);
    let c3 = KvCursor { col: c.col + text.len(), ..c };
    assert(c3 == KvCursor { col: 1 + id_line(id).len() as int, ..c });
    assert(kv_text(x, c1) == Ok::<(Seq<char>, KvCursor), KeyValues2SerializationError>(("elementid"@, c2)));
    assert(kv_text(x, c2) == Ok::<(Seq<char>, KvCursor), KeyValues2SerializationError>((u, c3)));
    assert("id"@ != "name"@);
    assert(kv_attr(x, at(s, c2), e, "id"@, "elementid"@) == kv_set_id(at(s, c3), e, k));
    assert(advanced(x, c3, s.c));
}

/// The next line closes the element: the reader stops just after the brace.
proof fn lemma_close_step(x: KvIn, s: KvState, e: usize)
    requires
        lines_ok(x.lines),
        cursor_ok(x.lines, s.c),
        rest_ws(s.c),
        0 <= s.c.next < x.lines.len(),
        x.lines[s.c.next] == Some(line(0, seq!['}'])),
    ensures
        kv_attrs(x, s, e) == Ok::<KvState, KeyValues2SerializationError>(
            at(s, KvCursor { col: 1, ..next_start(x.lines, s.c) }),
        ),
{
    let c = next_start(x.lines, s.c);
    assert(line(0, seq!['}']) =~= seq!['}', '\r', '\n']);
    lemma_next_line(x.lines, s.c);
    assert(c.cur[0] == '}');
}

// ---------------------------------------------------------------------------
// Attribute values written on one line
// ---------------------------------------------------------------------------

/// An attribute value that the writer writes on a line of its own: an
/// integer, a boolean, a color, a `u64`, a byte, a string, a float, a
/// vector, an angle, a quaternion or an element id.
pub open spec fn one_line_value(ft: spec_fn(u32) -> Seq<char>, v: SpecAttributeValue) -> bool {
    ||| digit_value_text(v) is Some
    ||| v is String
    ||| float_value_text(ft, v) is Some
    ||| v is ObjectId
}

/// The text of such a value before the writer escapes it.
pub open spec fn value_text(ft: spec_fn(u32) -> Seq<char>, v: SpecAttributeValue) -> Seq<char> {
    match v {
        SpecAttributeValue::String(s) => s,
        SpecAttributeValue::ObjectId(id) => uuid_text(id),
        SpecAttributeValue::Element(None) => seq![],
        _ => match digit_value_text(v) {
            Some(t) => t,
            None => float_value_text(ft, v)->0,
        },
    }
}

/// Text that stays on its line and whose escaped form reads back: no line
/// feed, and no backslash before a backslash, an apostrophe or a quote.
pub open spec fn line_safe(s: Seq<char>) -> bool {
    plain_backslashes(s) && no_newline(s)
}

/// The writer's texts of floating-point numbers are words that need no
/// escape, and the reader's number function reads each back.
pub open spec fn floats_read_back(ft: spec_fn(u32) -> Seq<char>, rf: spec_fn(Seq<char>) -> Option<u32>) -> bool {
    &&& forall|b: u32| is_word(#[trigger] ft(b))
    &&& forall|b: u32| safe_text(#[trigger] ft(b))
    &&& forall|b: u32| #[trigger] rf(ft(b)) == Some(b)
}

/// An attribute that reads back from its line: a value written on one line,
/// a name and string that stay on their line, and an element id whose text
/// parses as that id (under another name than "id").
pub open spec fn line_reads_back(ft: spec_fn(u32) -> Seq<char>, a: (Seq<char>, SpecAttributeValue)) -> bool {
    &&& one_line_value(ft, a.1)
    &&& line_safe(a.0)
    &&& (a.1 matches SpecAttributeValue::String(s) ==> line_safe(s))
    &&& !(a.0 == "id"@ && a.1 is ObjectId)
    &&& (a.1 matches SpecAttributeValue::ObjectId(id) ==> parsed_uuid(uuid_text(id)) matches Some(k) && k@ == id)
}

/// The type name of such a value is plain text, names a type of single
/// values, is "string" just for strings and is never "elementid".
proof fn lemma_one_line_type(ft: spec_fn(u32) -> Seq<char>, v: SpecAttributeValue)
    requires
        one_line_value(ft, v),
    ensures
        safe_text(kv_type_name(spec_type_of(v))),
        is_value_type(kv_type_name(spec_type_of(v))),
        kv_type_name(spec_type_of(v)) == "elementid"@ <==> v is ObjectId,
        kv_type_name(spec_type_of(v)) == "string"@ <==> v is String,
{
    lemma_scalar_names();
    reveal_strlit("elementid");
    reveal_strlit("int");
    reveal_strlit("float");
    reveal_strlit("bool");
    reveal_strlit("string");
    reveal_strlit("color");
    reveal_strlit("vector2");
    reveal_strlit("vector3");
    reveal_strlit("vector4");
    reveal_strlit("qangle");
    reveal_strlit("quaternion");
    reveal_strlit("uint64");
    reveal_strlit("uint8");
    let ty = kv_type_name(spec_type_of(v));
    assert(safe_text(ty));
}

/// The value texts of one-line values need no escape (strings aside) and
/// stay on their line.
proof fn lemma_value_text_safe(ft: spec_fn(u32) -> Seq<char>, v: SpecAttributeValue)
    requires
        one_line_value(ft, v),
        v !is String,
        forall|b: u32| safe_text(#[trigger] ft(b)),
    ensures
        safe_text(value_text(ft, v)),
{
    match v {
        SpecAttributeValue::Integer(i) => lemma_int_safe(i as int),
        SpecAttributeValue::Boolean(b) => {
            assert(safe_text(bool_text(b)));
        },
        SpecAttributeValue::Color(c) => {
            lemma_digits_safe(c.red as nat);
            lemma_digits_safe(c.green as nat);
            lemma_digits_safe(c.blue as nat);
            lemma_digits_safe(c.alpha as nat);
            assert(safe_text(sp()));
            let r = nat_decimal(c.red as nat);
            let g = nat_decimal(c.green as nat);
            let b = nat_decimal(c.blue as nat);
            let a = nat_decimal(c.alpha as nat);
            lemma_safe_add(r, sp());
            lemma_safe_add(r + sp(), g);
            lemma_safe_add(r + sp() + g, sp());
            lemma_safe_add(r + sp() + g + sp(), b);
            lemma_safe_add(r + sp() + g + sp() + b, sp());
            lemma_safe_add(r + sp() + g + sp() + b + sp(), a);
        },
        SpecAttributeValue::ULong(u) => {
            lemma_hex_safe(u as nat);
            assert(safe_text(seq!['0', 'x']));
            lemma_safe_add(seq!['0', 'x'], hex_digits(u as nat));
        },
        SpecAttributeValue::UByte(b) => lemma_digits_safe(b as nat),
        SpecAttributeValue::ObjectId(id) => lemma_uuid_text_safe(id),
        SpecAttributeValue::Float(f) => {
            assert(safe_text(ft(f)));
        },
        SpecAttributeValue::Vector2(w) => lemma_joined_safe(seq![w.x, w.y], ft),
        SpecAttributeValue::Vector3(w) => lemma_joined_safe(seq![w.x, w.y, w.z], ft),
        SpecAttributeValue::Vector4(w) => lemma_joined_safe(seq![w.x, w.y, w.z, w.w], ft),
        SpecAttributeValue::Angle(w) => lemma_joined_safe(seq![w.pitch, w.yaw, w.roll], ft),
        SpecAttributeValue::Quaternion(w) => lemma_joined_safe(seq![w.x, w.y, w.z, w.w], ft),
        _ => {},
    }
}

/// The writer writes an attribute with a one-line value as an attribute
/// line, and its value text reads back under its type name.
proof fn lemma_value_line(
    x: KvText,
    rf: spec_fn(Seq<char>) -> Option<u32>,
    rt: spec_fn(Seq<char>) -> ParsedTime,
    t: nat,
    a: (Seq<char>, SpecAttributeValue),
    ln: int,
    col: int,
)
    requires
        floats_read_back(x.ft, rf),
        line_reads_back(x.ft, a),
    ensures
        kv_plain(x, t, a.0, a.1) == attribute_line(t, a.0, kv_type_name(spec_type_of(a.1)), value_text(x.ft, a.1)) + crlf(),
        kv_scalar(rf, rt, ln, col, kv_type_name(spec_type_of(a.1)), value_text(x.ft, a.1)) == Ok::<
            SpecAttributeValue,
            KeyValues2SerializationError,
        >(a.1),
        line_safe(value_text(x.ft, a.1)),
        no_newline(attribute_line(t, a.0, kv_type_name(spec_type_of(a.1)), value_text(x.ft, a.1))),
{
    let name = a.0;
    let v = a.1;
    let ty = kv_type_name(spec_type_of(v));
    let val = value_text(x.ft, v);
    lemma_one_line_type(x.ft, v);
    lemma_safe_plain(ty);
    if v is String {
        law_string_text_reads_back(x, t, name, rf, rt, ln, col, val);
        assert(kv_plain(x, t, name, v) =~= attribute_line(t, name, ty, val) + crlf());
    } else {
        lemma_value_text_safe(x.ft, v);
        lemma_safe_plain(val);
        if v is ObjectId {
            reveal(kv_plain);
            lemma_scalar_names();
        } else if digit_value_text(v) is Some {
            law_value_text_reads_back(x, t, name, rf, rt, ln, col, v);
        } else {
            law_float_text_reads_back(x, t, name, rf, rt, ln, col, v);
        }
        assert(kv_plain(x, t, name, v) =~= attribute_line(t, name, ty, val) + crlf());
    }
    lemma_escape_no_newline(name);
    lemma_escape_no_newline(val);
    let q1 = quoted(escape(name));
    let q2 = quoted(ty);
    let q3 = quoted(escape(val));
    assert(no_newline(tabs(t)));
    assert(no_newline(sp()));
    assert(no_newline(q1)) by {
        lemma_no_newline_add(seq!['"'], escape(name));
        lemma_no_newline_add(seq!['"'] + escape(name), seq!['"']);
    }
    assert(no_newline(q2)) by {
        lemma_no_newline_add(seq!['"'], ty);
        lemma_no_newline_add(seq!['"'] + ty, seq!['"']);
    }
    assert(no_newline(q3)) by {
        lemma_no_newline_add(seq!['"'], escape(val));
        lemma_no_newline_add(seq!['"'] + escape(val), seq!['"']);
    }
    lemma_no_newline_add(tabs(t), q1);
    lemma_no_newline_add(tabs(t) + q1, sp());
    lemma_no_newline_add(tabs(t) + q1 + sp(), q2);
    lemma_no_newline_add(tabs(t) + q1 + sp() + q2, sp());
    lemma_no_newline_add(tabs(t) + q1 + sp() + q2 + sp(), q3);
}

// ---------------------------------------------------------------------------
// The text of an element that stands alone
// ---------------------------------------------------------------------------

/// An attribute that reads back from its lines: a name that stays on its
/// line, and a value that the writer puts on one line, an array of such
/// values (whose strings stay on their lines), or an empty element reference.
pub open spec fn attr_reads_back(ft: spec_fn(u32) -> Seq<char>, a: (Seq<char>, SpecAttributeValue)) -> bool {
    &&& line_safe(a.0)
    &&& match array_items(a.1) {
        Some(vs) => forall|m: int| 0 <= m < vs.len() ==> line_reads_back(ft, (seq![], #[trigger] vs[m])),
        None => line_reads_back(ft, a) || a.1 == SpecAttributeValue::Element(None),
    }
}

/// The lines that the writer writes for an attribute: one line for a value,
/// and for an array a name and type line, its items between brackets.
pub open spec fn attr_block(ft: spec_fn(u32) -> Seq<char>, a: (Seq<char>, SpecAttributeValue)) -> Seq<Seq<char>> {
    match array_items(a.1) {
        Some(vs) => seq![attr2(1, a.0, kv_type_name(spec_type_of(a.1))), line(1, seq!['['])] + item_lines(2, ft, vs)
            + seq![line(1, seq![']'])],
        None => seq![attribute_line(1, a.0, kv_type_name(spec_type_of(a.1)), value_text(ft, a.1)) + crlf()],
    }
}

/// The lines of the first `k` attributes.
pub open spec fn blocks_lines(ft: spec_fn(u32) -> Seq<char>, attrs: Seq<(Seq<char>, SpecAttributeValue)>, k: nat) -> Seq<Seq<char>>
    decreases k,
{
    if k == 0 {
        seq![]
    } else {
        blocks_lines(ft, attrs, (k - 1) as nat) + attr_block(ft, attrs[k - 1])
    }
}

/// The number of lines of the first `i` attributes of an element.
pub open spec fn off(ft: spec_fn(u32) -> Seq<char>, ev: ElementView, i: int) -> int {
    blocks_lines(ft, ev.attributes, i as nat).len() as int
}

/// The lines that the writer writes for an element that refers to no other:
/// its class, an opening brace, its id, its attributes, a closing brace and
/// an empty line.
pub open spec fn lone_lines(ft: spec_fn(u32) -> Seq<char>, ev: ElementView) -> Seq<Seq<char>> {
    seq![line(0, quoted(escape(ev.class))), line(0, seq!['{']), line(1, id_line(ev.id))]
        + blocks_lines(ft, ev.attributes, ev.attributes.len()) + seq![line(0, seq!['}']), line(0, seq![])]
}

/// The lines of the first `i` attributes start the lines of the first `k`.
proof fn lemma_blocks_prefix(ft: spec_fn(u32) -> Seq<char>, attrs: Seq<(Seq<char>, SpecAttributeValue)>, i: nat, k: nat)
    requires
        i <= k,
    ensures
        blocks_lines(ft, attrs, i).len() <= blocks_lines(ft, attrs, k).len(),
        forall|j: int| 0 <= j < blocks_lines(ft, attrs, i).len() ==> #[trigger] blocks_lines(ft, attrs, k)[j] == blocks_lines(ft, attrs, i)[j],
    decreases k,
{
    if i < k {
        lemma_blocks_prefix(ft, attrs, i, (k - 1) as nat);
    }
}

/// The lines of attribute `i` stand after those of the attributes before it.
proof fn lemma_block_at(ft: spec_fn(u32) -> Seq<char>, ev: ElementView, i: int)
    requires
        0 <= i < ev.attributes.len(),
    ensures
        off(ft, ev, i + 1) == off(ft, ev, i) + attr_block(ft, ev.attributes[i]).len(),
        off(ft, ev, i + 1) <= off(ft, ev, ev.attributes.len() as int),
        lone_lines(ft, ev).len() == off(ft, ev, ev.attributes.len() as int) + 5,
        forall|m: int| 0 <= m < attr_block(ft, ev.attributes[i]).len() ==> lone_lines(ft, ev)[3 + off(ft, ev, i) + m]
            == #[trigger] attr_block(ft, ev.attributes[i])[m],
{
    let attrs = ev.attributes;
    let n = attrs.len();
    let b = attr_block(ft, attrs[i]);
    let pre = blocks_lines(ft, attrs, i as nat);
    assert(blocks_lines(ft, attrs, (i + 1) as nat) == pre + b);
    lemma_blocks_prefix(ft, attrs, (i + 1) as nat, n);
    let ls = lone_lines(ft, ev);
    assert forall|m: int| 0 <= m < b.len() implies ls[3 + off(ft, ev, i) + m] == #[trigger] b[m] by {
        assert((pre + b)[pre.len() + m] == b[m]);
        assert(blocks_lines(ft, attrs, n)[pre.len() + m] == blocks_lines(ft, attrs, (i + 1) as nat)[pre.len() + m]);
    }
}

proof fn lemma_concat_add(a: Seq<Seq<char>>, b: Seq<Seq<char>>)
    ensures
        concat_lines(a + b) == concat_lines(a) + concat_lines(b),
    decreases a.len(),
{
    if a.len() == 0 {
        assert(a + b =~= b);
    } else {
        lemma_concat_add(a.drop_first(), b);
        assert((a + b).drop_first() =~= a.drop_first() + b);
        assert((a + b)[0] == a[0]);
    }
}

proof fn lemma_concat_one(l: Seq<char>)
    ensures
        concat_lines(seq![l]) == l,
{
    assert(seq![l].drop_first() =~= Seq::<Seq<char>>::empty());
    assert(concat_lines(Seq::<Seq<char>>::empty()) == Seq::<char>::empty());
    assert(concat_lines(seq![l]) == seq![l][0] + concat_lines(seq![l].drop_first()));
    assert(l + Seq::<char>::empty() =~= l);
}

/// A list of attributes without element values refers to no element.
proof fn lemma_no_refs(ft: spec_fn(u32) -> Seq<char>, attrs: Seq<(Seq<char>, SpecAttributeValue)>)
    requires
        forall|i: int| 0 <= i < attrs.len() ==> attr_reads_back(ft, #[trigger] attrs[i]),
    ensures
        attribute_refs(attrs) == Seq::<usize>::empty(),
    decreases attrs.len(),
{
    if attrs.len() > 0 {
        assert forall|i: int| 0 <= i < attrs.drop_last().len() implies attr_reads_back(ft, #[trigger] attrs.drop_last()[i]) by {
            assert(attrs.drop_last()[i] == attrs[i]);
        }
        lemma_no_refs(ft, attrs.drop_last());
        assert(attr_reads_back(ft, attrs[attrs.len() - 1]));
        assert(value_refs(attrs.last().1) == Seq::<usize>::empty());
    }
}

/// What the writer writes for one attribute is its lines (unless it is a
/// "name" attribute that holds no string).
proof fn lemma_block_text(x: KvText, rf: spec_fn(Seq<char>) -> Option<u32>, r: usize, fuel: nat, a: (Seq<char>, SpecAttributeValue))
    requires
        floats_read_back(x.ft, rf),
        attr_reads_back(x.ft, a),
    ensures
        !(a.0 == name_key() && spec_type_of(a.1) != AttributeType::String) ==> kv_write_attr(x, r, 1, fuel, a) == Ok::<
            Seq<char>,
            KeyValues2SerializationError,
        >(concat_lines(attr_block(x.ft, a))),
{
    reveal_strlit("id");
    assert(id_name_key() == "id"@);
    let blk = attr_block(x.ft, a);
    match array_items(a.1) {
        Some(vs) => {
            lemma_array_kind(x, 1, a.0, a.1);
            let h = seq![attr2(1, a.0, kv_type_name(spec_type_of(a.1))), line(1, seq!['['])];
            let its = item_lines(2, x.ft, vs);
            let tl = seq![line(1, seq![']'])];
            assert(blk == h + its + tl);
            lemma_concat_add(h + its, tl);
            lemma_concat_add(h, its);
            assert(h =~= seq![h[0]] + seq![h[1]]);
            lemma_concat_add(seq![h[0]], seq![h[1]]);
            lemma_concat_one(h[0]);
            lemma_concat_one(h[1]);
            lemma_concat_one(tl[0]);
            assert(kv_plain(x, 1, a.0, a.1) =~= concat_lines(blk));
        },
        None => {
            lemma_concat_one(blk[0]);
            if a.1 == SpecAttributeValue::Element(None) {
                reveal_strlit("element");
                assert(escape(Seq::<char>::empty()) == Seq::<char>::empty());
                assert(attr3(1, a.0, "element"@, seq![]) =~= blk[0]);
            } else {
                lemma_value_line(x, rf, |s: Seq<char>| ParsedTime::Invalid, 1, a, 0, 0);
                lemma_one_line_type(x.ft, a.1);
            }
        },
    }
}

/// The writer writes the first `k` attributes of an element whose
/// attributes read back as their lines, unless one of them is a "name"
/// attribute that holds no string.
proof fn lemma_attrs_upto_text(x: KvText, rf: spec_fn(Seq<char>) -> Option<u32>, r: usize, fuel: nat, k: nat)
    requires
        r < x.g.len(),
        k <= x.g[r as int].attributes.len(),
        floats_read_back(x.ft, rf),
        forall|i: int| 0 <= i < x.g[r as int].attributes.len() ==> attr_reads_back(x.ft, #[trigger] x.g[r as int].attributes[i]),
    ensures
        kv_attrs_upto(x, r, 1, fuel, k) is Ok ==> {
            &&& forall|i: int| 0 <= i < k ==> !((#[trigger] x.g[r as int].attributes[i]).0 == "name"@ && !(x.g[r as int].attributes[i].1 is String))
            &&& kv_attrs_upto(x, r, 1, fuel, k) == Ok::<Seq<char>, KeyValues2SerializationError>(
                concat_lines(blocks_lines(x.ft, x.g[r as int].attributes, k)),
            )
        },
    decreases k,
{
    reveal_strlit("name");
    let attrs = x.g[r as int].attributes;
    if k > 0 {
        lemma_attrs_upto_text(x, rf, r, fuel, (k - 1) as nat);
        let a = attrs[k - 1];
        assert(attr_reads_back(x.ft, a));
        lemma_block_text(x, rf, r, fuel, a);
        assert(name_key() == "name"@);
        if kv_attrs_upto(x, r, 1, fuel, k) is Ok {
            lemma_concat_add(blocks_lines(x.ft, attrs, (k - 1) as nat), attr_block(x.ft, a));
            assert forall|i: int| 0 <= i < k implies !((#[trigger] attrs[i]).0 == "name"@ && !(attrs[i].1 is String)) by {
                if i == k - 1 {
                    if a.0 == "name"@ && !(a.1 is String) {
                        assert(spec_type_of(a.1) != AttributeType::String);
                    }
                }
            }
        }
    }
}

/// The text that the writer writes for a root that refers to no other element.
proof fn lemma_encode_lone(
    header: Seq<char>,
    g: Seq<ElementView>,
    root: usize,
    version: i32,
    flat: bool,
    ft: spec_fn(u32) -> Seq<char>,
    tt: spec_fn(i32) -> Seq<char>,
    rf: spec_fn(Seq<char>) -> Option<u32>,
)
    requires
        root < g.len(),
        floats_read_back(ft, rf),
        forall|i: int| 0 <= i < g[root as int].attributes.len() ==> attr_reads_back(ft, #[trigger] g[root as int].attributes[i]),
        encode_kv2(header, g, root, version, flat, ft, tt) is Ok,
    ensures
        encode_kv2(header, g, root, version, flat, ft, tt) == Ok::<Seq<char>, KeyValues2SerializationError>(
            header + concat_lines(lone_lines(ft, g[root as int])),
        ),
        1 <= version <= KEYVALUES2_VERSION,
        forall|i: int|
            0 <= i < g[root as int].attributes.len() ==> !((#[trigger] g[root as int].attributes[i]).0 == "name"@
                && !(g[root as int].attributes[i].1 is String)),
{
    let ev = g[root as int];
    let attrs = ev.attributes;
    lemma_no_refs(ft, attrs);
    let st = kv_collect_all(g, root, flat);
    let st1 = kv_state(seq![root], seq![true]);
    assert(kv_state(Seq::<usize>::empty().push(root), Seq::<bool>::empty().push(flat || 0 == 0)) == st1);
    assert(kv_collect_refs(g, st1, Seq::<usize>::empty(), flat, g.len() as nat) == st1);
    assert(st == st1);
    let x = KvText { g, c: st.c, top: st.top, ft, tt };
    let n = attrs.len();
    lemma_attrs_upto_text(x, rf, root, g.len() as nat, n as nat);
    let ls = blocks_lines(ft, attrs, n as nat);
    assert(kv_tops(x, g.len() as nat, 0) == Ok::<Seq<char>, KeyValues2SerializationError>(seq![]));
    let body = concat_lines(ls);
    let l0 = line(0, quoted(escape(ev.class)));
    let l1 = line(0, seq!['{']);
    let l2 = line(1, id_line(ev.id));
    let l3 = line(0, seq!['}']);
    let l4 = line(0, seq![]);
    let lines = lone_lines(ft, ev);
    assert(lines == seq![l0, l1, l2] + ls + seq![l3, l4]);
    lemma_concat_add(seq![l0, l1, l2] + ls, seq![l3, l4]);
    lemma_concat_add(seq![l0, l1, l2], ls);
    assert(seq![l0, l1, l2] =~= seq![l0] + seq![l1] + seq![l2]);
    lemma_concat_add(seq![l0] + seq![l1], seq![l2]);
    lemma_concat_add(seq![l0], seq![l1]);
    assert(seq![l3, l4] =~= seq![l3] + seq![l4]);
    lemma_concat_add(seq![l3], seq![l4]);
    lemma_concat_one(l0);
    lemma_concat_one(l1);
    lemma_concat_one(l2);
    lemma_concat_one(l3);
    lemma_concat_one(l4);
    let text = Seq::<char>::empty() + l0 + (l1 + l2 + body) + l3 + l4;
    assert(kv_tops(x, g.len() as nat, 1) == Ok::<Seq<char>, KeyValues2SerializationError>(text));
    assert(text =~= concat_lines(lines));
}

// ---------------------------------------------------------------------------
// Reading the text of an element that stands alone
// ---------------------------------------------------------------------------

/// The lines as the reader holds them.
pub open spec fn held_lines(ls: Seq<Seq<char>>) -> KvLines {
    ls.map_values(|l: Seq<char>| Some(l))
}

/// The cursor just before the line end of line `j`.
pub open spec fn end_cursor(ls: Seq<Seq<char>>, j: int) -> KvCursor {
    KvCursor { cur: ls[j], col: ls[j].len() - 2, line: j + 2, next: j + 1 }
}

/// The cursor at the start of line `j`.
pub open spec fn line_start(ls: Seq<Seq<char>>, j: int) -> KvCursor {
    KvCursor { cur: ls[j], col: 0, line: j + 2, next: j + 1 }
}

/// The cursor just after the first character of line `j`.
pub open spec fn after_brace(ls: Seq<Seq<char>>, j: int) -> KvCursor {
    KvCursor { cur: ls[j], col: 1, line: j + 2, next: j + 1 }
}

/// The cursor just after the first two characters of line `j`.
pub open spec fn after_brace_at(ls: Seq<Seq<char>>, j: int) -> KvCursor {
    KvCursor { cur: ls[j], col: 2, line: j + 2, next: j + 1 }
}

/// A line of the writer: its text, a carriage return and a line feed.
proof fn lemma_crlf_line(content: Seq<char>)
    requires
        no_newline(content),
    ensures
        (content + crlf()).len() >= 2,
        (content + crlf()).last() == '\n',
        (content + crlf())[(content + crlf()).len() - 2] == '\r',
        no_newline((content + crlf()).drop_last()),
{
    let l = content + crlf();
    assert(l.drop_last() =~= content + seq!['\r']);
    lemma_no_newline_add(content, seq!['\r']);
}

/// The reader's state after the first `i` attributes of the element: the
/// element with its class, its id and those attributes.
pub open spec fn lone_state(ft: spec_fn(u32) -> Seq<char>, ev: ElementView, ids: Seq<(UuidBytes, usize)>, i: int) -> KvState {
    KvState {
        c: end_cursor(lone_lines(ft, ev), 2 + off(ft, ev, i)),
        g: seq![ElementView { class: ev.class, id: ev.id, attributes: ev.attributes.take(i) }],
        ids,
        remaps: seq![],
    }
}

/// Lines that end with a carriage return and a line feed, as the reader holds them.
pub open spec fn crlf_lines(ls: Seq<Seq<char>>) -> bool {
    forall|j: int| 0 <= j < ls.len() ==> (#[trigger] ls[j]).len() >= 2 && ls[j][ls[j].len() - 2] == '\r' && ls[j].last() == '\n'
}

/// After its line's text, the reader can go on and sees only white space
/// to the end of the line.
proof fn lemma_end_cursor(ls: Seq<Seq<char>>, j: int)
    requires
        crlf_lines(ls),
        lines_ok(held_lines(ls)),
        0 <= j < ls.len(),
    ensures
        cursor_ok(held_lines(ls), end_cursor(ls, j)),
        rest_ws(end_cursor(ls, j)),
        end_cursor(ls, j).next < ls.len() ==> next_start(held_lines(ls), end_cursor(ls, j)) == line_start(ls, j + 1),
{
    let lines = held_lines(ls);
    assert(lines[j] == Some(ls[j]));
    assert(line_len(lines[j]) < usize::MAX);
    let c = end_cursor(ls, j);
    assert forall|k: int| c.col <= k < c.cur.len() implies is_ws(#[trigger] c.cur[k]) by {
        assert(ls[j][ls[j].len() - 1] == '\n');
    }
    if j + 1 < ls.len() {
        assert(lines[j + 1] == Some(ls[j + 1]));
    }
}

/// Setting the next attribute of the element gives the state after it.
proof fn lemma_lone_state_step(ft: spec_fn(u32) -> Seq<char>, ev: ElementView, ids: Seq<(UuidBytes, usize)>, i: int, c: KvCursor)
    requires
        0 <= i < ev.attributes.len(),
        unique_keys(ev.attributes),
        c == lone_state(ft, ev, ids, i + 1).c,
    ensures
        kv_set(at(lone_state(ft, ev, ids, i), c), 0, ev.attributes[i].0, ev.attributes[i].1) == lone_state(ft, ev, ids, i + 1),
{
    let a = ev.attributes[i];
    let s = lone_state(ft, ev, ids, i);
    let s1 = lone_state(ft, ev, ids, i + 1);
    let pre = ev.attributes.take(i);
    lemma_key_position(pre, a.0);
    assert forall|j: int| 0 <= j < pre.len() implies (#[trigger] pre[j]).0 != a.0 by {
        assert(pre[j] == ev.attributes[j]);
    }
    assert(key_position(pre, a.0) is None);
    assert(pre.push(a) =~= ev.attributes.take(i + 1));
    let e1 = with_attribute(s.g[0], a.0, a.1);
    assert(e1 == s1.g[0]);
    let t = kv_set(at(s, c), 0, a.0, a.1);
    assert(t.g =~= s1.g);
}

/// Reading one attribute of the element that holds a single value.
proof fn lemma_lone_value_attr(x: KvIn, ft: spec_fn(u32) -> Seq<char>, ev: ElementView, ids: Seq<(UuidBytes, usize)>, i: int)
    requires
        x.lines == held_lines(lone_lines(ft, ev)),
        lines_ok(x.lines),
        crlf_lines(lone_lines(ft, ev)),
        floats_read_back(ft, x.ft),
        attr_reads_back(ft, ev.attributes[i]),
        array_items(ev.attributes[i].1) is None,
        !(ev.attributes[i].0 == "name"@ && !(ev.attributes[i].1 is String)),
        unique_keys(ev.attributes),
        0 <= i < ev.attributes.len(),
    ensures
        kv_attrs(x, lone_state(ft, ev, ids, i), 0) == kv_attrs(x, lone_state(ft, ev, ids, i + 1), 0),
{
    let ls = lone_lines(ft, ev);
    let s = lone_state(ft, ev, ids, i);
    let o = off(ft, ev, i);
    lemma_block_at(ft, ev, i);
    lemma_end_cursor(ls, 2 + o);
    assert(x.lines[3 + o] == Some(ls[3 + o]));
    let a = ev.attributes[i];
    let ty = kv_type_name(spec_type_of(a.1));
    let val = value_text(ft, a.1);
    let text = attribute_line(1, a.0, ty, val);
    assert(ls[3 + o + 0] == attr_block(ft, a)[0]);
    let cend = KvCursor { col: text.len() as int, ..next_start(x.lines, s.c) };
    if a.1 == SpecAttributeValue::Element(None) {
        reveal_strlit("element");
        assert(ty == "element"@);
        assert(val == Seq::<char>::empty());
        lemma_null_ref_step(x, s, 0, a.0);
    } else {
        let kt = KvText { g: seq![], c: seq![], top: seq![], ft, tt: |v: i32| Seq::<char>::empty() };
        lemma_value_line(kt, x.ft, x.tt, 1, a, s.c.line + 1, text.len() as int);
        lemma_one_line_type(ft, a.1);
        lemma_safe_plain(ty);
        lemma_attr_step(x, s, 0, 1, a.0, ty, val, a.1);
    }
    assert(cend == end_cursor(ls, 3 + o));
    lemma_lone_state_step(ft, ev, ids, i, cend);
}

/// Reading one array attribute of the element.
#[verifier::rlimit(40)]
proof fn lemma_lone_array_attr(x: KvIn, ft: spec_fn(u32) -> Seq<char>, ev: ElementView, ids: Seq<(UuidBytes, usize)>, i: int)
    requires
        x.lines == held_lines(lone_lines(ft, ev)),
        lines_ok(x.lines),
        crlf_lines(lone_lines(ft, ev)),
        floats_read_back(ft, x.ft),
        attr_reads_back(ft, ev.attributes[i]),
        array_items(ev.attributes[i].1) is Some,
        !(ev.attributes[i].0 == "name"@ && !(ev.attributes[i].1 is String)),
        unique_keys(ev.attributes),
        0 <= i < ev.attributes.len(),
    ensures
        kv_attrs(x, lone_state(ft, ev, ids, i), 0) == kv_attrs(x, lone_state(ft, ev, ids, i + 1), 0),
{
    let ls = lone_lines(ft, ev);
    let s = lone_state(ft, ev, ids, i);
    let o = off(ft, ev, i);
    let a = ev.attributes[i];
    let v = a.1;
    let vs = array_items(v)->0;
    let n = vs.len() as int;
    lemma_block_at(ft, ev, i);
    lemma_end_cursor(ls, 2 + o);
    let kt = KvText { g: seq![], c: seq![], top: seq![], ft, tt: |t: i32| Seq::<char>::empty() };
    lemma_array_kind(kt, 1, a.0, v);
    let blk = attr_block(ft, a);
    assert(ls[3 + o + 0] == blk[0]);
    assert(ls[3 + o + 1] == blk[1]);
    assert(ls[3 + o + (2 + n)] == blk[2 + n]);
    assert forall|m: int| 0 <= m < n implies #[trigger] ls[4 + o + 1 + m] == item_lines(2, ft, vs)[m] by {
        assert(ls[3 + o + (2 + m)] == blk[2 + m]);
    }
    assert(array_body_at(ls, ft, vs, 4 + o));
    assert(a.0 != "name"@);
    lemma_array_step(x, s, 0, ls, ft, a.0, v);
    let cc = after_brace_at(ls, 3 + o + 2 + n);
    assert(ls[3 + o + 2 + n] =~= seq!['\t', ']', '\r', '\n']);
    assert(cc == lone_state(ft, ev, ids, i + 1).c);
    lemma_lone_state_step(ft, ev, ids, i, cc);
}

/// Reading the attributes of the element from the `i`-th on, then its
/// closing brace.
proof fn lemma_attr_lines_read(
    x: KvIn,
    ft: spec_fn(u32) -> Seq<char>,
    ev: ElementView,
    ids: Seq<(UuidBytes, usize)>,
    i: int,
)
    requires
        x.lines == held_lines(lone_lines(ft, ev)),
        lines_ok(x.lines),
        crlf_lines(lone_lines(ft, ev)),
        floats_read_back(ft, x.ft),
        forall|j: int| 0 <= j < ev.attributes.len() ==> attr_reads_back(ft, #[trigger] ev.attributes[j]),
        forall|j: int| 0 <= j < ev.attributes.len() ==> !((#[trigger] ev.attributes[j]).0 == "name"@ && !(ev.attributes[j].1 is String)),
        unique_keys(ev.attributes),
        0 <= i <= ev.attributes.len(),
    ensures
        kv_attrs(x, lone_state(ft, ev, ids, i), 0) == Ok::<KvState, KeyValues2SerializationError>(
            at(
                lone_state(ft, ev, ids, ev.attributes.len() as int),
                after_brace(lone_lines(ft, ev), 3 + off(ft, ev, ev.attributes.len() as int)),
            ),
        ),
    decreases ev.attributes.len() - i,
{
    let ls = lone_lines(ft, ev);
    let n = ev.attributes.len() as int;
    if i == n {
        let s = lone_state(ft, ev, ids, i);
        let o = off(ft, ev, n);
        assert(ls.len() == o + 5);
        lemma_end_cursor(ls, 2 + o);
        assert(x.lines[3 + o] == Some(ls[3 + o]));
        assert(ls[3 + o] == line(0, seq!['}']));
        lemma_close_step(x, s, 0);
    } else {
        if array_items(ev.attributes[i].1) is Some {
            lemma_lone_array_attr(x, ft, ev, ids, i);
        } else {
            lemma_lone_value_attr(x, ft, ev, ids, i);
        }
        lemma_attr_lines_read(x, ft, ev, ids, i + 1);
    }
}

/// The reader's state once the element's class, brace and id are read.
proof fn lemma_lone_head(x: KvIn, ft: spec_fn(u32) -> Seq<char>, ev: ElementView, k: UuidBytes) -> (ids: Seq<(UuidBytes, usize)>)
    requires
        x.lines == held_lines(lone_lines(ft, ev)),
        lines_ok(x.lines),
        crlf_lines(lone_lines(ft, ev)),
        line_safe(ev.class),
        parsed_uuid(uuid_text(ev.id)) == Some(k),
        k@ == ev.id,
    ensures
        kv_element(x, kv_state_start()) == (match kv_attrs(x, lone_state(ft, ev, ids, 0), 0) {
            Ok(s3) => Ok::<(KvState, Option<usize>), KeyValues2SerializationError>((s3, Some(0usize))),
            Err(err) => Err(err),
        }),
{
    let ls = lone_lines(ft, ev);
    let lines = x.lines;
    let s0 = kv_state_start();
    let c0 = line_start(ls, 0);
    assert(lines[0] == Some(ls[0]));
    assert(line_len(lines[0]) < usize::MAX);
    assert(kv_line_step(lines, kv_start()) == KvLineStep::Next(c0));
    assert(kv_next_token(lines, kv_start()) == kv_next_token(lines, c0));
    let ec = escape(ev.class);
    assert(ls[0] =~= Seq::<char>::empty() + quoted(ec) + crlf());
    assert(c0.cur.subrange(0, quoted(ec).len() as int) =~= Seq::<char>::empty() + quoted(ec));
    lemma_token_held(x, c0, Seq::<char>::empty(), ev.class);
    let c1 = end_cursor(ls, 0);
    assert(KvCursor { col: c0.col + 0 + ec.len() + 2, ..c0 } == c1);
    let gen = gen_id(x, 0);
    assert(key_position(Seq::<(UuidBytes, usize)>::empty(), gen) is None);
    let s2 = KvState {
        c: c1,
        g: seq![ElementView { class: ev.class, id: gen@, attributes: seq![] }],
        ids: seq![(gen, 0usize)],
        remaps: seq![],
    };
    assert(kv_create(x, at(s0, c1), ev.class) == Ok::<(KvState, usize), KeyValues2SerializationError>((s2, 0usize)));
    lemma_end_cursor(ls, 0);
    lemma_next_line(lines, c1);
    let c1s = line_start(ls, 1);
    assert(ls[1] =~= seq!['{', '\r', '\n']);
    assert(c1s.cur[0] == '{');
    let c2 = end_cursor(ls, 1);
    assert(kv_next_token(lines, c1) == Ok::<(Option<KvToken>, KvCursor), KeyValues2SerializationError>(
        (Some(KvToken::OpenBrace), c2),
    ));
    lemma_end_cursor(ls, 1);
    assert(lines[2] == Some(ls[2]));
    lemma_id_step(x, at(s2, c2), 0, ev.id, k);
    let cend = end_cursor(ls, 2);
    assert(KvCursor { col: 1 + id_line(ev.id).len() as int, ..next_start(lines, c2) } == cend);
    let sc = at(at(s2, c2), cend);
    let own = gen@;
    let ids = if k@ == own {
        sc.ids
    } else {
        map_insert(map_shift_remove(sc.ids, id_key(own)), k, 0usize)
    };
    let s3 = lone_state(ft, ev, ids, 0);
    assert(off(ft, ev, 0) == 0);
    assert(ev.attributes.take(0) =~= Seq::<(Seq<char>, SpecAttributeValue)>::empty());
    if k@ == own {
        assert(kv_set_id(sc, 0, k) == Ok::<KvState, KeyValues2SerializationError>(sc));
        assert(sc.g =~= s3.g);
        assert(sc == s3);
    } else {
        assert(k != gen);
        assert(sc.ids == seq![(gen, 0usize)]);
        assert(sc.ids.drop_first() =~= Seq::<(UuidBytes, usize)>::empty());
        assert(key_position(sc.ids.drop_first(), k) is None);
        assert(key_position(sc.ids, k) is None);
        let u = kv_set_id(sc, 0, k)->Ok_0;
        assert(u.g =~= s3.g);
        assert(kv_set_id(sc, 0, k) == Ok::<KvState, KeyValues2SerializationError>(s3));
    }
    ids
}

/// After the closing brace, the reader has gone on from the start.
proof fn lemma_lone_advanced(x: KvIn, ft: spec_fn(u32) -> Seq<char>, ev: ElementView)
    requires
        x.lines == held_lines(lone_lines(ft, ev)),
        lines_ok(x.lines),
    ensures
        advanced(x, after_brace(lone_lines(ft, ev), 3 + off(ft, ev, ev.attributes.len() as int)), kv_start()),
{
    let ls = lone_lines(ft, ev);
    let lines = x.lines;
    let n = off(ft, ev, ev.attributes.len() as int);
    let c = after_brace(ls, 3 + n);
    assert(lines[3 + n] == Some(ls[3 + n]));
    assert(ls[3 + n] =~= seq!['}', '\r', '\n']);
    assert(line_len(lines[3 + n]) < usize::MAX);
    assert(cursor_ok(lines, c));
    lemma_rest_mono(lines, 0, 3 + n);
    assert(kv_rest(lines, 3 + n) == line_len(lines[3 + n]) + 1 + kv_rest(lines, 4 + n));
}

/// After the closing brace and the empty line, the text ends.
proof fn lemma_lone_end(x: KvIn, ft: spec_fn(u32) -> Seq<char>, ev: ElementView, s4: KvState)
    requires
        x.lines == held_lines(lone_lines(ft, ev)),
        lines_ok(x.lines),
        s4.c == after_brace(lone_lines(ft, ev), 3 + off(ft, ev, ev.attributes.len() as int)),
    ensures
        kv_elements(x, s4, Some(0usize)) matches Ok((s5, r)) && s5.g == s4.g && s5.ids == s4.ids && s5.remaps
            == s4.remaps && r == Some(0usize),
{
    let ls = lone_lines(ft, ev);
    let lines = x.lines;
    let n = off(ft, ev, ev.attributes.len() as int);
    assert(lines[3 + n] == Some(ls[3 + n]));
    assert(ls[3 + n] =~= seq!['}', '\r', '\n']);
    assert(line_len(lines[3 + n]) < usize::MAX);
    assert(cursor_ok(lines, s4.c));
    assert(rest_ws(s4.c));
    lemma_next_line(lines, s4.c);
    let c5 = line_start(ls, 4 + n);
    assert(next_start(lines, s4.c) == c5);
    assert(ls[4 + n] =~= seq!['\r', '\n']);
    assert(lines[4 + n] == Some(ls[4 + n]));
    assert(line_len(lines[4 + n]) < usize::MAX);
    assert(rest_ws(c5));
    lemma_end_of_text(lines, c5);
    let c6 = kv_next_token(lines, s4.c)->Ok_0.1;
    assert(kv_element(x, s4) == Ok::<(KvState, Option<usize>), KeyValues2SerializationError>((at(s4, c6), None)));
}

/// Reading the text of an element that refers to no other gives it back.
proof fn lemma_read_lone(x: KvIn, ft: spec_fn(u32) -> Seq<char>, ev: ElementView, k: UuidBytes)
    requires
        x.lines == held_lines(lone_lines(ft, ev)),
        lines_ok(x.lines),
        crlf_lines(lone_lines(ft, ev)),
        floats_read_back(ft, x.ft),
        forall|j: int| 0 <= j < ev.attributes.len() ==> attr_reads_back(ft, #[trigger] ev.attributes[j]),
        forall|j: int| 0 <= j < ev.attributes.len() ==> !((#[trigger] ev.attributes[j]).0 == "name"@ && !(ev.attributes[j].1 is String)),
        unique_keys(ev.attributes),
        line_safe(ev.class),
        ev.class != "$prefix_element$"@,
        parsed_uuid(uuid_text(ev.id)) == Some(k),
        k@ == ev.id,
    ensures
        kv_read(x) == Ok::<(Seq<ElementView>, usize), KeyValues2SerializationError>((seq![ev], 0usize)),
{
    let ls = lone_lines(ft, ev);
    let n = ev.attributes.len() as int;
    let ids = lemma_lone_head(x, ft, ev, k);
    lemma_attr_lines_read(x, ft, ev, ids, 0);
    let s4 = at(lone_state(ft, ev, ids, n), after_brace(ls, 3 + off(ft, ev, n)));
    let s0 = kv_state_start();
    assert(kv_element(x, s0) == Ok::<(KvState, Option<usize>), KeyValues2SerializationError>((s4, Some(0usize))));
    assert(s4.g[0].class == ev.class);
    lemma_lone_advanced(x, ft, ev);
    lemma_lone_end(x, ft, ev, s4);
    let s5 = kv_elements(x, s4, Some(0usize))->Ok_0.0;
    assert(kv_elements(x, s0, None) == kv_elements(x, s4, Some(0usize)));
    assert(ev.attributes.take(n) =~= ev.attributes);
    assert(s5.g =~= seq![ev]);
    assert(s5.remaps == Seq::<KvRemap>::empty());
    assert(kv_apply(s5.g, s5.ids, s5.remaps) == s5.g);
}

// ---------------------------------------------------------------------------
// The law
// ---------------------------------------------------------------------------

/// Each line is at most as long as all of them, and there are at most as
/// many lines as characters.
proof fn lemma_concat_len(ls: Seq<Seq<char>>)
    requires
        forall|i: int| 0 <= i < ls.len() ==> (#[trigger] ls[i]).len() > 0,
    ensures
        ls.len() <= concat_lines(ls).len(),
        forall|i: int| 0 <= i < ls.len() ==> (#[trigger] ls[i]).len() <= concat_lines(ls).len(),
    decreases ls.len(),
{
    if ls.len() > 0 {
        let r = ls.drop_first();
        assert forall|i: int| 0 <= i < r.len() implies (#[trigger] r[i]).len() > 0 by {
            assert(r[i] == ls[i + 1]);
        }
        lemma_concat_len(r);
        assert forall|i: int| 0 <= i < ls.len() implies (#[trigger] ls[i]).len() <= concat_lines(ls).len() by {
            if i > 0 {
                assert(ls[i] == r[i - 1]);
            }
        }
    }
}

/// A line that ends with a carriage return and a line feed and holds no
/// other line feed.
pub open spec fn crlf_line(l: Seq<char>) -> bool {
    l.len() >= 2 && l[l.len() - 2] == '\r' && l.last() == '\n' && no_newline(l.drop_last())
}

/// Quotes around a text without line feeds hold none.
proof fn lemma_quoted_no_newline(t: Seq<char>)
    requires
        no_newline(t),
    ensures
        no_newline(quoted(t)),
{
    let q = seq!['"'];
    assert(no_newline(q));
    lemma_no_newline_add(q, t);
    lemma_no_newline_add(q + t, q);
}

/// The lines of an attribute that reads back are such lines.
proof fn lemma_block_good(ft: spec_fn(u32) -> Seq<char>, rf: spec_fn(Seq<char>) -> Option<u32>, a: (Seq<char>, SpecAttributeValue))
    requires
        floats_read_back(ft, rf),
        attr_reads_back(ft, a),
    ensures
        forall|m: int| 0 <= m < attr_block(ft, a).len() ==> crlf_line(#[trigger] attr_block(ft, a)[m]),
{
    let kt = KvText { g: seq![], c: seq![], top: seq![], ft, tt: |v: i32| Seq::<char>::empty() };
    let blk = attr_block(ft, a);
    match array_items(a.1) {
        Some(vs) => {
            lemma_array_kind(kt, 1, a.0, a.1);
            let aty = kv_type_name(spec_type_of(a.1));
            lemma_safe_plain(aty);
            lemma_escape_no_newline(a.0);
            lemma_quoted_no_newline(escape(a.0));
            lemma_quoted_no_newline(aty);
            assert(no_newline(tabs(1)));
            assert(no_newline(tabs(2)));
            assert(no_newline(sp()));
            lemma_no_newline_add(quoted(escape(a.0)), sp());
            lemma_no_newline_add(quoted(escape(a.0)) + sp(), quoted(aty));
            lemma_no_newline_add(tabs(1), quoted(escape(a.0)) + sp() + quoted(aty));
            lemma_crlf_line(tabs(1) + (quoted(escape(a.0)) + sp() + quoted(aty)));
            assert(no_newline(tabs(1) + seq!['[']));
            assert(no_newline(tabs(1) + seq![']']));
            lemma_crlf_line(tabs(1) + seq!['[']);
            lemma_crlf_line(tabs(1) + seq![']']);
            let n = vs.len() as int;
            assert forall|m: int| 0 <= m < blk.len() implies crlf_line(#[trigger] blk[m]) by {
                if 2 <= m < 2 + n {
                    let w = vs[m - 2];
                    assert(line_reads_back(ft, (seq![], w)));
                    lemma_value_line(kt, rf, |t: Seq<char>| ParsedTime::Invalid, 1, (Seq::<char>::empty(), w), 0, 0);
                    let ev = escape(value_text(ft, w));
                    lemma_escape_no_newline(value_text(ft, w));
                    lemma_quoted_no_newline(ev);
                    let last = m - 2 + 1 == n;
                    assert(no_newline(comma(last)));
                    lemma_no_newline_add(quoted(ev), comma(last));
                    lemma_no_newline_add(tabs(2), quoted(ev) + comma(last));
                    lemma_crlf_line(tabs(2) + (quoted(ev) + comma(last)));
                    assert(blk[m] == item_lines(2, ft, vs)[m - 2]);
                }
            }
        },
        None => {
            if a.1 == SpecAttributeValue::Element(None) {
                lemma_element_name();
                lemma_safe_plain("element"@);
                lemma_escape_no_newline(a.0);
                lemma_quoted_no_newline(escape(a.0));
                lemma_quoted_no_newline("element"@);
                assert(escape(Seq::<char>::empty()) == Seq::<char>::empty());
                lemma_quoted_no_newline(Seq::<char>::empty());
                assert(no_newline(tabs(1)));
                assert(no_newline(sp()));
                let q1 = quoted(escape(a.0));
                let q2 = quoted("element"@);
                let q3 = quoted(escape(Seq::<char>::empty()));
                lemma_no_newline_add(tabs(1), q1);
                lemma_no_newline_add(tabs(1) + q1, sp());
                lemma_no_newline_add(tabs(1) + q1 + sp(), q2);
                lemma_no_newline_add(tabs(1) + q1 + sp() + q2, sp());
                lemma_no_newline_add(tabs(1) + q1 + sp() + q2 + sp(), q3);
                reveal_strlit("element");
                assert(kv_type_name(spec_type_of(a.1)) == "element"@);
            } else {
                lemma_value_line(kt, rf, |t: Seq<char>| ParsedTime::Invalid, 1, a, 0, 0);
            }
            lemma_crlf_line(attribute_line(1, a.0, kv_type_name(spec_type_of(a.1)), value_text(ft, a.1)));
        },
    }
}

/// The lines of the first `k` attributes are such lines.
proof fn lemma_blocks_good(ft: spec_fn(u32) -> Seq<char>, rf: spec_fn(Seq<char>) -> Option<u32>, attrs: Seq<(Seq<char>, SpecAttributeValue)>, k: nat)
    requires
        k <= attrs.len(),
        floats_read_back(ft, rf),
        forall|j: int| 0 <= j < attrs.len() ==> attr_reads_back(ft, #[trigger] attrs[j]),
    ensures
        forall|j: int| 0 <= j < blocks_lines(ft, attrs, k).len() ==> crlf_line(#[trigger] blocks_lines(ft, attrs, k)[j]),
    decreases k,
{
    if k > 0 {
        lemma_blocks_good(ft, rf, attrs, (k - 1) as nat);
        assert(attr_reads_back(ft, attrs[k - 1]));
        lemma_block_good(ft, rf, attrs[k - 1]);
        let pre = blocks_lines(ft, attrs, (k - 1) as nat);
        let b = attr_block(ft, attrs[k - 1]);
        assert forall|j: int| 0 <= j < (pre + b).len() implies crlf_line(#[trigger] (pre + b)[j]) by {
            if j < pre.len() {
                assert((pre + b)[j] == pre[j]);
            } else {
                assert((pre + b)[j] == b[j - pre.len()]);
            }
        }
    }
}

/// The lines of an element that stands alone end with a carriage return and
/// a line feed and hold no other line feed.
proof fn lemma_lone_lines_ok(ft: spec_fn(u32) -> Seq<char>, rf: spec_fn(Seq<char>) -> Option<u32>, ev: ElementView)
    requires
        floats_read_back(ft, rf),
        forall|j: int| 0 <= j < ev.attributes.len() ==> attr_reads_back(ft, #[trigger] ev.attributes[j]),
        line_safe(ev.class),
    ensures
        text_lines_ok(lone_lines(ft, ev)),
        crlf_lines(lone_lines(ft, ev)),
{
    reveal_strlit("id");
    reveal_strlit("elementid");
    let ls = lone_lines(ft, ev);
    let bl = blocks_lines(ft, ev.attributes, ev.attributes.len());
    let n = bl.len() as int;
    lemma_blocks_good(ft, rf, ev.attributes, ev.attributes.len());
    let ec = escape(ev.class);
    lemma_escape_no_newline(ev.class);
    let q = seq!['"'];
    assert(no_newline(q));
    assert(no_newline(tabs(0)));
    assert(no_newline(tabs(1)));
    lemma_no_newline_add(q, ec);
    lemma_no_newline_add(q + ec, q);
    lemma_no_newline_add(tabs(0), quoted(ec));
    lemma_uuid_text_safe(ev.id);
    lemma_safe_plain(uuid_text(ev.id));
    assert(safe_text("id"@));
    assert(safe_text("elementid"@));
    lemma_safe_plain("id"@);
    lemma_safe_plain("elementid"@);
    assert(no_newline(sp()));
    let i1 = quoted("id"@);
    let i2 = quoted("elementid"@);
    let i3 = quoted(uuid_text(ev.id));
    lemma_no_newline_add(q, "id"@);
    lemma_no_newline_add(q + "id"@, q);
    lemma_no_newline_add(q, "elementid"@);
    lemma_no_newline_add(q + "elementid"@, q);
    lemma_no_newline_add(q, uuid_text(ev.id));
    lemma_no_newline_add(q + uuid_text(ev.id), q);
    lemma_no_newline_add(i1, sp());
    lemma_no_newline_add(i1 + sp(), i2);
    lemma_no_newline_add(i1 + sp() + i2, sp());
    lemma_no_newline_add(i1 + sp() + i2 + sp(), i3);
    lemma_no_newline_add(tabs(1), id_line(ev.id));
    assert(no_newline(tabs(0) + seq!['{']));
    assert(no_newline(tabs(0) + seq!['}']));
    assert(no_newline(tabs(0) + Seq::<char>::empty()));
    lemma_crlf_line(tabs(0) + quoted(ec));
    lemma_crlf_line(tabs(0) + seq!['{']);
    lemma_crlf_line(tabs(1) + id_line(ev.id));
    lemma_crlf_line(tabs(0) + seq!['}']);
    lemma_crlf_line(tabs(0) + Seq::<char>::empty());
    assert forall|j: int| 0 <= j < ls.len() implies crlf_line(#[trigger] ls[j]) by {
        if 3 <= j < 3 + n {
            assert(ls[j] == bl[j - 3]);
        }
    }
    assert forall|j: int| 0 <= j < ls.len() implies (#[trigger] ls[j]).len() >= 2 && ls[j][ls[j].len() - 2] == '\r'
        && ls[j].last() == '\n' && no_newline(ls[j].drop_last()) by {
        assert(crlf_line(ls[j]));
    }
}

/// Reading back a written KeyValues2 document of one element: when the
/// root's attributes each hold a value that the writer puts on one line (an
/// integer, a float, a boolean, a string, an element id, a color, a vector,
/// an angle, a quaternion, a `u64` or a byte), an array of such values or
/// an empty element reference (and no element id attribute is named "id"),
/// so that the
/// root refers to no other element, the text after the header line reads
/// back, in both
/// KeyValues2 encodings, as the root alone: same class, same id, same
/// attributes in the same order. This holds whatever ids the reader has for
/// new elements. It needs the root's class, its attribute names and its
/// strings (in arrays too) to stay on their lines and to read back from their escaped form,
/// the class not to be `$prefix_element$`, the writer's number texts to read
/// back through the reader's number function, and the text of the root's id
/// and of each element id value to parse as that id.
pub proof fn law_kv2_lone_element_round_trip(
    header: Seq<char>,
    g: Seq<ElementView>,
    root: usize,
    version: i32,
    flat: bool,
    ft: spec_fn(u32) -> Seq<char>,
    tt: spec_fn(i32) -> Seq<char>,
    rf: spec_fn(Seq<char>) -> Option<u32>,
    rt: spec_fn(Seq<char>) -> ParsedTime,
    ids: Seq<UuidBytes>,
)
    requires
        root < g.len(),
        forall|i: int| 0 <= i < g[root as int].attributes.len() ==> attr_reads_back(ft, #[trigger] g[root as int].attributes[i]),
        unique_keys(g[root as int].attributes),
        line_safe(g[root as int].class),
        g[root as int].class != "$prefix_element$"@,
        parsed_uuid(uuid_text(g[root as int].id)) matches Some(k) && k@ == g[root as int].id,
        floats_read_back(ft, rf),
        encode_kv2(header, g, root, version, flat, ft, tt) matches Ok(t) && t.len() < usize::MAX,
    ensures
        ({
            let t = encode_kv2(header, g, root, version, flat, ft, tt)->Ok_0;
            let d = vstd::utf8::encode_utf8(t.skip(header.len() as int));
            &&& t.take(header.len() as int) == header
            &&& decode_kv2(d, keyvalues2_name(), version, ids, rf, rt) == Ok::<
                (Seq<ElementView>, usize),
                KeyValues2SerializationError,
            >((seq![g[root as int]], 0usize))
            &&& decode_kv2_flat(d, keyvalues2_flat_name(), version, ids, rf, rt) == Ok::<
                (Seq<ElementView>, usize),
                KeyValues2SerializationError,
            >((seq![g[root as int]], 0usize))
        }),
{
    let ev = g[root as int];
    let k = parsed_uuid(uuid_text(ev.id))->Some_0;
    lemma_encode_lone(header, g, root, version, flat, ft, tt, rf);
    let ls = lone_lines(ft, ev);
    let t = encode_kv2(header, g, root, version, flat, ft, tt)->Ok_0;
    assert(t.take(header.len() as int) =~= header);
    assert(t.skip(header.len() as int) =~= concat_lines(ls));
    lemma_lone_lines_ok(ft, rf, ev);
    lemma_kv_lines_of(ls);
    let d = vstd::utf8::encode_utf8(concat_lines(ls));
    assert(kv_lines(d) == held_lines(ls));
    assert forall|i: int| 0 <= i < ls.len() implies (#[trigger] ls[i]).len() > 0 by {
        assert(text_lines_ok(ls));
    }
    lemma_concat_len(ls);
    let lines = held_lines(ls);
    assert(lines_ok(lines)) by {
        assert forall|i: int| 0 <= i < lines.len() implies line_len(#[trigger] lines[i]) < usize::MAX by {
            assert(lines[i] == Some(ls[i]));
            assert(ls[i].len() <= concat_lines(ls).len());
        }
    }
    let x = KvIn { lines, ids, ft: rf, tt: rt };
    lemma_read_lone(x, ft, ev, k);
}

// ---------------------------------------------------------------------------
// Arrays of one-line values
// ---------------------------------------------------------------------------

/// The items of an array of one-line values, each as a single value.
pub open spec fn array_items(v: SpecAttributeValue) -> Option<Seq<SpecAttributeValue>> {
    match v {
        SpecAttributeValue::IntegerArray(xs) => Some(xs.map_values(|e: i32| SpecAttributeValue::Integer(e))),
        SpecAttributeValue::FloatArray(xs) => Some(xs.map_values(|e: u32| SpecAttributeValue::Float(e))),
        SpecAttributeValue::BooleanArray(xs) => Some(xs.map_values(|e: bool| SpecAttributeValue::Boolean(e))),
        SpecAttributeValue::StringArray(xs) => Some(xs.map_values(|e: Seq<char>| SpecAttributeValue::String(e))),
        SpecAttributeValue::ColorArray(xs) => Some(xs.map_values(|e: Color| SpecAttributeValue::Color(e))),
        SpecAttributeValue::Vector2Array(xs) => Some(xs.map_values(|e: Vector2| SpecAttributeValue::Vector2(e))),
        SpecAttributeValue::Vector3Array(xs) => Some(xs.map_values(|e: Vector3| SpecAttributeValue::Vector3(e))),
        SpecAttributeValue::Vector4Array(xs) => Some(xs.map_values(|e: Vector4| SpecAttributeValue::Vector4(e))),
        SpecAttributeValue::AngleArray(xs) => Some(xs.map_values(|e: Angle| SpecAttributeValue::Angle(e))),
        SpecAttributeValue::QuaternionArray(xs) => Some(xs.map_values(|e: Quaternion| SpecAttributeValue::Quaternion(e))),
        SpecAttributeValue::ULongArray(xs) => Some(xs.map_values(|e: u64| SpecAttributeValue::ULong(e))),
        SpecAttributeValue::UByteArray(xs) => Some(xs.map_values(|e: u8| SpecAttributeValue::UByte(e))),
        SpecAttributeValue::ObjectIdArray(xs) => Some(xs.map_values(|e: Seq<u8>| SpecAttributeValue::ObjectId(e))),
        _ => None,
    }
}

/// The array of the first `k` items.
pub open spec fn array_take(v: SpecAttributeValue, k: int) -> SpecAttributeValue {
    match v {
        SpecAttributeValue::IntegerArray(xs) => SpecAttributeValue::IntegerArray(xs.take(k)),
        SpecAttributeValue::FloatArray(xs) => SpecAttributeValue::FloatArray(xs.take(k)),
        SpecAttributeValue::BooleanArray(xs) => SpecAttributeValue::BooleanArray(xs.take(k)),
        SpecAttributeValue::StringArray(xs) => SpecAttributeValue::StringArray(xs.take(k)),
        SpecAttributeValue::ColorArray(xs) => SpecAttributeValue::ColorArray(xs.take(k)),
        SpecAttributeValue::Vector2Array(xs) => SpecAttributeValue::Vector2Array(xs.take(k)),
        SpecAttributeValue::Vector3Array(xs) => SpecAttributeValue::Vector3Array(xs.take(k)),
        SpecAttributeValue::Vector4Array(xs) => SpecAttributeValue::Vector4Array(xs.take(k)),
        SpecAttributeValue::AngleArray(xs) => SpecAttributeValue::AngleArray(xs.take(k)),
        SpecAttributeValue::QuaternionArray(xs) => SpecAttributeValue::QuaternionArray(xs.take(k)),
        SpecAttributeValue::ULongArray(xs) => SpecAttributeValue::ULongArray(xs.take(k)),
        SpecAttributeValue::UByteArray(xs) => SpecAttributeValue::UByteArray(xs.take(k)),
        SpecAttributeValue::ObjectIdArray(xs) => SpecAttributeValue::ObjectIdArray(xs.take(k)),
        _ => v,
    }
}

/// The type name of the items of an array.
pub open spec fn array_single(v: SpecAttributeValue) -> Seq<char> {
    match v {
        SpecAttributeValue::IntegerArray(_) => "int"@,
        SpecAttributeValue::FloatArray(_) => "float"@,
        SpecAttributeValue::BooleanArray(_) => "bool"@,
        SpecAttributeValue::StringArray(_) => "string"@,
        SpecAttributeValue::ColorArray(_) => "color"@,
        SpecAttributeValue::Vector2Array(_) => "vector2"@,
        SpecAttributeValue::Vector3Array(_) => "vector3"@,
        SpecAttributeValue::Vector4Array(_) => "vector4"@,
        SpecAttributeValue::AngleArray(_) => "qangle"@,
        SpecAttributeValue::QuaternionArray(_) => "quaternion"@,
        SpecAttributeValue::ULongArray(_) => "uint64"@,
        SpecAttributeValue::UByteArray(_) => "uint8"@,
        SpecAttributeValue::ObjectIdArray(_) => "elementid"@,
        _ => seq![],
    }
}

/// The item lines of an array, at indentation `t`.
pub open spec fn item_lines(t: nat, ft: spec_fn(u32) -> Seq<char>, vs: Seq<SpecAttributeValue>) -> Seq<Seq<char>> {
    Seq::new(vs.len(), |j: int| item(t, escape(value_text(ft, vs[j])), j + 1 == vs.len()))
}

/// The first `k` items that the writer writes are their item lines.
proof fn lemma_items_lines<T>(t: nat, xs: Seq<T>, f: spec_fn(T) -> Seq<char>, k: nat)
    requires
        k <= xs.len(),
    ensures
        items(t, xs, f, k) == concat_lines(Seq::new(k, |j: int| item(t, f(xs[j]), j + 1 == xs.len()))),
    decreases k,
{
    let ls = Seq::new(k, |j: int| item(t, f(xs[j]), j + 1 == xs.len()));
    if k == 0 {
        assert(ls =~= Seq::<Seq<char>>::empty());
        assert(concat_lines(ls) == Seq::<char>::empty());
    } else {
        lemma_items_lines(t, xs, f, (k - 1) as nat);
        let pre = Seq::new((k - 1) as nat, |j: int| item(t, f(xs[j]), j + 1 == xs.len()));
        assert(ls =~= pre + seq![ls[k - 1]]);
        lemma_concat_add(pre, seq![ls[k - 1]]);
        lemma_concat_one(ls[k - 1]);
    }
}

/// What the writer writes for an array of one-line values, and how the
/// reader builds it up item by item.
pub open spec fn array_facts(x: KvText, t: nat, name: Seq<char>, v: SpecAttributeValue) -> bool {
    let vs = array_items(v)->0;
    &&& kv_plain(x, t, name, v) == array_text(t, name, kv_type_name(spec_type_of(v)), concat_lines(item_lines(t + 1, x.ft, vs)))
    &&& array_take(v, vs.len() as int) == v
    &&& forall|j: int| 0 <= j < vs.len() ==> push_item(array_take(v, j), #[trigger] vs[j]) == array_take(v, j + 1)
    &&& forall|j: int| 0 <= j < vs.len() ==> one_line_value(x.ft, #[trigger] vs[j]) && kv_type_name(spec_type_of(vs[j])) == array_single(v)
}

/// The type names of an array of one-line values: the reader starts it
/// empty with the type of its items, and the name is no single type.
pub open spec fn array_names(v: SpecAttributeValue) -> bool {
    &&& array_start(kv_type_name(spec_type_of(v))) == Some((array_single(v), array_take(v, 0)))
    &&& safe_text(kv_type_name(spec_type_of(v)))
    &&& !is_value_type(kv_type_name(spec_type_of(v)))
    &&& is_value_type(array_single(v))
    &&& safe_text(array_single(v))
    &&& kv_type_name(spec_type_of(v)) != "string"@
    &&& kv_type_name(spec_type_of(v)) != "elementid"@
    &&& kv_type_name(spec_type_of(v)) != "element"@
    &&& kv_type_name(spec_type_of(v)) != "element_array"@
}

proof fn lemma_integer_array_text(x: KvText, t: nat, name: Seq<char>, xs: Seq<i32>)
    requires
        forall|b: u32| safe_text(#[trigger] (x.ft)(b)),
    ensures
        array_facts(x, t, name, SpecAttributeValue::IntegerArray(xs)),
{
    reveal(kv_plain);
    let v = SpecAttributeValue::IntegerArray(xs);
    let vs = array_items(v)->0;
    let ff = |e: i32| int_decimal(e as int);
    lemma_items_lines(t + 1, xs, ff, xs.len());
    assert forall|j: int| 0 <= j < xs.len() implies ff(xs[j]) == escape(value_text(x.ft, #[trigger] vs[j])) by {
        assert(vs[j] == SpecAttributeValue::Integer(xs[j]));
        lemma_value_text_safe(x.ft, vs[j]);
        lemma_safe_plain(value_text(x.ft, vs[j]));
    }
    assert(item_lines(t + 1, x.ft, vs) =~= Seq::new(xs.len(), |j: int| item(t + 1, ff(xs[j]), j + 1 == xs.len())));
    assert forall|j: int| 0 <= j < vs.len() implies push_item(array_take(v, j), #[trigger] vs[j]) == array_take(v, j + 1) by {
        assert(xs.take(j).push(xs[j]) =~= xs.take(j + 1));
    }
    assert(xs.take(xs.len() as int) =~= xs);
    reveal_strlit("int");
}

proof fn lemma_integer_array_names(xs: Seq<i32>)
    ensures
        array_names(SpecAttributeValue::IntegerArray(xs)),
{
    reveal_strlit("int");
    reveal_strlit("int_array");
    reveal_strlit("float");
    reveal_strlit("float_array");
    reveal_strlit("bool");
    reveal_strlit("bool_array");
    reveal_strlit("string");
    reveal_strlit("string_array");
    reveal_strlit("binary");
    reveal_strlit("binary_array");
    reveal_strlit("elementid");
    reveal_strlit("elementid_array");
    reveal_strlit("time");
    reveal_strlit("time_array");
    reveal_strlit("color");
    reveal_strlit("color_array");
    reveal_strlit("vector2");
    reveal_strlit("vector2_array");
    reveal_strlit("vector3");
    reveal_strlit("vector3_array");
    reveal_strlit("vector4");
    reveal_strlit("vector4_array");
    reveal_strlit("qangle");
    reveal_strlit("qangle_array");
    reveal_strlit("quaternion");
    reveal_strlit("quaternion_array");
    reveal_strlit("matrix");
    reveal_strlit("matrix_array");
    reveal_strlit("uint64");
    reveal_strlit("uint64_array");
    reveal_strlit("uint8");
    reveal_strlit("uint8_array");
    reveal_strlit("element");
    reveal_strlit("element_array");
    let v = SpecAttributeValue::IntegerArray(xs);
    assert(xs.take(0) =~= Seq::<i32>::empty());
    let aty = kv_type_name(spec_type_of(v));
    assert(aty.len() != "int"@.len());
    assert(aty.len() != "float"@.len());
    assert(aty.len() != "bool"@.len());
    assert(aty.len() != "string"@.len());
    assert(aty.len() != "binary"@.len());
    assert(aty[0] != "elementid"@[0]);
    assert(aty.len() != "time"@.len());
    assert(aty.len() != "color"@.len());
    assert(aty.len() != "vector2"@.len());
    assert(aty.len() != "vector3"@.len());
    assert(aty.len() != "vector4"@.len());
    assert(aty.len() != "qangle"@.len());
    assert(aty.len() != "quaternion"@.len());
    assert(aty.len() != "matrix"@.len());
    assert(aty.len() != "uint64"@.len());
    assert(aty.len() != "uint8"@.len());
    assert(aty.len() != "element"@.len());
    assert(aty.len() != "element_array"@.len());
    assert(aty.len() != "float_array"@.len());
    assert(aty.len() != "bool_array"@.len());
    assert(aty.len() != "string_array"@.len());
    assert(aty.len() != "binary_array"@.len());
    assert(aty.len() != "elementid_array"@.len());
    assert(aty.len() != "time_array"@.len());
    assert(aty.len() != "color_array"@.len());
    assert(aty.len() != "vector2_array"@.len());
    assert(aty.len() != "vector3_array"@.len());
    assert(aty.len() != "vector4_array"@.len());
    assert(aty.len() != "qangle_array"@.len());
    assert(aty.len() != "quaternion_array"@.len());
    assert(aty.len() != "matrix_array"@.len());
    assert(aty.len() != "uint64_array"@.len());
    assert(aty.len() != "uint8_array"@.len());
    assert(safe_text(aty));
    assert(safe_text(array_single(v)));
}

proof fn lemma_float_array_text(x: KvText, t: nat, name: Seq<char>, xs: Seq<u32>)
    requires
        forall|b: u32| safe_text(#[trigger] (x.ft)(b)),
    ensures
        array_facts(x, t, name, SpecAttributeValue::FloatArray(xs)),
{
    reveal(kv_plain);
    let v = SpecAttributeValue::FloatArray(xs);
    let vs = array_items(v)->0;
    let ff = x.ft;
    lemma_items_lines(t + 1, xs, ff, xs.len());
    assert forall|j: int| 0 <= j < xs.len() implies ff(xs[j]) == escape(value_text(x.ft, #[trigger] vs[j])) by {
        assert(vs[j] == SpecAttributeValue::Float(xs[j]));
        lemma_value_text_safe(x.ft, vs[j]);
        lemma_safe_plain(value_text(x.ft, vs[j]));
    }
    assert(item_lines(t + 1, x.ft, vs) =~= Seq::new(xs.len(), |j: int| item(t + 1, ff(xs[j]), j + 1 == xs.len())));
    assert forall|j: int| 0 <= j < vs.len() implies push_item(array_take(v, j), #[trigger] vs[j]) == array_take(v, j + 1) by {
        assert(xs.take(j).push(xs[j]) =~= xs.take(j + 1));
    }
    assert(xs.take(xs.len() as int) =~= xs);
    reveal_strlit("float");
}

proof fn lemma_float_array_names(xs: Seq<u32>)
    ensures
        array_names(SpecAttributeValue::FloatArray(xs)),
{
    reveal_strlit("int");
    reveal_strlit("int_array");
    reveal_strlit("float");
    reveal_strlit("float_array");
    reveal_strlit("bool");
    reveal_strlit("bool_array");
    reveal_strlit("string");
    reveal_strlit("string_array");
    reveal_strlit("binary");
    reveal_strlit("binary_array");
    reveal_strlit("elementid");
    reveal_strlit("elementid_array");
    reveal_strlit("time");
    reveal_strlit("time_array");
    reveal_strlit("color");
    reveal_strlit("color_array");
    reveal_strlit("vector2");
    reveal_strlit("vector2_array");
    reveal_strlit("vector3");
    reveal_strlit("vector3_array");
    reveal_strlit("vector4");
    reveal_strlit("vector4_array");
    reveal_strlit("qangle");
    reveal_strlit("qangle_array");
    reveal_strlit("quaternion");
    reveal_strlit("quaternion_array");
    reveal_strlit("matrix");
    reveal_strlit("matrix_array");
    reveal_strlit("uint64");
    reveal_strlit("uint64_array");
    reveal_strlit("uint8");
    reveal_strlit("uint8_array");
    reveal_strlit("element");
    reveal_strlit("element_array");
    let v = SpecAttributeValue::FloatArray(xs);
    assert(xs.take(0) =~= Seq::<u32>::empty());
    let aty = kv_type_name(spec_type_of(v));
    assert(aty.len() != "int"@.len());
    assert(aty.len() != "float"@.len());
    assert(aty.len() != "bool"@.len());
    assert(aty.len() != "string"@.len());
    assert(aty.len() != "binary"@.len());
    assert(aty.len() != "elementid"@.len());
    assert(aty.len() != "time"@.len());
    assert(aty.len() != "color"@.len());
    assert(aty.len() != "vector2"@.len());
    assert(aty.len() != "vector3"@.len());
    assert(aty.len() != "vector4"@.len());
    assert(aty.len() != "qangle"@.len());
    assert(aty.len() != "quaternion"@.len());
    assert(aty.len() != "matrix"@.len());
    assert(aty.len() != "uint64"@.len());
    assert(aty.len() != "uint8"@.len());
    assert(aty.len() != "element"@.len());
    assert(aty.len() != "element_array"@.len());
    assert(aty.len() != "int_array"@.len());
    assert(aty.len() != "bool_array"@.len());
    assert(aty.len() != "string_array"@.len());
    assert(aty.len() != "binary_array"@.len());
    assert(aty.len() != "elementid_array"@.len());
    assert(aty.len() != "time_array"@.len());
    assert(aty[0] != "color_array"@[0]);
    assert(aty.len() != "vector2_array"@.len());
    assert(aty.len() != "vector3_array"@.len());
    assert(aty.len() != "vector4_array"@.len());
    assert(aty.len() != "qangle_array"@.len());
    assert(aty.len() != "quaternion_array"@.len());
    assert(aty.len() != "matrix_array"@.len());
    assert(aty.len() != "uint64_array"@.len());
    assert(aty[0] != "uint8_array"@[0]);
    assert(safe_text(aty));
    assert(safe_text(array_single(v)));
}

proof fn lemma_boolean_array_text(x: KvText, t: nat, name: Seq<char>, xs: Seq<bool>)
    requires
        forall|b: u32| safe_text(#[trigger] (x.ft)(b)),
    ensures
        array_facts(x, t, name, SpecAttributeValue::BooleanArray(xs)),
{
    reveal(kv_plain);
    let v = SpecAttributeValue::BooleanArray(xs);
    let vs = array_items(v)->0;
    let ff = |b: bool| bool_text(b);
    lemma_items_lines(t + 1, xs, ff, xs.len());
    assert forall|j: int| 0 <= j < xs.len() implies ff(xs[j]) == escape(value_text(x.ft, #[trigger] vs[j])) by {
        assert(vs[j] == SpecAttributeValue::Boolean(xs[j]));
        lemma_value_text_safe(x.ft, vs[j]);
        lemma_safe_plain(value_text(x.ft, vs[j]));
    }
    assert(item_lines(t + 1, x.ft, vs) =~= Seq::new(xs.len(), |j: int| item(t + 1, ff(xs[j]), j + 1 == xs.len())));
    assert forall|j: int| 0 <= j < vs.len() implies push_item(array_take(v, j), #[trigger] vs[j]) == array_take(v, j + 1) by {
        assert(xs.take(j).push(xs[j]) =~= xs.take(j + 1));
    }
    assert(xs.take(xs.len() as int) =~= xs);
    reveal_strlit("bool");
}

proof fn lemma_boolean_array_names(xs: Seq<bool>)
    ensures
        array_names(SpecAttributeValue::BooleanArray(xs)),
{
    reveal_strlit("int");
    reveal_strlit("int_array");
    reveal_strlit("float");
    reveal_strlit("float_array");
    reveal_strlit("bool");
    reveal_strlit("bool_array");
    reveal_strlit("string");
    reveal_strlit("string_array");
    reveal_strlit("binary");
    reveal_strlit("binary_array");
    reveal_strlit("elementid");
    reveal_strlit("elementid_array");
    reveal_strlit("time");
    reveal_strlit("time_array");
    reveal_strlit("color");
    reveal_strlit("color_array");
    reveal_strlit("vector2");
    reveal_strlit("vector2_array");
    reveal_strlit("vector3");
    reveal_strlit("vector3_array");
    reveal_strlit("vector4");
    reveal_strlit("vector4_array");
    reveal_strlit("qangle");
    reveal_strlit("qangle_array");
    reveal_strlit("quaternion");
    reveal_strlit("quaternion_array");
    reveal_strlit("matrix");
    reveal_strlit("matrix_array");
    reveal_strlit("uint64");
    reveal_strlit("uint64_array");
    reveal_strlit("uint8");
    reveal_strlit("uint8_array");
    reveal_strlit("element");
    reveal_strlit("element_array");
    let v = SpecAttributeValue::BooleanArray(xs);
    assert(xs.take(0) =~= Seq::<bool>::empty());
    let aty = kv_type_name(spec_type_of(v));
    assert(aty.len() != "int"@.len());
    assert(aty.len() != "float"@.len());
    assert(aty.len() != "bool"@.len());
    assert(aty.len() != "string"@.len());
    assert(aty.len() != "binary"@.len());
    assert(aty.len() != "elementid"@.len());
    assert(aty.len() != "time"@.len());
    assert(aty.len() != "color"@.len());
    assert(aty.len() != "vector2"@.len());
    assert(aty.len() != "vector3"@.len());
    assert(aty.len() != "vector4"@.len());
    assert(aty.len() != "qangle"@.len());
    assert(aty[0] != "quaternion"@[0]);
    assert(aty.len() != "matrix"@.len());
    assert(aty.len() != "uint64"@.len());
    assert(aty.len() != "uint8"@.len());
    assert(aty.len() != "element"@.len());
    assert(aty.len() != "element_array"@.len());
    assert(aty.len() != "int_array"@.len());
    assert(aty.len() != "float_array"@.len());
    assert(aty.len() != "string_array"@.len());
    assert(aty.len() != "binary_array"@.len());
    assert(aty.len() != "elementid_array"@.len());
    assert(aty[0] != "time_array"@[0]);
    assert(aty.len() != "color_array"@.len());
    assert(aty.len() != "vector2_array"@.len());
    assert(aty.len() != "vector3_array"@.len());
    assert(aty.len() != "vector4_array"@.len());
    assert(aty.len() != "qangle_array"@.len());
    assert(aty.len() != "quaternion_array"@.len());
    assert(aty.len() != "matrix_array"@.len());
    assert(aty.len() != "uint64_array"@.len());
    assert(aty.len() != "uint8_array"@.len());
    assert(safe_text(aty));
    assert(safe_text(array_single(v)));
}

proof fn lemma_string_array_text(x: KvText, t: nat, name: Seq<char>, xs: Seq<Seq<char>>)
    requires
        forall|b: u32| safe_text(#[trigger] (x.ft)(b)),
    ensures
        array_facts(x, t, name, SpecAttributeValue::StringArray(xs)),
{
    reveal(kv_plain);
    let v = SpecAttributeValue::StringArray(xs);
    let vs = array_items(v)->0;
    let ff = |s: Seq<char>| escape(s);
    lemma_items_lines(t + 1, xs, ff, xs.len());
    assert forall|j: int| 0 <= j < xs.len() implies ff(xs[j]) == escape(value_text(x.ft, #[trigger] vs[j])) by {
        assert(vs[j] == SpecAttributeValue::String(xs[j]));
        
    }
    assert(item_lines(t + 1, x.ft, vs) =~= Seq::new(xs.len(), |j: int| item(t + 1, ff(xs[j]), j + 1 == xs.len())));
    assert forall|j: int| 0 <= j < vs.len() implies push_item(array_take(v, j), #[trigger] vs[j]) == array_take(v, j + 1) by {
        assert(xs.take(j).push(xs[j]) =~= xs.take(j + 1));
    }
    assert(xs.take(xs.len() as int) =~= xs);
    reveal_strlit("string");
}

proof fn lemma_string_array_names(xs: Seq<Seq<char>>)
    ensures
        array_names(SpecAttributeValue::StringArray(xs)),
{
    reveal_strlit("int");
    reveal_strlit("int_array");
    reveal_strlit("float");
    reveal_strlit("float_array");
    reveal_strlit("bool");
    reveal_strlit("bool_array");
    reveal_strlit("string");
    reveal_strlit("string_array");
    reveal_strlit("binary");
    reveal_strlit("binary_array");
    reveal_strlit("elementid");
    reveal_strlit("elementid_array");
    reveal_strlit("time");
    reveal_strlit("time_array");
    reveal_strlit("color");
    reveal_strlit("color_array");
    reveal_strlit("vector2");
    reveal_strlit("vector2_array");
    reveal_strlit("vector3");
    reveal_strlit("vector3_array");
    reveal_strlit("vector4");
    reveal_strlit("vector4_array");
    reveal_strlit("qangle");
    reveal_strlit("qangle_array");
    reveal_strlit("quaternion");
    reveal_strlit("quaternion_array");
    reveal_strlit("matrix");
    reveal_strlit("matrix_array");
    reveal_strlit("uint64");
    reveal_strlit("uint64_array");
    reveal_strlit("uint8");
    reveal_strlit("uint8_array");
    reveal_strlit("element");
    reveal_strlit("element_array");
    let v = SpecAttributeValue::StringArray(xs);
    assert(xs.take(0) =~= Seq::<Seq<char>>::empty());
    let aty = kv_type_name(spec_type_of(v));
    assert(aty.len() != "int"@.len());
    assert(aty.len() != "float"@.len());
    assert(aty.len() != "bool"@.len());
    assert(aty.len() != "string"@.len());
    assert(aty.len() != "binary"@.len());
    assert(aty.len() != "elementid"@.len());
    assert(aty.len() != "time"@.len());
    assert(aty.len() != "color"@.len());
    assert(aty.len() != "vector2"@.len());
    assert(aty.len() != "vector3"@.len());
    assert(aty.len() != "vector4"@.len());
    assert(aty.len() != "qangle"@.len());
    assert(aty.len() != "quaternion"@.len());
    assert(aty.len() != "matrix"@.len());
    assert(aty.len() != "uint64"@.len());
    assert(aty.len() != "uint8"@.len());
    assert(aty.len() != "element"@.len());
    assert(aty.len() != "element_array"@.len());
    assert(aty.len() != "int_array"@.len());
    assert(aty.len() != "float_array"@.len());
    assert(aty.len() != "bool_array"@.len());
    assert(aty[0] != "binary_array"@[0]);
    assert(aty.len() != "elementid_array"@.len());
    assert(aty.len() != "time_array"@.len());
    assert(aty.len() != "color_array"@.len());
    assert(aty.len() != "vector2_array"@.len());
    assert(aty.len() != "vector3_array"@.len());
    assert(aty.len() != "vector4_array"@.len());
    assert(aty[0] != "qangle_array"@[0]);
    assert(aty.len() != "quaternion_array"@.len());
    assert(aty[0] != "matrix_array"@[0]);
    assert(aty[0] != "uint64_array"@[0]);
    assert(aty.len() != "uint8_array"@.len());
    assert(safe_text(aty));
    assert(safe_text(array_single(v)));
}

proof fn lemma_color_array_text(x: KvText, t: nat, name: Seq<char>, xs: Seq<Color>)
    requires
        forall|b: u32| safe_text(#[trigger] (x.ft)(b)),
    ensures
        array_facts(x, t, name, SpecAttributeValue::ColorArray(xs)),
{
    reveal(kv_plain);
    let v = SpecAttributeValue::ColorArray(xs);
    let vs = array_items(v)->0;
    let ff = |c: Color| color_text(c);
    lemma_items_lines(t + 1, xs, ff, xs.len());
    assert forall|j: int| 0 <= j < xs.len() implies ff(xs[j]) == escape(value_text(x.ft, #[trigger] vs[j])) by {
        assert(vs[j] == SpecAttributeValue::Color(xs[j]));
        lemma_value_text_safe(x.ft, vs[j]);
        lemma_safe_plain(value_text(x.ft, vs[j]));
    }
    assert(item_lines(t + 1, x.ft, vs) =~= Seq::new(xs.len(), |j: int| item(t + 1, ff(xs[j]), j + 1 == xs.len())));
    assert forall|j: int| 0 <= j < vs.len() implies push_item(array_take(v, j), #[trigger] vs[j]) == array_take(v, j + 1) by {
        assert(xs.take(j).push(xs[j]) =~= xs.take(j + 1));
    }
    assert(xs.take(xs.len() as int) =~= xs);
    reveal_strlit("color");
}

proof fn lemma_color_array_names(xs: Seq<Color>)
    ensures
        array_names(SpecAttributeValue::ColorArray(xs)),
{
    reveal_strlit("int");
    reveal_strlit("int_array");
    reveal_strlit("float");
    reveal_strlit("float_array");
    reveal_strlit("bool");
    reveal_strlit("bool_array");
    reveal_strlit("string");
    reveal_strlit("string_array");
    reveal_strlit("binary");
    reveal_strlit("binary_array");
    reveal_strlit("elementid");
    reveal_strlit("elementid_array");
    reveal_strlit("time");
    reveal_strlit("time_array");
    reveal_strlit("color");
    reveal_strlit("color_array");
    reveal_strlit("vector2");
    reveal_strlit("vector2_array");
    reveal_strlit("vector3");
    reveal_strlit("vector3_array");
    reveal_strlit("vector4");
    reveal_strlit("vector4_array");
    reveal_strlit("qangle");
    reveal_strlit("qangle_array");
    reveal_strlit("quaternion");
    reveal_strlit("quaternion_array");
    reveal_strlit("matrix");
    reveal_strlit("matrix_array");
    reveal_strlit("uint64");
    reveal_strlit("uint64_array");
    reveal_strlit("uint8");
    reveal_strlit("uint8_array");
    reveal_strlit("element");
    reveal_strlit("element_array");
    let v = SpecAttributeValue::ColorArray(xs);
    assert(xs.take(0) =~= Seq::<Color>::empty());
    let aty = kv_type_name(spec_type_of(v));
    assert(aty.len() != "int"@.len());
    assert(aty.len() != "float"@.len());
    assert(aty.len() != "bool"@.len());
    assert(aty.len() != "string"@.len());
    assert(aty.len() != "binary"@.len());
    assert(aty.len() != "elementid"@.len());
    assert(aty.len() != "time"@.len());
    assert(aty.len() != "color"@.len());
    assert(aty.len() != "vector2"@.len());
    assert(aty.len() != "vector3"@.len());
    assert(aty.len() != "vector4"@.len());
    assert(aty.len() != "qangle"@.len());
    assert(aty.len() != "quaternion"@.len());
    assert(aty.len() != "matrix"@.len());
    assert(aty.len() != "uint64"@.len());
    assert(aty.len() != "uint8"@.len());
    assert(aty.len() != "element"@.len());
    assert(aty.len() != "element_array"@.len());
    assert(aty.len() != "int_array"@.len());
    assert(aty[0] != "float_array"@[0]);
    assert(aty.len() != "bool_array"@.len());
    assert(aty.len() != "string_array"@.len());
    assert(aty.len() != "binary_array"@.len());
    assert(aty.len() != "elementid_array"@.len());
    assert(aty.len() != "time_array"@.len());
    assert(aty.len() != "vector2_array"@.len());
    assert(aty.len() != "vector3_array"@.len());
    assert(aty.len() != "vector4_array"@.len());
    assert(aty.len() != "qangle_array"@.len());
    assert(aty.len() != "quaternion_array"@.len());
    assert(aty.len() != "matrix_array"@.len());
    assert(aty.len() != "uint64_array"@.len());
    assert(aty[0] != "uint8_array"@[0]);
    assert(safe_text(aty));
    assert(safe_text(array_single(v)));
}

proof fn lemma_vector_2_array_text(x: KvText, t: nat, name: Seq<char>, xs: Seq<Vector2>)
    requires
        forall|b: u32| safe_text(#[trigger] (x.ft)(b)),
    ensures
        array_facts(x, t, name, SpecAttributeValue::Vector2Array(xs)),
{
    reveal(kv_plain);
    let v = SpecAttributeValue::Vector2Array(xs);
    let vs = array_items(v)->0;
    let ff = |v: Vector2| vector2_text(v, x.ft);
    lemma_items_lines(t + 1, xs, ff, xs.len());
    assert forall|j: int| 0 <= j < xs.len() implies ff(xs[j]) == escape(value_text(x.ft, #[trigger] vs[j])) by {
        assert(vs[j] == SpecAttributeValue::Vector2(xs[j]));
        lemma_value_text_safe(x.ft, vs[j]);
        lemma_safe_plain(value_text(x.ft, vs[j]));
    }
    assert(item_lines(t + 1, x.ft, vs) =~= Seq::new(xs.len(), |j: int| item(t + 1, ff(xs[j]), j + 1 == xs.len())));
    assert forall|j: int| 0 <= j < vs.len() implies push_item(array_take(v, j), #[trigger] vs[j]) == array_take(v, j + 1) by {
        assert(xs.take(j).push(xs[j]) =~= xs.take(j + 1));
    }
    assert(xs.take(xs.len() as int) =~= xs);
    reveal_strlit("vector2");
}

proof fn lemma_vector_2_array_names(xs: Seq<Vector2>)
    ensures
        array_names(SpecAttributeValue::Vector2Array(xs)),
{
    reveal_strlit("int");
    reveal_strlit("int_array");
    reveal_strlit("float");
    reveal_strlit("float_array");
    reveal_strlit("bool");
    reveal_strlit("bool_array");
    reveal_strlit("string");
    reveal_strlit("string_array");
    reveal_strlit("binary");
    reveal_strlit("binary_array");
    reveal_strlit("elementid");
    reveal_strlit("elementid_array");
    reveal_strlit("time");
    reveal_strlit("time_array");
    reveal_strlit("color");
    reveal_strlit("color_array");
    reveal_strlit("vector2");
    reveal_strlit("vector2_array");
    reveal_strlit("vector3");
    reveal_strlit("vector3_array");
    reveal_strlit("vector4");
    reveal_strlit("vector4_array");
    reveal_strlit("qangle");
    reveal_strlit("qangle_array");
    reveal_strlit("quaternion");
    reveal_strlit("quaternion_array");
    reveal_strlit("matrix");
    reveal_strlit("matrix_array");
    reveal_strlit("uint64");
    reveal_strlit("uint64_array");
    reveal_strlit("uint8");
    reveal_strlit("uint8_array");
    reveal_strlit("element");
    reveal_strlit("element_array");
    let v = SpecAttributeValue::Vector2Array(xs);
    assert(xs.take(0) =~= Seq::<Vector2>::empty());
    let aty = kv_type_name(spec_type_of(v));
    assert(aty.len() != "int"@.len());
    assert(aty.len() != "float"@.len());
    assert(aty.len() != "bool"@.len());
    assert(aty.len() != "string"@.len());
    assert(aty.len() != "binary"@.len());
    assert(aty.len() != "elementid"@.len());
    assert(aty.len() != "time"@.len());
    assert(aty.len() != "color"@.len());
    assert(aty.len() != "vector2"@.len());
    assert(aty.len() != "vector3"@.len());
    assert(aty.len() != "vector4"@.len());
    assert(aty.len() != "qangle"@.len());
    assert(aty.len() != "quaternion"@.len());
    assert(aty.len() != "matrix"@.len());
    assert(aty.len() != "uint64"@.len());
    assert(aty.len() != "uint8"@.len());
    assert(aty.len() != "element"@.len());
    assert(aty[0] != "element_array"@[0]);
    assert(aty.len() != "int_array"@.len());
    assert(aty.len() != "float_array"@.len());
    assert(aty.len() != "bool_array"@.len());
    assert(aty.len() != "string_array"@.len());
    assert(aty.len() != "binary_array"@.len());
    assert(aty.len() != "elementid_array"@.len());
    assert(aty.len() != "time_array"@.len());
    assert(aty.len() != "color_array"@.len());
    assert(aty[6] != "vector3_array"@[6]);
    assert(aty[6] != "vector4_array"@[6]);
    assert(aty.len() != "qangle_array"@.len());
    assert(aty.len() != "quaternion_array"@.len());
    assert(aty.len() != "matrix_array"@.len());
    assert(aty.len() != "uint64_array"@.len());
    assert(aty.len() != "uint8_array"@.len());
    assert(safe_text(aty));
    assert(safe_text(array_single(v)));
}

proof fn lemma_vector_3_array_text(x: KvText, t: nat, name: Seq<char>, xs: Seq<Vector3>)
    requires
        forall|b: u32| safe_text(#[trigger] (x.ft)(b)),
    ensures
        array_facts(x, t, name, SpecAttributeValue::Vector3Array(xs)),
{
    reveal(kv_plain);
    let v = SpecAttributeValue::Vector3Array(xs);
    let vs = array_items(v)->0;
    let ff = |v: Vector3| vector3_text(v, x.ft);
    lemma_items_lines(t + 1, xs, ff, xs.len());
    assert forall|j: int| 0 <= j < xs.len() implies ff(xs[j]) == escape(value_text(x.ft, #[trigger] vs[j])) by {
        assert(vs[j] == SpecAttributeValue::Vector3(xs[j]));
        lemma_value_text_safe(x.ft, vs[j]);
        lemma_safe_plain(value_text(x.ft, vs[j]));
    }
    assert(item_lines(t + 1, x.ft, vs) =~= Seq::new(xs.len(), |j: int| item(t + 1, ff(xs[j]), j + 1 == xs.len())));
    assert forall|j: int| 0 <= j < vs.len() implies push_item(array_take(v, j), #[trigger] vs[j]) == array_take(v, j + 1) by {
        assert(xs.take(j).push(xs[j]) =~= xs.take(j + 1));
    }
    assert(xs.take(xs.len() as int) =~= xs);
    reveal_strlit("vector3");
}

proof fn lemma_vector_3_array_names(xs: Seq<Vector3>)
    ensures
        array_names(SpecAttributeValue::Vector3Array(xs)),
{
    reveal_strlit("int");
    reveal_strlit("int_array");
    reveal_strlit("float");
    reveal_strlit("float_array");
    reveal_strlit("bool");
    reveal_strlit("bool_array");
    reveal_strlit("string");
    reveal_strlit("string_array");
    reveal_strlit("binary");
    reveal_strlit("binary_array");
    reveal_strlit("elementid");
    reveal_strlit("elementid_array");
    reveal_strlit("time");
    reveal_strlit("time_array");
    reveal_strlit("color");
    reveal_strlit("color_array");
    reveal_strlit("vector2");
    reveal_strlit("vector2_array");
    reveal_strlit("vector3");
    reveal_strlit("vector3_array");
    reveal_strlit("vector4");
    reveal_strlit("vector4_array");
    reveal_strlit("qangle");
    reveal_strlit("qangle_array");
    reveal_strlit("quaternion");
    reveal_strlit("quaternion_array");
    reveal_strlit("matrix");
    reveal_strlit("matrix_array");
    reveal_strlit("uint64");
    reveal_strlit("uint64_array");
    reveal_strlit("uint8");
    reveal_strlit("uint8_array");
    reveal_strlit("element");
    reveal_strlit("element_array");
    let v = SpecAttributeValue::Vector3Array(xs);
    assert(xs.take(0) =~= Seq::<Vector3>::empty());
    let aty = kv_type_name(spec_type_of(v));
    assert(aty.len() != "int"@.len());
    assert(aty.len() != "float"@.len());
    assert(aty.len() != "bool"@.len());
    assert(aty.len() != "string"@.len());
    assert(aty.len() != "binary"@.len());
    assert(aty.len() != "elementid"@.len());
    assert(aty.len() != "time"@.len());
    assert(aty.len() != "color"@.len());
    assert(aty.len() != "vector2"@.len());
    assert(aty.len() != "vector3"@.len());
    assert(aty.len() != "vector4"@.len());
    assert(aty.len() != "qangle"@.len());
    assert(aty.len() != "quaternion"@.len());
    assert(aty.len() != "matrix"@.len());
    assert(aty.len() != "uint64"@.len());
    assert(aty.len() != "uint8"@.len());
    assert(aty.len() != "element"@.len());
    assert(aty[0] != "element_array"@[0]);
    assert(aty.len() != "int_array"@.len());
    assert(aty.len() != "float_array"@.len());
    assert(aty.len() != "bool_array"@.len());
    assert(aty.len() != "string_array"@.len());
    assert(aty.len() != "binary_array"@.len());
    assert(aty.len() != "elementid_array"@.len());
    assert(aty.len() != "time_array"@.len());
    assert(aty.len() != "color_array"@.len());
    assert(aty[6] != "vector2_array"@[6]);
    assert(aty[6] != "vector4_array"@[6]);
    assert(aty.len() != "qangle_array"@.len());
    assert(aty.len() != "quaternion_array"@.len());
    assert(aty.len() != "matrix_array"@.len());
    assert(aty.len() != "uint64_array"@.len());
    assert(aty.len() != "uint8_array"@.len());
    assert(safe_text(aty));
    assert(safe_text(array_single(v)));
}

proof fn lemma_vector_4_array_text(x: KvText, t: nat, name: Seq<char>, xs: Seq<Vector4>)
    requires
        forall|b: u32| safe_text(#[trigger] (x.ft)(b)),
    ensures
        array_facts(x, t, name, SpecAttributeValue::Vector4Array(xs)),
{
    reveal(kv_plain);
    let v = SpecAttributeValue::Vector4Array(xs);
    let vs = array_items(v)->0;
    let ff = |v: Vector4| vector4_text(v, x.ft);
    lemma_items_lines(t + 1, xs, ff, xs.len());
    assert forall|j: int| 0 <= j < xs.len() implies ff(xs[j]) == escape(value_text(x.ft, #[trigger] vs[j])) by {
        assert(vs[j] == SpecAttributeValue::Vector4(xs[j]));
        lemma_value_text_safe(x.ft, vs[j]);
        lemma_safe_plain(value_text(x.ft, vs[j]));
    }
    assert(item_lines(t + 1, x.ft, vs) =~= Seq::new(xs.len(), |j: int| item(t + 1, ff(xs[j]), j + 1 == xs.len())));
    assert forall|j: int| 0 <= j < vs.len() implies push_item(array_take(v, j), #[trigger] vs[j]) == array_take(v, j + 1) by {
        assert(xs.take(j).push(xs[j]) =~= xs.take(j + 1));
    }
    assert(xs.take(xs.len() as int) =~= xs);
    reveal_strlit("vector4");
}

proof fn lemma_vector_4_array_names(xs: Seq<Vector4>)
    ensures
        array_names(SpecAttributeValue::Vector4Array(xs)),
{
    reveal_strlit("int");
    reveal_strlit("int_array");
    reveal_strlit("float");
    reveal_strlit("float_array");
    reveal_strlit("bool");
    reveal_strlit("bool_array");
    reveal_strlit("string");
    reveal_strlit("string_array");
    reveal_strlit("binary");
    reveal_strlit("binary_array");
    reveal_strlit("elementid");
    reveal_strlit("elementid_array");
    reveal_strlit("time");
    reveal_strlit("time_array");
    reveal_strlit("color");
    reveal_strlit("color_array");
    reveal_strlit("vector2");
    reveal_strlit("vector2_array");
    reveal_strlit("vector3");
    reveal_strlit("vector3_array");
    reveal_strlit("vector4");
    reveal_strlit("vector4_array");
    reveal_strlit("qangle");
    reveal_strlit("qangle_array");
    reveal_strlit("quaternion");
    reveal_strlit("quaternion_array");
    reveal_strlit("matrix");
    reveal_strlit("matrix_array");
    reveal_strlit("uint64");
    reveal_strlit("uint64_array");
    reveal_strlit("uint8");
    reveal_strlit("uint8_array");
    reveal_strlit("element");
    reveal_strlit("element_array");
    let v = SpecAttributeValue::Vector4Array(xs);
    assert(xs.take(0) =~= Seq::<Vector4>::empty());
    let aty = kv_type_name(spec_type_of(v));
    assert(aty.len() != "int"@.len());
    assert(aty.len() != "float"@.len());
    assert(aty.len() != "bool"@.len());
    assert(aty.len() != "string"@.len());
    assert(aty.len() != "binary"@.len());
    assert(aty.len() != "elementid"@.len());
    assert(aty.len() != "time"@.len());
    assert(aty.len() != "color"@.len());
    assert(aty.len() != "vector2"@.len());
    assert(aty.len() != "vector3"@.len());
    assert(aty.len() != "vector4"@.len());
    assert(aty.len() != "qangle"@.len());
    assert(aty.len() != "quaternion"@.len());
    assert(aty.len() != "matrix"@.len());
    assert(aty.len() != "uint64"@.len());
    assert(aty.len() != "uint8"@.len());
    assert(aty.len() != "element"@.len());
    assert(aty[0] != "element_array"@[0]);
    assert(aty.len() != "int_array"@.len());
    assert(aty.len() != "float_array"@.len());
    assert(aty.len() != "bool_array"@.len());
    assert(aty.len() != "string_array"@.len());
    assert(aty.len() != "binary_array"@.len());
    assert(aty.len() != "elementid_array"@.len());
    assert(aty.len() != "time_array"@.len());
    assert(aty.len() != "color_array"@.len());
    assert(aty[6] != "vector2_array"@[6]);
    assert(aty[6] != "vector3_array"@[6]);
    assert(aty.len() != "qangle_array"@.len());
    assert(aty.len() != "quaternion_array"@.len());
    assert(aty.len() != "matrix_array"@.len());
    assert(aty.len() != "uint64_array"@.len());
    assert(aty.len() != "uint8_array"@.len());
    assert(safe_text(aty));
    assert(safe_text(array_single(v)));
}

proof fn lemma_angle_array_text(x: KvText, t: nat, name: Seq<char>, xs: Seq<Angle>)
    requires
        forall|b: u32| safe_text(#[trigger] (x.ft)(b)),
    ensures
        array_facts(x, t, name, SpecAttributeValue::AngleArray(xs)),
{
    reveal(kv_plain);
    let v = SpecAttributeValue::AngleArray(xs);
    let vs = array_items(v)->0;
    let ff = |v: Angle| angle_text(v, x.ft);
    lemma_items_lines(t + 1, xs, ff, xs.len());
    assert forall|j: int| 0 <= j < xs.len() implies ff(xs[j]) == escape(value_text(x.ft, #[trigger] vs[j])) by {
        assert(vs[j] == SpecAttributeValue::Angle(xs[j]));
        lemma_value_text_safe(x.ft, vs[j]);
        lemma_safe_plain(value_text(x.ft, vs[j]));
    }
    assert(item_lines(t + 1, x.ft, vs) =~= Seq::new(xs.len(), |j: int| item(t + 1, ff(xs[j]), j + 1 == xs.len())));
    assert forall|j: int| 0 <= j < vs.len() implies push_item(array_take(v, j), #[trigger] vs[j]) == array_take(v, j + 1) by {
        assert(xs.take(j).push(xs[j]) =~= xs.take(j + 1));
    }
    assert(xs.take(xs.len() as int) =~= xs);
    reveal_strlit("qangle");
}

proof fn lemma_angle_array_names(xs: Seq<Angle>)
    ensures
        array_names(SpecAttributeValue::AngleArray(xs)),
{
    reveal_strlit("int");
    reveal_strlit("int_array");
    reveal_strlit("float");
    reveal_strlit("float_array");
    reveal_strlit("bool");
    reveal_strlit("bool_array");
    reveal_strlit("string");
    reveal_strlit("string_array");
    reveal_strlit("binary");
    reveal_strlit("binary_array");
    reveal_strlit("elementid");
    reveal_strlit("elementid_array");
    reveal_strlit("time");
    reveal_strlit("time_array");
    reveal_strlit("color");
    reveal_strlit("color_array");
    reveal_strlit("vector2");
    reveal_strlit("vector2_array");
    reveal_strlit("vector3");
    reveal_strlit("vector3_array");
    reveal_strlit("vector4");
    reveal_strlit("vector4_array");
    reveal_strlit("qangle");
    reveal_strlit("qangle_array");
    reveal_strlit("quaternion");
    reveal_strlit("quaternion_array");
    reveal_strlit("matrix");
    reveal_strlit("matrix_array");
    reveal_strlit("uint64");
    reveal_strlit("uint64_array");
    reveal_strlit("uint8");
    reveal_strlit("uint8_array");
    reveal_strlit("element");
    reveal_strlit("element_array");
    let v = SpecAttributeValue::AngleArray(xs);
    assert(xs.take(0) =~= Seq::<Angle>::empty());
    let aty = kv_type_name(spec_type_of(v));
    assert(aty.len() != "int"@.len());
    assert(aty.len() != "float"@.len());
    assert(aty.len() != "bool"@.len());
    assert(aty.len() != "string"@.len());
    assert(aty.len() != "binary"@.len());
    assert(aty.len() != "elementid"@.len());
    assert(aty.len() != "time"@.len());
    assert(aty.len() != "color"@.len());
    assert(aty.len() != "vector2"@.len());
    assert(aty.len() != "vector3"@.len());
    assert(aty.len() != "vector4"@.len());
    assert(aty.len() != "qangle"@.len());
    assert(aty.len() != "quaternion"@.len());
    assert(aty.len() != "matrix"@.len());
    assert(aty.len() != "uint64"@.len());
    assert(aty.len() != "uint8"@.len());
    assert(aty.len() != "element"@.len());
    assert(aty.len() != "element_array"@.len());
    assert(aty.len() != "int_array"@.len());
    assert(aty.len() != "float_array"@.len());
    assert(aty.len() != "bool_array"@.len());
    assert(aty[0] != "string_array"@[0]);
    assert(aty[0] != "binary_array"@[0]);
    assert(aty.len() != "elementid_array"@.len());
    assert(aty.len() != "time_array"@.len());
    assert(aty.len() != "color_array"@.len());
    assert(aty.len() != "vector2_array"@.len());
    assert(aty.len() != "vector3_array"@.len());
    assert(aty.len() != "vector4_array"@.len());
    assert(aty.len() != "quaternion_array"@.len());
    assert(aty[0] != "matrix_array"@[0]);
    assert(aty[0] != "uint64_array"@[0]);
    assert(aty.len() != "uint8_array"@.len());
    assert(safe_text(aty));
    assert(safe_text(array_single(v)));
}

proof fn lemma_quaternion_array_text(x: KvText, t: nat, name: Seq<char>, xs: Seq<Quaternion>)
    requires
        forall|b: u32| safe_text(#[trigger] (x.ft)(b)),
    ensures
        array_facts(x, t, name, SpecAttributeValue::QuaternionArray(xs)),
{
    reveal(kv_plain);
    let v = SpecAttributeValue::QuaternionArray(xs);
    let vs = array_items(v)->0;
    let ff = |v: Quaternion| quaternion_text(v, x.ft);
    lemma_items_lines(t + 1, xs, ff, xs.len());
    assert forall|j: int| 0 <= j < xs.len() implies ff(xs[j]) == escape(value_text(x.ft, #[trigger] vs[j])) by {
        assert(vs[j] == SpecAttributeValue::Quaternion(xs[j]));
        lemma_value_text_safe(x.ft, vs[j]);
        lemma_safe_plain(value_text(x.ft, vs[j]));
    }
    assert(item_lines(t + 1, x.ft, vs) =~= Seq::new(xs.len(), |j: int| item(t + 1, ff(xs[j]), j + 1 == xs.len())));
    assert forall|j: int| 0 <= j < vs.len() implies push_item(array_take(v, j), #[trigger] vs[j]) == array_take(v, j + 1) by {
        assert(xs.take(j).push(xs[j]) =~= xs.take(j + 1));
    }
    assert(xs.take(xs.len() as int) =~= xs);
    reveal_strlit("quaternion");
}

proof fn lemma_quaternion_array_names(xs: Seq<Quaternion>)
    ensures
        array_names(SpecAttributeValue::QuaternionArray(xs)),
{
    reveal_strlit("int");
    reveal_strlit("int_array");
    reveal_strlit("float");
    reveal_strlit("float_array");
    reveal_strlit("bool");
    reveal_strlit("bool_array");
    reveal_strlit("string");
    reveal_strlit("string_array");
    reveal_strlit("binary");
    reveal_strlit("binary_array");
    reveal_strlit("elementid");
    reveal_strlit("elementid_array");
    reveal_strlit("time");
    reveal_strlit("time_array");
    reveal_strlit("color");
    reveal_strlit("color_array");
    reveal_strlit("vector2");
    reveal_strlit("vector2_array");
    reveal_strlit("vector3");
    reveal_strlit("vector3_array");
    reveal_strlit("vector4");
    reveal_strlit("vector4_array");
    reveal_strlit("qangle");
    reveal_strlit("qangle_array");
    reveal_strlit("quaternion");
    reveal_strlit("quaternion_array");
    reveal_strlit("matrix");
    reveal_strlit("matrix_array");
    reveal_strlit("uint64");
    reveal_strlit("uint64_array");
    reveal_strlit("uint8");
    reveal_strlit("uint8_array");
    reveal_strlit("element");
    reveal_strlit("element_array");
    let v = SpecAttributeValue::QuaternionArray(xs);
    assert(xs.take(0) =~= Seq::<Quaternion>::empty());
    let aty = kv_type_name(spec_type_of(v));
    assert(aty.len() != "int"@.len());
    assert(aty.len() != "float"@.len());
    assert(aty.len() != "bool"@.len());
    assert(aty.len() != "string"@.len());
    assert(aty.len() != "binary"@.len());
    assert(aty.len() != "elementid"@.len());
    assert(aty.len() != "time"@.len());
    assert(aty.len() != "color"@.len());
    assert(aty.len() != "vector2"@.len());
    assert(aty.len() != "vector3"@.len());
    assert(aty.len() != "vector4"@.len());
    assert(aty.len() != "qangle"@.len());
    assert(aty.len() != "quaternion"@.len());
    assert(aty.len() != "matrix"@.len());
    assert(aty.len() != "uint64"@.len());
    assert(aty.len() != "uint8"@.len());
    assert(aty.len() != "element"@.len());
    assert(aty.len() != "element_array"@.len());
    assert(aty.len() != "int_array"@.len());
    assert(aty.len() != "float_array"@.len());
    assert(aty.len() != "bool_array"@.len());
    assert(aty.len() != "string_array"@.len());
    assert(aty.len() != "binary_array"@.len());
    assert(aty.len() != "elementid_array"@.len());
    assert(aty.len() != "time_array"@.len());
    assert(aty.len() != "color_array"@.len());
    assert(aty.len() != "vector2_array"@.len());
    assert(aty.len() != "vector3_array"@.len());
    assert(aty.len() != "vector4_array"@.len());
    assert(aty.len() != "qangle_array"@.len());
    assert(aty.len() != "matrix_array"@.len());
    assert(aty.len() != "uint64_array"@.len());
    assert(aty.len() != "uint8_array"@.len());
    assert(safe_text(aty));
    assert(safe_text(array_single(v)));
}

proof fn lemma_u_long_array_text(x: KvText, t: nat, name: Seq<char>, xs: Seq<u64>)
    requires
        forall|b: u32| safe_text(#[trigger] (x.ft)(b)),
    ensures
        array_facts(x, t, name, SpecAttributeValue::ULongArray(xs)),
{
    reveal(kv_plain);
    let v = SpecAttributeValue::ULongArray(xs);
    let vs = array_items(v)->0;
    let ff = |u: u64| ulong_text(u);
    lemma_items_lines(t + 1, xs, ff, xs.len());
    assert forall|j: int| 0 <= j < xs.len() implies ff(xs[j]) == escape(value_text(x.ft, #[trigger] vs[j])) by {
        assert(vs[j] == SpecAttributeValue::ULong(xs[j]));
        lemma_value_text_safe(x.ft, vs[j]);
        lemma_safe_plain(value_text(x.ft, vs[j]));
    }
    assert(item_lines(t + 1, x.ft, vs) =~= Seq::new(xs.len(), |j: int| item(t + 1, ff(xs[j]), j + 1 == xs.len())));
    assert forall|j: int| 0 <= j < vs.len() implies push_item(array_take(v, j), #[trigger] vs[j]) == array_take(v, j + 1) by {
        assert(xs.take(j).push(xs[j]) =~= xs.take(j + 1));
    }
    assert(xs.take(xs.len() as int) =~= xs);
    reveal_strlit("uint64");
}

proof fn lemma_u_long_array_names(xs: Seq<u64>)
    ensures
        array_names(SpecAttributeValue::ULongArray(xs)),
{
    reveal_strlit("int");
    reveal_strlit("int_array");
    reveal_strlit("float");
    reveal_strlit("float_array");
    reveal_strlit("bool");
    reveal_strlit("bool_array");
    reveal_strlit("string");
    reveal_strlit("string_array");
    reveal_strlit("binary");
    reveal_strlit("binary_array");
    reveal_strlit("elementid");
    reveal_strlit("elementid_array");
    reveal_strlit("time");
    reveal_strlit("time_array");
    reveal_strlit("color");
    reveal_strlit("color_array");
    reveal_strlit("vector2");
    reveal_strlit("vector2_array");
    reveal_strlit("vector3");
    reveal_strlit("vector3_array");
    reveal_strlit("vector4");
    reveal_strlit("vector4_array");
    reveal_strlit("qangle");
    reveal_strlit("qangle_array");
    reveal_strlit("quaternion");
    reveal_strlit("quaternion_array");
    reveal_strlit("matrix");
    reveal_strlit("matrix_array");
    reveal_strlit("uint64");
    reveal_strlit("uint64_array");
    reveal_strlit("uint8");
    reveal_strlit("uint8_array");
    reveal_strlit("element");
    reveal_strlit("element_array");
    let v = SpecAttributeValue::ULongArray(xs);
    assert(xs.take(0) =~= Seq::<u64>::empty());
    let aty = kv_type_name(spec_type_of(v));
    assert(aty.len() != "int"@.len());
    assert(aty.len() != "float"@.len());
    assert(aty.len() != "bool"@.len());
    assert(aty.len() != "string"@.len());
    assert(aty.len() != "binary"@.len());
    assert(aty.len() != "elementid"@.len());
    assert(aty.len() != "time"@.len());
    assert(aty.len() != "color"@.len());
    assert(aty.len() != "vector2"@.len());
    assert(aty.len() != "vector3"@.len());
    assert(aty.len() != "vector4"@.len());
    assert(aty.len() != "qangle"@.len());
    assert(aty.len() != "quaternion"@.len());
    assert(aty.len() != "matrix"@.len());
    assert(aty.len() != "uint64"@.len());
    assert(aty.len() != "uint8"@.len());
    assert(aty.len() != "element"@.len());
    assert(aty.len() != "element_array"@.len());
    assert(aty.len() != "int_array"@.len());
    assert(aty.len() != "float_array"@.len());
    assert(aty.len() != "bool_array"@.len());
    assert(aty[0] != "string_array"@[0]);
    assert(aty[0] != "binary_array"@[0]);
    assert(aty.len() != "elementid_array"@.len());
    assert(aty.len() != "time_array"@.len());
    assert(aty.len() != "color_array"@.len());
    assert(aty.len() != "vector2_array"@.len());
    assert(aty.len() != "vector3_array"@.len());
    assert(aty.len() != "vector4_array"@.len());
    assert(aty[0] != "qangle_array"@[0]);
    assert(aty.len() != "quaternion_array"@.len());
    assert(aty[0] != "matrix_array"@[0]);
    assert(aty.len() != "uint8_array"@.len());
    assert(safe_text(aty));
    assert(safe_text(array_single(v)));
}

proof fn lemma_u_byte_array_text(x: KvText, t: nat, name: Seq<char>, xs: Seq<u8>)
    requires
        forall|b: u32| safe_text(#[trigger] (x.ft)(b)),
    ensures
        array_facts(x, t, name, SpecAttributeValue::UByteArray(xs)),
{
    reveal(kv_plain);
    let v = SpecAttributeValue::UByteArray(xs);
    let vs = array_items(v)->0;
    let ff = |b: u8| nat_decimal(b as nat);
    lemma_items_lines(t + 1, xs, ff, xs.len());
    assert forall|j: int| 0 <= j < xs.len() implies ff(xs[j]) == escape(value_text(x.ft, #[trigger] vs[j])) by {
        assert(vs[j] == SpecAttributeValue::UByte(xs[j]));
        lemma_value_text_safe(x.ft, vs[j]);
        lemma_safe_plain(value_text(x.ft, vs[j]));
    }
    assert(item_lines(t + 1, x.ft, vs) =~= Seq::new(xs.len(), |j: int| item(t + 1, ff(xs[j]), j + 1 == xs.len())));
    assert forall|j: int| 0 <= j < vs.len() implies push_item(array_take(v, j), #[trigger] vs[j]) == array_take(v, j + 1) by {
        assert(xs.take(j).push(xs[j]) =~= xs.take(j + 1));
    }
    assert(xs.take(xs.len() as int) =~= xs);
    reveal_strlit("uint8");
}

proof fn lemma_u_byte_array_names(xs: Seq<u8>)
    ensures
        array_names(SpecAttributeValue::UByteArray(xs)),
{
    reveal_strlit("int");
    reveal_strlit("int_array");
    reveal_strlit("float");
    reveal_strlit("float_array");
    reveal_strlit("bool");
    reveal_strlit("bool_array");
    reveal_strlit("string");
    reveal_strlit("string_array");
    reveal_strlit("binary");
    reveal_strlit("binary_array");
    reveal_strlit("elementid");
    reveal_strlit("elementid_array");
    reveal_strlit("time");
    reveal_strlit("time_array");
    reveal_strlit("color");
    reveal_strlit("color_array");
    reveal_strlit("vector2");
    reveal_strlit("vector2_array");
    reveal_strlit("vector3");
    reveal_strlit("vector3_array");
    reveal_strlit("vector4");
    reveal_strlit("vector4_array");
    reveal_strlit("qangle");
    reveal_strlit("qangle_array");
    reveal_strlit("quaternion");
    reveal_strlit("quaternion_array");
    reveal_strlit("matrix");
    reveal_strlit("matrix_array");
    reveal_strlit("uint64");
    reveal_strlit("uint64_array");
    reveal_strlit("uint8");
    reveal_strlit("uint8_array");
    reveal_strlit("element");
    reveal_strlit("element_array");
    let v = SpecAttributeValue::UByteArray(xs);
    assert(xs.take(0) =~= Seq::<u8>::empty());
    let aty = kv_type_name(spec_type_of(v));
    assert(aty.len() != "int"@.len());
    assert(aty.len() != "float"@.len());
    assert(aty.len() != "bool"@.len());
    assert(aty.len() != "string"@.len());
    assert(aty.len() != "binary"@.len());
    assert(aty.len() != "elementid"@.len());
    assert(aty.len() != "time"@.len());
    assert(aty.len() != "color"@.len());
    assert(aty.len() != "vector2"@.len());
    assert(aty.len() != "vector3"@.len());
    assert(aty.len() != "vector4"@.len());
    assert(aty.len() != "qangle"@.len());
    assert(aty.len() != "quaternion"@.len());
    assert(aty.len() != "matrix"@.len());
    assert(aty.len() != "uint64"@.len());
    assert(aty.len() != "uint8"@.len());
    assert(aty.len() != "element"@.len());
    assert(aty.len() != "element_array"@.len());
    assert(aty.len() != "int_array"@.len());
    assert(aty[0] != "float_array"@[0]);
    assert(aty.len() != "bool_array"@.len());
    assert(aty.len() != "string_array"@.len());
    assert(aty.len() != "binary_array"@.len());
    assert(aty.len() != "elementid_array"@.len());
    assert(aty.len() != "time_array"@.len());
    assert(aty[0] != "color_array"@[0]);
    assert(aty.len() != "vector2_array"@.len());
    assert(aty.len() != "vector3_array"@.len());
    assert(aty.len() != "vector4_array"@.len());
    assert(aty.len() != "qangle_array"@.len());
    assert(aty.len() != "quaternion_array"@.len());
    assert(aty.len() != "matrix_array"@.len());
    assert(aty.len() != "uint64_array"@.len());
    assert(safe_text(aty));
    assert(safe_text(array_single(v)));
}

proof fn lemma_object_id_array_text(x: KvText, t: nat, name: Seq<char>, xs: Seq<Seq<u8>>)
    requires
        forall|b: u32| safe_text(#[trigger] (x.ft)(b)),
    ensures
        array_facts(x, t, name, SpecAttributeValue::ObjectIdArray(xs)),
{
    reveal(kv_plain);
    let v = SpecAttributeValue::ObjectIdArray(xs);
    let vs = array_items(v)->0;
    let ff = |id: Seq<u8>| uuid_text(id);
    lemma_items_lines(t + 1, xs, ff, xs.len());
    assert forall|j: int| 0 <= j < xs.len() implies ff(xs[j]) == escape(value_text(x.ft, #[trigger] vs[j])) by {
        assert(vs[j] == SpecAttributeValue::ObjectId(xs[j]));
        lemma_value_text_safe(x.ft, vs[j]);
        lemma_safe_plain(value_text(x.ft, vs[j]));
    }
    assert(item_lines(t + 1, x.ft, vs) =~= Seq::new(xs.len(), |j: int| item(t + 1, ff(xs[j]), j + 1 == xs.len())));
    assert forall|j: int| 0 <= j < vs.len() implies push_item(array_take(v, j), #[trigger] vs[j]) == array_take(v, j + 1) by {
        assert(xs.take(j).push(xs[j]) =~= xs.take(j + 1));
    }
    assert(xs.take(xs.len() as int) =~= xs);
    reveal_strlit("elementid");
}

proof fn lemma_object_id_array_names(xs: Seq<Seq<u8>>)
    ensures
        array_names(SpecAttributeValue::ObjectIdArray(xs)),
{
    reveal_strlit("int");
    reveal_strlit("int_array");
    reveal_strlit("float");
    reveal_strlit("float_array");
    reveal_strlit("bool");
    reveal_strlit("bool_array");
    reveal_strlit("string");
    reveal_strlit("string_array");
    reveal_strlit("binary");
    reveal_strlit("binary_array");
    reveal_strlit("elementid");
    reveal_strlit("elementid_array");
    reveal_strlit("time");
    reveal_strlit("time_array");
    reveal_strlit("color");
    reveal_strlit("color_array");
    reveal_strlit("vector2");
    reveal_strlit("vector2_array");
    reveal_strlit("vector3");
    reveal_strlit("vector3_array");
    reveal_strlit("vector4");
    reveal_strlit("vector4_array");
    reveal_strlit("qangle");
    reveal_strlit("qangle_array");
    reveal_strlit("quaternion");
    reveal_strlit("quaternion_array");
    reveal_strlit("matrix");
    reveal_strlit("matrix_array");
    reveal_strlit("uint64");
    reveal_strlit("uint64_array");
    reveal_strlit("uint8");
    reveal_strlit("uint8_array");
    reveal_strlit("element");
    reveal_strlit("element_array");
    let v = SpecAttributeValue::ObjectIdArray(xs);
    assert(xs.take(0) =~= Seq::<Seq<u8>>::empty());
    let aty = kv_type_name(spec_type_of(v));
    assert(aty.len() != "int"@.len());
    assert(aty.len() != "float"@.len());
    assert(aty.len() != "bool"@.len());
    assert(aty.len() != "string"@.len());
    assert(aty.len() != "binary"@.len());
    assert(aty.len() != "elementid"@.len());
    assert(aty.len() != "time"@.len());
    assert(aty.len() != "color"@.len());
    assert(aty.len() != "vector2"@.len());
    assert(aty.len() != "vector3"@.len());
    assert(aty.len() != "vector4"@.len());
    assert(aty.len() != "qangle"@.len());
    assert(aty.len() != "quaternion"@.len());
    assert(aty.len() != "matrix"@.len());
    assert(aty.len() != "uint64"@.len());
    assert(aty.len() != "uint8"@.len());
    assert(aty.len() != "element"@.len());
    assert(aty.len() != "element_array"@.len());
    assert(aty.len() != "int_array"@.len());
    assert(aty.len() != "float_array"@.len());
    assert(aty.len() != "bool_array"@.len());
    assert(aty.len() != "string_array"@.len());
    assert(aty.len() != "binary_array"@.len());
    assert(aty.len() != "time_array"@.len());
    assert(aty.len() != "color_array"@.len());
    assert(aty.len() != "vector2_array"@.len());
    assert(aty.len() != "vector3_array"@.len());
    assert(aty.len() != "vector4_array"@.len());
    assert(aty.len() != "qangle_array"@.len());
    assert(aty.len() != "quaternion_array"@.len());
    assert(aty.len() != "matrix_array"@.len());
    assert(aty.len() != "uint64_array"@.len());
    assert(aty.len() != "uint8_array"@.len());
    assert(safe_text(aty));
    assert(safe_text(array_single(v)));
}

proof fn lemma_array_kind(x: KvText, t: nat, name: Seq<char>, v: SpecAttributeValue)
    requires
        array_items(v) is Some,
        forall|b: u32| safe_text(#[trigger] (x.ft)(b)),
    ensures
        array_facts(x, t, name, v),
        array_names(v),
{
    match v {
        SpecAttributeValue::IntegerArray(xs) => lemma_integer_array_text(x, t, name, xs),
        SpecAttributeValue::FloatArray(xs) => lemma_float_array_text(x, t, name, xs),
        SpecAttributeValue::BooleanArray(xs) => lemma_boolean_array_text(x, t, name, xs),
        SpecAttributeValue::StringArray(xs) => lemma_string_array_text(x, t, name, xs),
        SpecAttributeValue::ColorArray(xs) => lemma_color_array_text(x, t, name, xs),
        SpecAttributeValue::Vector2Array(xs) => lemma_vector_2_array_text(x, t, name, xs),
        SpecAttributeValue::Vector3Array(xs) => lemma_vector_3_array_text(x, t, name, xs),
        SpecAttributeValue::Vector4Array(xs) => lemma_vector_4_array_text(x, t, name, xs),
        SpecAttributeValue::AngleArray(xs) => lemma_angle_array_text(x, t, name, xs),
        SpecAttributeValue::QuaternionArray(xs) => lemma_quaternion_array_text(x, t, name, xs),
        SpecAttributeValue::ULongArray(xs) => lemma_u_long_array_text(x, t, name, xs),
        SpecAttributeValue::UByteArray(xs) => lemma_u_byte_array_text(x, t, name, xs),
        SpecAttributeValue::ObjectIdArray(xs) => lemma_object_id_array_text(x, t, name, xs),
        _ => {},
    }
    match v {
        SpecAttributeValue::IntegerArray(xs) => lemma_integer_array_names(xs),
        SpecAttributeValue::FloatArray(xs) => lemma_float_array_names(xs),
        SpecAttributeValue::BooleanArray(xs) => lemma_boolean_array_names(xs),
        SpecAttributeValue::StringArray(xs) => lemma_string_array_names(xs),
        SpecAttributeValue::ColorArray(xs) => lemma_color_array_names(xs),
        SpecAttributeValue::Vector2Array(xs) => lemma_vector_2_array_names(xs),
        SpecAttributeValue::Vector3Array(xs) => lemma_vector_3_array_names(xs),
        SpecAttributeValue::Vector4Array(xs) => lemma_vector_4_array_names(xs),
        SpecAttributeValue::AngleArray(xs) => lemma_angle_array_names(xs),
        SpecAttributeValue::QuaternionArray(xs) => lemma_quaternion_array_names(xs),
        SpecAttributeValue::ULongArray(xs) => lemma_u_long_array_names(xs),
        SpecAttributeValue::UByteArray(xs) => lemma_u_byte_array_names(xs),
        SpecAttributeValue::ObjectIdArray(xs) => lemma_object_id_array_names(xs),
        _ => {},
    }
}

// ---------------------------------------------------------------------------
// Reading an array attribute
// ---------------------------------------------------------------------------

/// From the cursor on, the current line holds only commas and white space.
pub open spec fn rest_sep(c: KvCursor) -> bool {
    forall|k: int| c.col <= k < c.cur.len() ==> (#[trigger] c.cur[k] == ',' || is_ws(c.cur[k]))
}

/// Outside quotes, commas and white space are skipped.
proof fn lemma_skip_sep(lines: KvLines, c: KvCursor, w: int)
    requires
        cursor_ok(lines, c),
        0 <= w,
        c.col + w <= c.cur.len(),
        forall|k: int| 0 <= k < w ==> (#[trigger] c.cur[c.col + k] == ',' || is_ws(c.cur[c.col + k])),
    ensures
        kv_scan(lines, c, None) == kv_scan(lines, KvCursor { col: c.col + w, ..c }, None),
    decreases w,
{
    if w > 0 {
        let c1 = KvCursor { col: c.col + 1, ..c };
        assert(c.cur[c.col + 0] == ',' || is_ws(c.cur[c.col + 0]));
        assert(kv_scan(lines, c, None) == kv_scan(lines, c1, None));
        assert forall|k: int| 0 <= k < w - 1 implies (#[trigger] c1.cur[c1.col + k] == ',' || is_ws(c1.cur[c1.col + k])) by {
            assert(c.cur[c.col + (k + 1)] == ',' || is_ws(c.cur[c.col + (k + 1)]));
        }
        lemma_skip_sep(lines, c1, w - 1);
        assert(KvCursor { col: c1.col + (w - 1), ..c1 } == KvCursor { col: c.col + w, ..c });
    }
}

/// Commas and white space to the end of a line are skipped: the next token
/// is the first one of the next line.
proof fn lemma_next_line_sep(lines: KvLines, c: KvCursor)
    requires
        lines_ok(lines),
        cursor_ok(lines, c),
        rest_sep(c),
        0 <= c.next < lines.len(),
        lines[c.next] is Some,
        (lines[c.next]->0).len() > 0,
    ensures
        cursor_ok(lines, next_start(lines, c)),
        kv_next_token(lines, c) == kv_next_token(lines, next_start(lines, c)),
        kv_measure(lines, next_start(lines, c)) < kv_measure(lines, c),
{
    let c2 = next_start(lines, c);
    assert(line_len(lines[c.next]) < usize::MAX);
    assert(kv_line_step(lines, c) == KvLineStep::Next(c2));
    if c.col < c.cur.len() {
        let w = c.cur.len() - c.col;
        assert forall|k: int| 0 <= k < w implies (#[trigger] c.cur[c.col + k] == ',' || is_ws(c.cur[c.col + k])) by {
            assert(c.cur[c.col + k] == ',' || is_ws(c.cur[c.col + k]));
        }
        lemma_skip_sep(lines, c, w);
        let ce = KvCursor { col: c.cur.len() as int, ..c };
        assert(KvCursor { col: c.col + w, ..c } == ce);
        assert(kv_line_step(lines, ce) == KvLineStep::Next(c2));
        assert(kv_scan(lines, ce, None) == kv_scan(lines, c2, None));
    }
    assert(kv_rest(lines, c.next) == line_len(lines[c.next]) + 1 + kv_rest(lines, c.next + 1));
}

/// The cursor after the `j`-th item token of an array whose opening bracket
/// stands on line `b` (after the bracket itself for `j == 0`).
pub open spec fn item_cursor(ls: Seq<Seq<char>>, ft: spec_fn(u32) -> Seq<char>, vs: Seq<SpecAttributeValue>, b: int, j: int) -> KvCursor {
    KvCursor {
        cur: ls[b + j],
        col: if j == 0 { 2 } else { 2 + quoted(escape(value_text(ft, vs[j - 1]))).len() as int },
        line: b + j + 2,
        next: b + j + 1,
    }
}

/// The lines of an array body from line `b`: the opening bracket, the items
/// and the closing bracket, at indentation 1.
pub open spec fn array_body_at(ls: Seq<Seq<char>>, ft: spec_fn(u32) -> Seq<char>, vs: Seq<SpecAttributeValue>, b: int) -> bool {
    &&& 0 <= b
    &&& b + 2 + vs.len() <= ls.len()
    &&& ls[b] == line(1, seq!['['])
    &&& forall|m: int| 0 <= m < vs.len() ==> #[trigger] ls[b + 1 + m] == item_lines(2, ft, vs)[m]
    &&& ls[b + 1 + vs.len()] == line(1, seq![']'])
}

/// After an item (or the opening bracket), the reader goes on at the start
/// of the next line.
proof fn lemma_item_next(x: KvIn, ls: Seq<Seq<char>>, ft: spec_fn(u32) -> Seq<char>, vs: Seq<SpecAttributeValue>, b: int, j: int)
    requires
        x.lines == held_lines(ls),
        lines_ok(x.lines),
        floats_read_back(ft, x.ft),
        forall|m: int| 0 <= m < vs.len() ==> line_reads_back(ft, (seq![], #[trigger] vs[m])),
        array_body_at(ls, ft, vs, b),
        0 <= j <= vs.len(),
    ensures
        cursor_ok(x.lines, item_cursor(ls, ft, vs, b, j)),
        kv_next_token(x.lines, item_cursor(ls, ft, vs, b, j)) == kv_next_token(x.lines, line_start(ls, b + j + 1)),
        kv_measure(x.lines, line_start(ls, b + j + 1)) < kv_measure(x.lines, item_cursor(ls, ft, vs, b, j)),
{
    let n = vs.len() as int;
    let lines = x.lines;
    let c = item_cursor(ls, ft, vs, b, j);
    assert(lines[b + j] == Some(ls[b + j]));
    assert(line_len(lines[b + j]) < usize::MAX);
    assert(lines[b + j + 1] == Some(ls[b + j + 1]));
    let kt = KvText { g: seq![], c: seq![], top: seq![], ft, tt: |t: i32| Seq::<char>::empty() };
    if j == 0 {
        assert(ls[b] =~= seq!['\t', '[', '\r', '\n']);
    } else {
        let a = (Seq::<char>::empty(), vs[j - 1]);
        assert(line_reads_back(ft, a));
        lemma_value_line(kt, x.ft, x.tt, 1, a, 0, 0);
        let q = quoted(escape(value_text(ft, vs[j - 1])));
        assert(ls[b + 1 + (j - 1)] == item_lines(2, ft, vs)[j - 1]);
        assert(ls[b + j] =~= tabs(2) + q + comma(j == n) + crlf());
    }
    if j < n {
        assert(ls[b + 1 + j] == item_lines(2, ft, vs)[j]);
        assert(ls[b + 1 + j].len() > 0);
    } else {
        assert(ls[b + 1 + n] =~= seq!['\t', ']', '\r', '\n']);
    }
    assert(cursor_ok(lines, c));
    assert(rest_sep(c)) by {
        assert forall|k: int| c.col <= k < c.cur.len() implies (#[trigger] c.cur[k] == ',' || is_ws(c.cur[k])) by {
            if j > 0 {
                let q = quoted(escape(value_text(ft, vs[j - 1])));
                assert(c.cur == tabs(2) + q + comma(j == n) + crlf());
            }
        }
    }
    lemma_next_line_sep(lines, c);
    assert(next_start(lines, c) == line_start(ls, b + j + 1));
}

/// An item line reads as its value.
proof fn lemma_item_value(x: KvIn, ls: Seq<Seq<char>>, ft: spec_fn(u32) -> Seq<char>, vs: Seq<SpecAttributeValue>, b: int, j: int, single: Seq<char>)
    requires
        x.lines == held_lines(ls),
        lines_ok(x.lines),
        floats_read_back(ft, x.ft),
        forall|m: int| 0 <= m < vs.len() ==> line_reads_back(ft, (seq![], #[trigger] vs[m])),
        array_body_at(ls, ft, vs, b),
        0 <= j < vs.len(),
        is_value_type(single),
        kv_type_name(spec_type_of(vs[j])) == single,
    ensures
        kv_value(x, item_cursor(ls, ft, vs, b, j), single) == Ok::<(Option<SpecAttributeValue>, KvCursor), KeyValues2SerializationError>(
            (Some(vs[j]), item_cursor(ls, ft, vs, b, j + 1)),
        ),
{
    let n = vs.len() as int;
    lemma_item_next(x, ls, ft, vs, b, j);
    let c1 = line_start(ls, b + j + 1);
    assert(x.lines[b + j + 1] == Some(ls[b + j + 1]));
    assert(line_len(x.lines[b + j + 1]) < usize::MAX);
    let kt = KvText { g: seq![], c: seq![], top: seq![], ft, tt: |t: i32| Seq::<char>::empty() };
    let a = (Seq::<char>::empty(), vs[j]);
    assert(line_reads_back(ft, a));
    let val = value_text(ft, vs[j]);
    let q = quoted(escape(val));
    let c2 = item_cursor(ls, ft, vs, b, j + 1);
    lemma_value_line(kt, x.ft, x.tt, 1, a, c2.line, c2.col);
    assert(ls[b + 1 + j] == item_lines(2, ft, vs)[j]);
    assert(ls[b + 1 + j] =~= tabs(2) + q + comma(j + 1 == n) + crlf());
    assert(c1.cur.subrange(0, (tabs(2) + q).len() as int) =~= tabs(2) + q);
    assert(line_holds(c1, tabs(2) + quoted(escape(val))));
    assert forall|k: int| 0 <= k < tabs(2).len() implies is_ws(#[trigger] tabs(2)[k]) by {}
    assert(cursor_ok(x.lines, c1));
    lemma_token_held(x, c1, tabs(2), val);
    assert(KvCursor { col: c1.col + tabs(2).len() + escape(val).len() + 2, ..c1 } == c2);
}

/// The closing bracket ends the items.
proof fn lemma_item_close(x: KvIn, ls: Seq<Seq<char>>, ft: spec_fn(u32) -> Seq<char>, vs: Seq<SpecAttributeValue>, b: int, single: Seq<char>)
    requires
        x.lines == held_lines(ls),
        lines_ok(x.lines),
        floats_read_back(ft, x.ft),
        forall|m: int| 0 <= m < vs.len() ==> line_reads_back(ft, (seq![], #[trigger] vs[m])),
        array_body_at(ls, ft, vs, b),
        is_value_type(single),
    ensures
        kv_value(x, item_cursor(ls, ft, vs, b, vs.len() as int), single) == Ok::<
            (Option<SpecAttributeValue>, KvCursor),
            KeyValues2SerializationError,
        >((None, after_brace_at(ls, b + 1 + vs.len()))),
{
    let n = vs.len() as int;
    lemma_item_next(x, ls, ft, vs, b, n);
    let c1 = line_start(ls, b + n + 1);
    assert(x.lines[b + n + 1] == Some(ls[b + n + 1]));
    assert(line_len(x.lines[b + n + 1]) < usize::MAX);
    assert(ls[b + 1 + n] =~= seq!['\t', ']', '\r', '\n']);
    assert(is_ws(c1.cur[0]));
    lemma_skip_ws(x.lines, c1, 1);
    assert(kv_next_token(x.lines, c1) == kv_scan(x.lines, c1, None));
}

/// Reading the items of an array from the `j`-th on, up to the closing bracket.
proof fn lemma_items_read(
    x: KvIn,
    ls: Seq<Seq<char>>,
    ft: spec_fn(u32) -> Seq<char>,
    v: SpecAttributeValue,
    b: int,
    j: int,
)
    requires
        x.lines == held_lines(ls),
        lines_ok(x.lines),
        array_items(v) is Some,
        floats_read_back(ft, x.ft),
        forall|m: int| 0 <= m < array_items(v)->0.len() ==> line_reads_back(ft, (seq![], #[trigger] array_items(v)->0[m])),
        array_take(v, array_items(v)->0.len() as int) == v,
        forall|m: int| 0 <= m < array_items(v)->0.len() ==> push_item(array_take(v, m), #[trigger] array_items(v)->0[m]) == array_take(v, m + 1),
        forall|m: int| 0 <= m < array_items(v)->0.len() ==> kv_type_name(spec_type_of(#[trigger] array_items(v)->0[m])) == array_single(v),
        is_value_type(array_single(v)),
        array_body_at(ls, ft, array_items(v)->0, b),
        0 <= j <= array_items(v)->0.len(),
    ensures
        kv_items(x, item_cursor(ls, ft, array_items(v)->0, b, j), array_single(v), array_take(v, j)) == Ok::<
            (SpecAttributeValue, KvCursor),
            KeyValues2SerializationError,
        >((v, after_brace_at(ls, b + 1 + array_items(v)->0.len()))),
    decreases array_items(v)->0.len() - j,
{
    let vs = array_items(v)->0;
    let n = vs.len() as int;
    let single = array_single(v);
    lemma_item_next(x, ls, ft, vs, b, j);
    if j == n {
        lemma_item_close(x, ls, ft, vs, b, single);
    } else {
        lemma_item_value(x, ls, ft, vs, b, j, single);
        assert(push_item(array_take(v, j), vs[j]) == array_take(v, j + 1));
        lemma_items_read(x, ls, ft, v, b, j + 1);
    }
}

/// The next lines are an array attribute of one-line values as the writer
/// writes it: the reader sets the attribute to the array and stops after
/// the closing bracket.
#[verifier::rlimit(40)]
proof fn lemma_array_step(x: KvIn, s: KvState, e: usize, ls: Seq<Seq<char>>, ft: spec_fn(u32) -> Seq<char>, name: Seq<char>, v: SpecAttributeValue)
    requires
        x.lines == held_lines(ls),
        lines_ok(x.lines),
        cursor_ok(x.lines, s.c),
        rest_ws(s.c),
        0 <= s.c.next,
        ls[s.c.next] == attr2(1, name, kv_type_name(spec_type_of(v))),
        line_safe(name),
        name != "name"@,
        array_items(v) is Some,
        floats_read_back(ft, x.ft),
        forall|m: int| 0 <= m < array_items(v)->0.len() ==> line_reads_back(ft, (seq![], #[trigger] array_items(v)->0[m])),
        array_take(v, array_items(v)->0.len() as int) == v,
        forall|m: int| 0 <= m < array_items(v)->0.len() ==> push_item(array_take(v, m), #[trigger] array_items(v)->0[m]) == array_take(v, m + 1),
        forall|m: int| 0 <= m < array_items(v)->0.len() ==> kv_type_name(spec_type_of(#[trigger] array_items(v)->0[m])) == array_single(v),
        array_names(v),
        array_body_at(ls, ft, array_items(v)->0, s.c.next + 1),
    ensures
        kv_attrs(x, s, e) == kv_attrs(
            x,
            kv_set(at(s, after_brace_at(ls, s.c.next + 2 + array_items(v)->0.len())), e, name, v),
            e,
        ),
{
    let vs = array_items(v)->0;
    let n = vs.len() as int;
    let lines = x.lines;
    let b0 = s.c.next;
    let aty = kv_type_name(spec_type_of(v));
    let single = array_single(v);
    assert(lines[b0] == Some(ls[b0]));
    lemma_safe_plain(aty);
    let en = escape(name);
    let text = tabs(1) + quoted(en) + sp() + quoted(aty);
    assert(ls[b0] =~= text + crlf());
    lemma_next_line(lines, s.c);
    let c = next_start(lines, s.c);
    assert(c == line_start(ls, b0));
    assert(c.cur.subrange(0, text.len() as int) =~= text);
    let part1 = tabs(1) + quoted(en);
    let part2 = sp() + quoted(escape(aty));
    assert(text =~= part1 + part2);
    let p1 = part1.len() as int;
    assert(text.subrange(0, p1) =~= part1);
    assert(text.subrange(p1, p1 + part2.len()) =~= part2);
    assert(line_holds(c, text));
    lemma_line_part(c, text, 0, part1);
    lemma_line_part(c, text, p1, part2);
    assert(KvCursor { col: c.col + 0, ..c } == c);
    assert forall|k: int| 0 <= k < tabs(1).len() implies is_ws(#[trigger] tabs(1)[k]) by {}
    assert(is_ws(sp()[0]));
    lemma_token_held(x, c, tabs(1), name);
    let c1 = KvCursor { col: c.col + p1, ..c };
    lemma_token_held(x, c1, sp(), aty);
    let c2 = KvCursor { col: text.len() as int, ..c };
    assert(kv_text(x, c1) == Ok::<(Seq<char>, KvCursor), KeyValues2SerializationError>((aty, c2)));
    assert(lines[b0 + 1] == Some(ls[b0 + 1]));
    assert(line_len(lines[b0]) < usize::MAX);
    assert(cursor_ok(lines, c2));
    assert(rest_ws(c2));
    assert(ls[b0 + 1] =~= seq!['\t', '[', '\r', '\n']);
    lemma_next_line(lines, c2);
    let c3 = line_start(ls, b0 + 1);
    assert(next_start(lines, c2) == c3);
    assert(is_ws(c3.cur[0]));
    lemma_skip_ws(lines, c3, 1);
    assert(kv_next_token(lines, c3) == kv_scan(lines, c3, None));
    let c4 = item_cursor(ls, ft, vs, b0 + 1, 0);
    assert(kv_next_token(lines, c2) == Ok::<(Option<KvToken>, KvCursor), KeyValues2SerializationError>(
        (Some(KvToken::OpenBracket), c4),
    ));
    lemma_items_read(x, ls, ft, v, b0 + 1, 0);
    let cc = after_brace_at(ls, b0 + 2 + n);
    assert(kv_value(x, c2, aty) == Ok::<(Option<SpecAttributeValue>, KvCursor), KeyValues2SerializationError>((None, c2)));
    assert(kv_array(x, c2, aty) == Ok::<(Option<SpecAttributeValue>, KvCursor), KeyValues2SerializationError>((Some(v), cc)));
    assert(kv_attr(x, at(s, c2), e, name, aty) == Ok::<KvState, KeyValues2SerializationError>(kv_set(at(s, cc), e, name, v)));
    assert(lines[b0 + 2 + n] == Some(ls[b0 + 2 + n]));
    assert(ls[b0 + 1 + 1 + n] =~= seq!['\t', ']', '\r', '\n']);
    assert(cursor_ok(lines, cc));
    lemma_rest_mono(lines, b0, b0 + 2 + n);
    assert(kv_rest(lines, b0 + 2 + n) == line_len(lines[b0 + 2 + n]) + 1 + kv_rest(lines, b0 + 3 + n));
    assert(advanced(x, cc, s.c));
}

/// The type name "element" names no single type and no array type.
proof fn lemma_element_name()
    ensures
        !is_value_type("element"@),
        array_start("element"@) is None,
        safe_text("element"@),
        "element"@ != "string"@,
        "element"@ != "elementid"@,
{
    reveal_strlit("element");
    reveal_strlit("int");
    reveal_strlit("int_array");
    reveal_strlit("float");
    reveal_strlit("float_array");
    reveal_strlit("bool");
    reveal_strlit("bool_array");
    reveal_strlit("string");
    reveal_strlit("string_array");
    reveal_strlit("binary");
    reveal_strlit("binary_array");
    reveal_strlit("elementid");
    reveal_strlit("elementid_array");
    reveal_strlit("time");
    reveal_strlit("time_array");
    reveal_strlit("color");
    reveal_strlit("color_array");
    reveal_strlit("vector2");
    reveal_strlit("vector2_array");
    reveal_strlit("vector3");
    reveal_strlit("vector3_array");
    reveal_strlit("vector4");
    reveal_strlit("vector4_array");
    reveal_strlit("qangle");
    reveal_strlit("qangle_array");
    reveal_strlit("quaternion");
    reveal_strlit("quaternion_array");
    reveal_strlit("matrix");
    reveal_strlit("matrix_array");
    reveal_strlit("uint64");
    reveal_strlit("uint64_array");
    reveal_strlit("uint8");
    reveal_strlit("uint8_array");
    assert("element"@.len() != "int"@.len());
    assert("element"@.len() != "float"@.len());
    assert("element"@.len() != "bool"@.len());
    assert("element"@.len() != "string"@.len());
    assert("element"@.len() != "binary"@.len());
    assert("element"@.len() != "elementid"@.len());
    assert("element"@.len() != "time"@.len());
    assert("element"@.len() != "color"@.len());
    assert("element"@[0] != "vector2"@[0]);
    assert("element"@[0] != "vector3"@[0]);
    assert("element"@[0] != "vector4"@[0]);
    assert("element"@.len() != "qangle"@.len());
    assert("element"@.len() != "quaternion"@.len());
    assert("element"@.len() != "matrix"@.len());
    assert("element"@.len() != "uint64"@.len());
    assert("element"@.len() != "uint8"@.len());
    assert("element"@.len() != "int_array"@.len());
    assert("element"@.len() != "float_array"@.len());
    assert("element"@.len() != "bool_array"@.len());
    assert("element"@.len() != "string_array"@.len());
    assert("element"@.len() != "binary_array"@.len());
    assert("element"@.len() != "elementid_array"@.len());
    assert("element"@.len() != "time_array"@.len());
    assert("element"@.len() != "color_array"@.len());
    assert("element"@.len() != "vector2_array"@.len());
    assert("element"@.len() != "vector3_array"@.len());
    assert("element"@.len() != "vector4_array"@.len());
    assert("element"@.len() != "qangle_array"@.len());
    assert("element"@.len() != "quaternion_array"@.len());
    assert("element"@.len() != "matrix_array"@.len());
    assert("element"@.len() != "uint64_array"@.len());
    assert("element"@.len() != "uint8_array"@.len());
    assert(safe_text("element"@));
}

/// The next line is an attribute line that the writer writes for an empty
/// element reference: the reader sets the attribute to an empty reference
/// and stops after the line's text.
#[verifier::rlimit(40)]
proof fn lemma_null_ref_step(x: KvIn, s: KvState, e: usize, name: Seq<char>)
    requires
        lines_ok(x.lines),
        cursor_ok(x.lines, s.c),
        rest_ws(s.c),
        0 <= s.c.next < x.lines.len(),
        x.lines[s.c.next] == Some(attribute_line(1, name, "element"@, seq![]) + crlf()),
        plain_backslashes(name),
        name != "name"@,
    ensures
        kv_attrs(x, s, e) == kv_attrs(
            x,
            kv_set(
                at(s, KvCursor { col: attribute_line(1, name, "element"@, seq![]).len() as int, ..next_start(x.lines, s.c) }),
                e,
                name,
                SpecAttributeValue::Element(None),
            ),
            e,
        ),
{
    lemma_element_name();
    let ty = "element"@;
    let val = Seq::<char>::empty();
    let c = next_start(x.lines, s.c);
    lemma_next_line(x.lines, s.c);
    let en = escape(name);
    lemma_safe_plain(ty);
    lemma_safe_plain(val);
    let text = attribute_line(1, name, ty, val);
    assert(c.cur.subrange(0, text.len() as int) =~= text);
    assert(line_holds(c, text));
    let part1 = tabs(1) + quoted(en);
    let part2 = sp() + quoted(escape(ty));
    let part3 = sp() + quoted(escape(val));
    assert(text =~= part1 + part2 + part3);
    let p1 = part1.len() as int;
    let p2 = p1 + part2.len();
    assert(text.subrange(0, p1) =~= part1);
    assert(text.subrange(p1, p1 + part2.len()) =~= part2);
    assert(text.subrange(p2, p2 + part3.len()) =~= part3);
    lemma_line_part(c, text, 0, part1);
    lemma_line_part(c, text, p1, part2);
    lemma_line_part(c, text, p2, part3);
    assert(KvCursor { col: c.col + 0, ..c } == c);
    assert forall|k: int| 0 <= k < tabs(1).len() implies is_ws(#[trigger] tabs(1)[k]) by {}
    assert(is_ws(sp()[0]));
    lemma_token_held(x, c, tabs(1), name);
    let c1 = KvCursor { col: c.col + p1, ..c };
    lemma_token_held(x, c1, sp(), ty);
    let c2 = KvCursor { col: c.col + p2, ..c };
    lemma_token_held(x, c2, sp(), val);
    let c3 = KvCursor { col: c.col + text.len(), ..c };
    assert(kv_text(x, c1) == Ok::<(Seq<char>, KvCursor), KeyValues2SerializationError>((ty, c2)));
    assert(kv_text(x, c2) == Ok::<(Seq<char>, KvCursor), KeyValues2SerializationError>((val, c3)));
    assert(kv_value(x, c2, ty) == Ok::<(Option<SpecAttributeValue>, KvCursor), KeyValues2SerializationError>((None, c2)));
    assert(kv_array(x, c2, ty) == Ok::<(Option<SpecAttributeValue>, KvCursor), KeyValues2SerializationError>((None, c2)));
    assert(kv_attr(x, at(s, c2), e, name, ty) == Ok::<KvState, KeyValues2SerializationError>(
        kv_set(at(s, c3), e, name, SpecAttributeValue::Element(None)),
    ));
    assert(advanced(x, c3, s.c));
}

} // verus!
