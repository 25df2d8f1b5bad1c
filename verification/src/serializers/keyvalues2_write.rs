//! Writing element graphs as KeyValues2 text.

use vstd::prelude::*;
use indexmap::IndexMap;
use crate::attribute::{
    blocks_view, matrices_view, matrix_entries, strings_view, uuids_view, Angle, AttributeType,
    AttributeValue, BinaryBlock, Color, Matrix, Quaternion, SpecAttributeValue, Time, UuidBytes,
    Vector2, Vector3, Vector4,
};
use crate::collections::{id_map_entries, id_map_get_index_of, key_position, lemma_key_position};
use crate::element::{ElementGraph, ElementView};
use crate::ids::{push_uuid_text, uuid_text};
use crate::serializers::collect::{graph_refs_in, id_entries, lemma_id_map_key_position};
use crate::serializers::keyvalues2_collect::kv_state_inv;
use crate::serializers::keyvalues2_encode::{
    angle_text, attr2, attr3, binary_item, binary_items, bool_text, color_text, comma, id_line,
    is_top, item, items, joined, matrix_item, matrix_items, matrix_row, matrix_rows,
    quaternion_text, quote_mark, ref_line, sp, ulong_text, vector2_text, vector3_text,
    vector4_text, KvText,
};
use crate::serializers::keyvalues2_text::{
    escape, format_escape_characters, hex_lines, line, push_hex_digits, quoted, StringWriter,
};
use crate::text::{append_chars, append_str, int_decimal, nat_decimal, push_i64_decimal, push_u64_decimal};

verus! {

/// The closure `f` gives the text `ft(b)` for every bit pattern `b`.
pub open spec fn gives_u32<F: Fn(u32) -> String>(f: F, ft: spec_fn(u32) -> Seq<char>) -> bool {
    &&& forall|b: u32| call_requires(f, (b,))
    &&& forall|b: u32, s: String| call_ensures(f, (b,), s) ==> s@ == ft(b)
}

/// The closure `f` gives the text `tt(v)` for every time `v`.
pub open spec fn gives_i32<T: Fn(i32) -> String>(f: T, tt: spec_fn(i32) -> Seq<char>) -> bool {
    &&& forall|v: i32| call_requires(f, (v,))
    &&& forall|v: i32, s: String| call_ensures(f, (v,), s) ==> s@ == tt(v)
}

/// Appends the text of a floating-point number given by its bit pattern.
pub fn push_float<F: Fn(u32) -> String>(dst: &mut Vec<char>, f: &F, Ghost(ft): Ghost<spec_fn(u32) -> Seq<char>>, v: u32)
    requires
        gives_u32(*f, ft),
    ensures
        final(dst)@ == old(dst)@ + ft(v),
{
    let s = f(v);
    append_str(dst, s.as_str());
}

/// Appends the text of a time given in ten-thousandths of a second.
pub fn push_time<T: Fn(i32) -> String>(dst: &mut Vec<char>, f: &T, Ghost(tt): Ghost<spec_fn(i32) -> Seq<char>>, v: i32)
    requires
        gives_i32(*f, tt),
    ensures
        final(dst)@ == old(dst)@ + tt(v),
{
    let s = f(v);
    append_str(dst, s.as_str());
}

/// Appends numbers joined by spaces.
pub fn push_joined<F: Fn(u32) -> String>(dst: &mut Vec<char>, xs: &[u32], f: &F, Ghost(ft): Ghost<spec_fn(u32) -> Seq<char>>)
    requires
        gives_u32(*f, ft),
    ensures
        final(dst)@ == old(dst)@ + joined(xs@, ft),
{
    let mut i: usize = 0;
    while i < xs.len()
        invariant
            gives_u32(*f, ft),
            i <= xs@.len(),
            dst@ == old(dst)@ + joined(xs@.take(i as int), ft),
        decreases xs@.len() - i,
    {
        let ghost before = dst@;
        if i > 0 {
            dst.push(' ');
        }
        push_float(dst, f, Ghost(ft), xs[i]);
        proof {
            let t1 = xs@.take(i + 1);
            assert(t1.drop_last() =~= xs@.take(i as int));
            if i == 0 {
                assert(xs@.take(0) =~= Seq::<u32>::empty());
                assert(dst@ =~= old(dst)@ + joined(t1, ft));
            } else {
                assert(dst@ =~= old(dst)@ + joined(t1, ft));
            }
        }
        i = i + 1;
    }
    assert(xs@.take(xs@.len() as int) =~= xs@);
}

/// Appends the four channels of a color.
pub fn push_color(dst: &mut Vec<char>, c: &Color)
    ensures
        final(dst)@ == old(dst)@ + color_text(*c),
{
    push_u64_decimal(dst, c.red as u64);
    dst.push(' ');
    push_u64_decimal(dst, c.green as u64);
    dst.push(' ');
    push_u64_decimal(dst, c.blue as u64);
    dst.push(' ');
    push_u64_decimal(dst, c.alpha as u64);
    assert(dst@ =~= old(dst)@ + color_text(*c));
}

/// Appends `0x` and the uppercase hexadecimal digits of `v`.
pub fn push_ulong(dst: &mut Vec<char>, v: u64)
    ensures
        final(dst)@ == old(dst)@ + ulong_text(v),
{
    dst.push('0');
    dst.push('x');
    push_hex_digits(dst, v);
    assert(dst@ =~= old(dst)@ + ulong_text(v));
}

/// Appends an escaped string.
pub fn push_escaped(dst: &mut Vec<char>, s: &str)
    ensures
        final(dst)@ == old(dst)@ + escape(s@),
{
    let e = format_escape_characters(s);
    append_str(dst, e.as_str());
}

/// Appends text between double quotes.
pub fn push_quoted(dst: &mut Vec<char>, s: &[char])
    ensures
        final(dst)@ == old(dst)@ + quoted(s@),
{
    dst.push('"');
    append_chars(dst, s);
    dst.push('"');
    assert(dst@ =~= old(dst)@ + quoted(s@));
}

impl StringWriter {
    /// Writes a line with an attribute's name, type and value.
    pub fn write_attr3(&mut self, name: &str, ty: &[char], val: &[char])
        ensures
            final(self).out@ == old(self).out@ + attr3(old(self).tab_index as nat, name@, ty@, val@),
            final(self).tab_index == old(self).tab_index,
    {
        let mut text: Vec<char> = Vec::new();
        let mut escaped: Vec<char> = Vec::new();
        push_escaped(&mut escaped, name);
        push_quoted(&mut text, escaped.as_slice());
        text.push(' ');
        push_quoted(&mut text, ty);
        text.push(' ');
        push_quoted(&mut text, val);
        assert(text@ =~= quoted(escape(name@)) + sp() + quoted(ty@) + sp() + quoted(val@));
        self.write_line(text.as_slice());
    }

    /// Writes a line with an attribute's name and type.
    pub fn write_attr2(&mut self, name: &str, ty: &[char])
        ensures
            final(self).out@ == old(self).out@ + attr2(old(self).tab_index as nat, name@, ty@),
            final(self).tab_index == old(self).tab_index,
    {
        let mut text: Vec<char> = Vec::new();
        let mut escaped: Vec<char> = Vec::new();
        push_escaped(&mut escaped, name);
        push_quoted(&mut text, escaped.as_slice());
        text.push(' ');
        push_quoted(&mut text, ty);
        assert(text@ =~= quoted(escape(name@)) + sp() + quoted(ty@));
        self.write_line(text.as_slice());
    }

    /// Writes an array item on a line of its own.
    pub fn write_item(&mut self, text: &[char], last: bool)
        ensures
            final(self).out@ == old(self).out@ + item(old(self).tab_index as nat, text@, last),
            final(self).tab_index == old(self).tab_index,
    {
        let mut t: Vec<char> = Vec::new();
        push_quoted(&mut t, text);
        if !last {
            t.push(',');
        }
        assert(t@ =~= quoted(text@) + comma(last));
        self.write_line(t.as_slice());
    }

    /// Writes a reference line of an element array.
    pub fn write_ref_line(&mut self, text: &[char], last: bool)
        ensures
            final(self).out@ == old(self).out@ + ref_line(old(self).tab_index as nat, text@, last),
            final(self).tab_index == old(self).tab_index,
    {
        let mut t: Vec<char> = Vec::new();
        let word = vec!['e', 'l', 'e', 'm', 'e', 'n', 't'];
        assert(word@ == "element"@) by {
            reveal_strlit("element");
        }
        push_quoted(&mut t, word.as_slice());
        t.push(' ');
        push_quoted(&mut t, text);
        if !last {
            t.push(',');
        }
        assert(t@ =~= quoted("element"@) + sp() + quoted(text@) + comma(last));
        self.write_line(t.as_slice());
    }

    /// Writes the lines of a matrix.
    pub fn write_matrix_rows<F: Fn(u32) -> String>(&mut self, m: &Matrix, f: &F, Ghost(ft): Ghost<spec_fn(u32) -> Seq<char>>)
        requires
            gives_u32(*f, ft),
        ensures
            final(self).out@ == old(self).out@ + matrix_rows(old(self).tab_index as nat, matrix_entries(*m), ft),
            final(self).tab_index == old(self).tab_index,
    {
        let ghost t = self.tab_index as nat;
        let ghost me = matrix_entries(*m);
        let mut r: usize = 0;
        while r < 4
            invariant
                gives_u32(*f, ft),
                r <= 4,
                t == self.tab_index as nat,
                me == matrix_entries(*m),
                self.out@ == old(self).out@ + (if r == 0 { seq![] } else if r == 1 { line(t, matrix_row(me, 0, ft)) }
                    else if r == 2 { line(t, matrix_row(me, 0, ft)) + line(t, matrix_row(me, 1, ft)) }
                    else if r == 3 { line(t, matrix_row(me, 0, ft)) + line(t, matrix_row(me, 1, ft)) + line(t, matrix_row(me, 2, ft)) }
                    else { matrix_rows(t, me, ft) }),
            decreases 4 - r,
        {
            let row = [m.0[r][0], m.0[r][1], m.0[r][2], m.0[r][3]];
            assert(row@ =~= me.subrange(4 * r, 4 * r + 4));
            let mut text: Vec<char> = Vec::new();
            push_joined(&mut text, &row, f, Ghost(ft));
            let ghost before = self.out@;
            self.write_line(text.as_slice());
            assert(self.out@ == before + line(t, matrix_row(me, r as int, ft)));
            r = r + 1;
            assert(self.out@ =~= old(self).out@ + (if r == 0 { seq![] } else if r == 1 { line(t, matrix_row(me, 0, ft)) }
                    else if r == 2 { line(t, matrix_row(me, 0, ft)) + line(t, matrix_row(me, 1, ft)) }
                    else if r == 3 { line(t, matrix_row(me, 0, ft)) + line(t, matrix_row(me, 1, ft)) + line(t, matrix_row(me, 2, ft)) }
                    else { matrix_rows(t, me, ft) }));
        }
    }

    /// Writes a multi-line matrix value between quote lines.
    pub fn write_matrix_item<F: Fn(u32) -> String>(&mut self, m: &Matrix, last: bool, f: &F, Ghost(ft): Ghost<spec_fn(u32) -> Seq<char>>)
        requires
            gives_u32(*f, ft),
            old(self).tab_index < usize::MAX,
        ensures
            final(self).out@ == old(self).out@ + matrix_item(old(self).tab_index as nat, matrix_entries(*m), last, ft),
            final(self).tab_index == old(self).tab_index,
    {
        let q = vec!['"'];
        self.write_line(q.as_slice());
        self.tab_index = self.tab_index + 1;
        self.write_matrix_rows(m, f, Ghost(ft));
        self.tab_index = self.tab_index - 1;
        let mut close: Vec<char> = vec!['"'];
        if !last {
            close.push(',');
        }
        assert(close@ =~= quote_mark(last));
        self.write_line(close.as_slice());
        assert(self.out@ =~= old(self).out@ + matrix_item(old(self).tab_index as nat, matrix_entries(*m), last, ft));
    }

    /// Writes a multi-line block of binary data between quote lines.
    pub fn write_binary_item(&mut self, b: &BinaryBlock, last: bool)
        requires
            old(self).tab_index < usize::MAX,
        ensures
            final(self).out@ == old(self).out@ + binary_item(old(self).tab_index as nat, b.0@, last),
            final(self).tab_index == old(self).tab_index,
    {
        let q = vec!['"'];
        self.write_line(q.as_slice());
        self.tab_index = self.tab_index + 1;
        self.write_hex_lines(b.0.as_slice());
        self.tab_index = self.tab_index - 1;
        let mut close: Vec<char> = vec!['"'];
        if !last {
            close.push(',');
        }
        assert(close@ =~= quote_mark(last));
        self.write_line(close.as_slice());
        assert(self.out@ =~= old(self).out@ + binary_item(old(self).tab_index as nat, b.0@, last));
    }
}

impl StringWriter {
    /// Writes the items of an array, one a line.
    pub fn write_integers_items(&mut self, xs: &Vec<i32>)
        ensures
            final(self).out@ == old(self).out@ + items(old(self).tab_index as nat, xs@, |i: i32| int_decimal(i as int), xs@.len()),
            final(self).tab_index == old(self).tab_index,
    {
        let ghost t = self.tab_index as nat;
        let ghost v = xs@;
        let ghost fv = |i: i32| int_decimal(i as int);
        let n = xs.len();
        let mut i: usize = 0;
        while i < n
            invariant
                n == xs@.len(),
                v == xs@,
                v.len() == n,
                fv == |i: i32| int_decimal(i as int),
                i <= n,
                t == self.tab_index as nat,
                self.out@ == old(self).out@ + items(t, v, fv, i as nat),
            decreases n - i,
        {
            let mut text: Vec<char> = Vec::new();
            push_i64_decimal(&mut text, xs[i] as i64);
            assert(text@ =~= fv(v[i as int]));
            self.write_item(text.as_slice(), i + 1 == n);
            i = i + 1;
        }
    }

    /// Writes the items of an array, one a line.
    pub fn write_floats_items<F: Fn(u32) -> String>(&mut self, xs: &Vec<u32>, f: &F, Ghost(ft): Ghost<spec_fn(u32) -> Seq<char>>)
        requires
            gives_u32(*f, ft),
        ensures
            final(self).out@ == old(self).out@ + items(old(self).tab_index as nat, xs@, ft, xs@.len()),
            final(self).tab_index == old(self).tab_index,
    {
        let ghost t = self.tab_index as nat;
        let ghost v = xs@;
        let ghost fv = ft;
        let n = xs.len();
        let mut i: usize = 0;
        while i < n
            invariant
                gives_u32(*f, ft),
                n == xs@.len(),
                v == xs@,
                v.len() == n,
                fv == ft,
                i <= n,
                t == self.tab_index as nat,
                self.out@ == old(self).out@ + items(t, v, fv, i as nat),
            decreases n - i,
        {
            let mut text: Vec<char> = Vec::new();
            push_float(&mut text, f, Ghost(ft), xs[i]);
            assert(text@ =~= fv(v[i as int]));
            self.write_item(text.as_slice(), i + 1 == n);
            i = i + 1;
        }
    }

    /// Writes the items of an array, one a line.
    pub fn write_booleans_items(&mut self, xs: &Vec<bool>)
        ensures
            final(self).out@ == old(self).out@ + items(old(self).tab_index as nat, xs@, |b: bool| bool_text(b), xs@.len()),
            final(self).tab_index == old(self).tab_index,
    {
        let ghost t = self.tab_index as nat;
        let ghost v = xs@;
        let ghost fv = |b: bool| bool_text(b);
        let n = xs.len();
        let mut i: usize = 0;
        while i < n
            invariant
                n == xs@.len(),
                v == xs@,
                v.len() == n,
                fv == |b: bool| bool_text(b),
                i <= n,
                t == self.tab_index as nat,
                self.out@ == old(self).out@ + items(t, v, fv, i as nat),
            decreases n - i,
        {
            let mut text: Vec<char> = Vec::new();
            text.push(if xs[i] { '1' } else { '0' });
            assert(text@ =~= fv(v[i as int]));
            self.write_item(text.as_slice(), i + 1 == n);
            i = i + 1;
        }
    }

    /// Writes the items of an array, one a line.
    pub fn write_strings_items(&mut self, xs: &Vec<String>)
        ensures
            final(self).out@ == old(self).out@ + items(old(self).tab_index as nat, strings_view(xs@), |s: Seq<char>| escape(s), strings_view(xs@).len()),
            final(self).tab_index == old(self).tab_index,
    {
        let ghost t = self.tab_index as nat;
        let ghost v = strings_view(xs@);
        let ghost fv = |s: Seq<char>| escape(s);
        let n = xs.len();
        let mut i: usize = 0;
        while i < n
            invariant
                n == xs@.len(),
                v == strings_view(xs@),
                v.len() == n,
                fv == |s: Seq<char>| escape(s),
                i <= n,
                t == self.tab_index as nat,
                self.out@ == old(self).out@ + items(t, v, fv, i as nat),
            decreases n - i,
        {
            let mut text: Vec<char> = Vec::new();
            push_escaped(&mut text, xs[i].as_str());
            assert(text@ =~= fv(v[i as int]));
            self.write_item(text.as_slice(), i + 1 == n);
            i = i + 1;
        }
    }

    /// Writes the items of an array, one a line.
    pub fn write_uuids_items(&mut self, xs: &Vec<UuidBytes>)
        ensures
            final(self).out@ == old(self).out@ + items(old(self).tab_index as nat, uuids_view(xs@), |id: Seq<u8>| uuid_text(id), uuids_view(xs@).len()),
            final(self).tab_index == old(self).tab_index,
    {
        let ghost t = self.tab_index as nat;
        let ghost v = uuids_view(xs@);
        let ghost fv = |id: Seq<u8>| uuid_text(id);
        let n = xs.len();
        let mut i: usize = 0;
        while i < n
            invariant
                n == xs@.len(),
                v == uuids_view(xs@),
                v.len() == n,
                fv == |id: Seq<u8>| uuid_text(id),
                i <= n,
                t == self.tab_index as nat,
                self.out@ == old(self).out@ + items(t, v, fv, i as nat),
            decreases n - i,
        {
            let mut text: Vec<char> = Vec::new();
            push_uuid_text(&mut text, &xs[i]);
            assert(text@ =~= fv(v[i as int]));
            self.write_item(text.as_slice(), i + 1 == n);
            i = i + 1;
        }
    }

    /// Writes the items of an array, one a line.
    pub fn write_times_items<T: Fn(i32) -> String>(&mut self, xs: &Vec<Time>, tf: &T, Ghost(tt): Ghost<spec_fn(i32) -> Seq<char>>)
        requires
            gives_i32(*tf, tt),
        ensures
            final(self).out@ == old(self).out@ + items(old(self).tab_index as nat, xs@, |tm: Time| tt(tm.0), xs@.len()),
            final(self).tab_index == old(self).tab_index,
    {
        let ghost t = self.tab_index as nat;
        let ghost v = xs@;
        let ghost fv = |tm: Time| tt(tm.0);
        let n = xs.len();
        let mut i: usize = 0;
        while i < n
            invariant
                gives_i32(*tf, tt),
                n == xs@.len(),
                v == xs@,
                v.len() == n,
                fv == |tm: Time| tt(tm.0),
                i <= n,
                t == self.tab_index as nat,
                self.out@ == old(self).out@ + items(t, v, fv, i as nat),
            decreases n - i,
        {
            let mut text: Vec<char> = Vec::new();
            push_time(&mut text, tf, Ghost(tt), xs[i].0);
            assert(text@ =~= fv(v[i as int]));
            self.write_item(text.as_slice(), i + 1 == n);
            i = i + 1;
        }
    }

    /// Writes the items of an array, one a line.
    pub fn write_colors_items(&mut self, xs: &Vec<Color>)
        ensures
            final(self).out@ == old(self).out@ + items(old(self).tab_index as nat, xs@, |c: Color| color_text(c), xs@.len()),
            final(self).tab_index == old(self).tab_index,
    {
        let ghost t = self.tab_index as nat;
        let ghost v = xs@;
        let ghost fv = |c: Color| color_text(c);
        let n = xs.len();
        let mut i: usize = 0;
        while i < n
            invariant
                n == xs@.len(),
                v == xs@,
                v.len() == n,
                fv == |c: Color| color_text(c),
                i <= n,
                t == self.tab_index as nat,
                self.out@ == old(self).out@ + items(t, v, fv, i as nat),
            decreases n - i,
        {
            let mut text: Vec<char> = Vec::new();
            push_color(&mut text, &xs[i]);
            assert(text@ =~= fv(v[i as int]));
            self.write_item(text.as_slice(), i + 1 == n);
            i = i + 1;
        }
    }

    /// Writes the items of an array, one a line.
    pub fn write_vector2s_items<F: Fn(u32) -> String>(&mut self, xs: &Vec<Vector2>, f: &F, Ghost(ft): Ghost<spec_fn(u32) -> Seq<char>>)
        requires
            gives_u32(*f, ft),
        ensures
            final(self).out@ == old(self).out@ + items(old(self).tab_index as nat, xs@, |v: Vector2| vector2_text(v, ft), xs@.len()),
            final(self).tab_index == old(self).tab_index,
    {
        let ghost t = self.tab_index as nat;
        let ghost v = xs@;
        let ghost fv = |v: Vector2| vector2_text(v, ft);
        let n = xs.len();
        let mut i: usize = 0;
        while i < n
            invariant
                gives_u32(*f, ft),
                n == xs@.len(),
                v == xs@,
                v.len() == n,
                fv == |v: Vector2| vector2_text(v, ft),
                i <= n,
                t == self.tab_index as nat,
                self.out@ == old(self).out@ + items(t, v, fv, i as nat),
            decreases n - i,
        {
            let mut text: Vec<char> = Vec::new();
            let a = [xs[i].x, xs[i].y];
            assert(a@ =~= seq![xs@[i as int].x, xs@[i as int].y]);
            push_joined(&mut text, &a, f, Ghost(ft));
            assert(text@ =~= fv(v[i as int]));
            self.write_item(text.as_slice(), i + 1 == n);
            i = i + 1;
        }
    }

    /// Writes the items of an array, one a line.
    pub fn write_vector3s_items<F: Fn(u32) -> String>(&mut self, xs: &Vec<Vector3>, f: &F, Ghost(ft): Ghost<spec_fn(u32) -> Seq<char>>)
        requires
            gives_u32(*f, ft),
        ensures
            final(self).out@ == old(self).out@ + items(old(self).tab_index as nat, xs@, |v: Vector3| vector3_text(v, ft), xs@.len()),
            final(self).tab_index == old(self).tab_index,
    {
        let ghost t = self.tab_index as nat;
        let ghost v = xs@;
        let ghost fv = |v: Vector3| vector3_text(v, ft);
        let n = xs.len();
        let mut i: usize = 0;
        while i < n
            invariant
                gives_u32(*f, ft),
                n == xs@.len(),
                v == xs@,
                v.len() == n,
                fv == |v: Vector3| vector3_text(v, ft),
                i <= n,
                t == self.tab_index as nat,
                self.out@ == old(self).out@ + items(t, v, fv, i as nat),
            decreases n - i,
        {
            let mut text: Vec<char> = Vec::new();
            let a = [xs[i].x, xs[i].y, xs[i].z];
            assert(a@ =~= seq![xs@[i as int].x, xs@[i as int].y, xs@[i as int].z]);
            push_joined(&mut text, &a, f, Ghost(ft));
            assert(text@ =~= fv(v[i as int]));
            self.write_item(text.as_slice(), i + 1 == n);
            i = i + 1;
        }
    }

    /// Writes the items of an array, one a line.
    pub fn write_vector4s_items<F: Fn(u32) -> String>(&mut self, xs: &Vec<Vector4>, f: &F, Ghost(ft): Ghost<spec_fn(u32) -> Seq<char>>)
        requires
            gives_u32(*f, ft),
        ensures
            final(self).out@ == old(self).out@ + items(old(self).tab_index as nat, xs@, |v: Vector4| vector4_text(v, ft), xs@.len()),
            final(self).tab_index == old(self).tab_index,
    {
        let ghost t = self.tab_index as nat;
        let ghost v = xs@;
        let ghost fv = |v: Vector4| vector4_text(v, ft);
        let n = xs.len();
        let mut i: usize = 0;
        while i < n
            invariant
                gives_u32(*f, ft),
                n == xs@.len(),
                v == xs@,
                v.len() == n,
                fv == |v: Vector4| vector4_text(v, ft),
                i <= n,
                t == self.tab_index as nat,
                self.out@ == old(self).out@ + items(t, v, fv, i as nat),
            decreases n - i,
        {
            let mut text: Vec<char> = Vec::new();
            let a = [xs[i].x, xs[i].y, xs[i].z, xs[i].w];
            assert(a@ =~= seq![xs@[i as int].x, xs@[i as int].y, xs@[i as int].z, xs@[i as int].w]);
            push_joined(&mut text, &a, f, Ghost(ft));
            assert(text@ =~= fv(v[i as int]));
            self.write_item(text.as_slice(), i + 1 == n);
            i = i + 1;
        }
    }

    /// Writes the items of an array, one a line.
    pub fn write_angles_items<F: Fn(u32) -> String>(&mut self, xs: &Vec<Angle>, f: &F, Ghost(ft): Ghost<spec_fn(u32) -> Seq<char>>)
        requires
            gives_u32(*f, ft),
        ensures
            final(self).out@ == old(self).out@ + items(old(self).tab_index as nat, xs@, |v: Angle| angle_text(v, ft), xs@.len()),
            final(self).tab_index == old(self).tab_index,
    {
        let ghost t = self.tab_index as nat;
        let ghost v = xs@;
        let ghost fv = |v: Angle| angle_text(v, ft);
        let n = xs.len();
        let mut i: usize = 0;
        while i < n
            invariant
                gives_u32(*f, ft),
                n == xs@.len(),
                v == xs@,
                v.len() == n,
                fv == |v: Angle| angle_text(v, ft),
                i <= n,
                t == self.tab_index as nat,
                self.out@ == old(self).out@ + items(t, v, fv, i as nat),
            decreases n - i,
        {
            let mut text: Vec<char> = Vec::new();
            let a = [xs[i].pitch, xs[i].yaw, xs[i].roll];
            assert(a@ =~= seq![xs@[i as int].pitch, xs@[i as int].yaw, xs@[i as int].roll]);
            push_joined(&mut text, &a, f, Ghost(ft));
            assert(text@ =~= fv(v[i as int]));
            self.write_item(text.as_slice(), i + 1 == n);
            i = i + 1;
        }
    }

    /// Writes the items of an array, one a line.
    pub fn write_quaternions_items<F: Fn(u32) -> String>(&mut self, xs: &Vec<Quaternion>, f: &F, Ghost(ft): Ghost<spec_fn(u32) -> Seq<char>>)
        requires
            gives_u32(*f, ft),
        ensures
            final(self).out@ == old(self).out@ + items(old(self).tab_index as nat, xs@, |v: Quaternion| quaternion_text(v, ft), xs@.len()),
            final(self).tab_index == old(self).tab_index,
    {
        let ghost t = self.tab_index as nat;
        let ghost v = xs@;
        let ghost fv = |v: Quaternion| quaternion_text(v, ft);
        let n = xs.len();
        let mut i: usize = 0;
        while i < n
            invariant
                gives_u32(*f, ft),
                n == xs@.len(),
                v == xs@,
                v.len() == n,
                fv == |v: Quaternion| quaternion_text(v, ft),
                i <= n,
                t == self.tab_index as nat,
                self.out@ == old(self).out@ + items(t, v, fv, i as nat),
            decreases n - i,
        {
            let mut text: Vec<char> = Vec::new();
            let a = [xs[i].x, xs[i].y, xs[i].z, xs[i].w];
            assert(a@ =~= seq![xs@[i as int].x, xs@[i as int].y, xs@[i as int].z, xs@[i as int].w]);
            push_joined(&mut text, &a, f, Ghost(ft));
            assert(text@ =~= fv(v[i as int]));
            self.write_item(text.as_slice(), i + 1 == n);
            i = i + 1;
        }
    }

    /// Writes the items of an array, one a line.
    pub fn write_ulongs_items(&mut self, xs: &Vec<u64>)
        ensures
            final(self).out@ == old(self).out@ + items(old(self).tab_index as nat, xs@, |u: u64| ulong_text(u), xs@.len()),
            final(self).tab_index == old(self).tab_index,
    {
        let ghost t = self.tab_index as nat;
        let ghost v = xs@;
        let ghost fv = |u: u64| ulong_text(u);
        let n = xs.len();
        let mut i: usize = 0;
        while i < n
            invariant
                n == xs@.len(),
                v == xs@,
                v.len() == n,
                fv == |u: u64| ulong_text(u),
                i <= n,
                t == self.tab_index as nat,
                self.out@ == old(self).out@ + items(t, v, fv, i as nat),
            decreases n - i,
        {
            let mut text: Vec<char> = Vec::new();
            push_ulong(&mut text, xs[i]);
            assert(text@ =~= fv(v[i as int]));
            self.write_item(text.as_slice(), i + 1 == n);
            i = i + 1;
        }
    }

    /// Writes the items of an array, one a line.
    pub fn write_ubytes_items(&mut self, xs: &Vec<u8>)
        ensures
            final(self).out@ == old(self).out@ + items(old(self).tab_index as nat, xs@, |b: u8| nat_decimal(b as nat), xs@.len()),
            final(self).tab_index == old(self).tab_index,
    {
        let ghost t = self.tab_index as nat;
        let ghost v = xs@;
        let ghost fv = |b: u8| nat_decimal(b as nat);
        let n = xs.len();
        let mut i: usize = 0;
        while i < n
            invariant
                n == xs@.len(),
                v == xs@,
                v.len() == n,
                fv == |b: u8| nat_decimal(b as nat),
                i <= n,
                t == self.tab_index as nat,
                self.out@ == old(self).out@ + items(t, v, fv, i as nat),
            decreases n - i,
        {
            let mut text: Vec<char> = Vec::new();
            push_u64_decimal(&mut text, xs[i] as u64);
            assert(text@ =~= fv(v[i as int]));
            self.write_item(text.as_slice(), i + 1 == n);
            i = i + 1;
        }
    }

    /// Writes blocks of binary data, one after the other.
    pub fn write_binary_items(&mut self, xs: &Vec<BinaryBlock>)
        requires
            old(self).tab_index < usize::MAX,
        ensures
            final(self).out@ == old(self).out@ + binary_items(old(self).tab_index as nat, blocks_view(xs@), xs@.len()),
            final(self).tab_index == old(self).tab_index,
    {
        let ghost t = self.tab_index as nat;
        let ghost v = blocks_view(xs@);
        let n = xs.len();
        let mut i: usize = 0;
        while i < n
            invariant
                n == xs@.len(),
                v == blocks_view(xs@),
                i <= n,
                t == self.tab_index as nat,
                self.tab_index < usize::MAX,
                self.out@ == old(self).out@ + binary_items(t, v, i as nat),
            decreases n - i,
        {
            self.write_binary_item(&xs[i], i + 1 == n);
            i = i + 1;
        }
    }

    /// Writes matrices, one after the other.
    pub fn write_matrix_items<F: Fn(u32) -> String>(&mut self, xs: &Vec<Matrix>, f: &F, Ghost(ft): Ghost<spec_fn(u32) -> Seq<char>>)
        requires
            gives_u32(*f, ft),
            old(self).tab_index < usize::MAX,
        ensures
            final(self).out@ == old(self).out@ + matrix_items(old(self).tab_index as nat, matrices_view(xs@), ft, xs@.len()),
            final(self).tab_index == old(self).tab_index,
    {
        let ghost t = self.tab_index as nat;
        let ghost v = matrices_view(xs@);
        let n = xs.len();
        let mut i: usize = 0;
        while i < n
            invariant
                gives_u32(*f, ft),
                n == xs@.len(),
                v == matrices_view(xs@),
                i <= n,
                t == self.tab_index as nat,
                self.tab_index < usize::MAX,
                self.out@ == old(self).out@ + matrix_items(t, v, ft, i as nat),
            decreases n - i,
        {
            self.write_matrix_item(&xs[i], i + 1 == n, f, Ghost(ft));
            i = i + 1;
        }
    }
}

/// Whether a value refers to elements.
pub open spec fn refers(v: SpecAttributeValue) -> bool {
    v is Element || v is ElementArray
}

/// Whether a value is an array that refers to no elements.
pub open spec fn plain_array(v: SpecAttributeValue) -> bool {
    match v {
        SpecAttributeValue::IntegerArray(_) | SpecAttributeValue::FloatArray(_) | SpecAttributeValue::BooleanArray(_)
        | SpecAttributeValue::StringArray(_) | SpecAttributeValue::BinaryArray(_) | SpecAttributeValue::ObjectIdArray(_)
        | SpecAttributeValue::TimeArray(_) | SpecAttributeValue::ColorArray(_) | SpecAttributeValue::Vector2Array(_)
        | SpecAttributeValue::Vector3Array(_) | SpecAttributeValue::Vector4Array(_) | SpecAttributeValue::AngleArray(_)
        | SpecAttributeValue::QuaternionArray(_) | SpecAttributeValue::MatrixArray(_) | SpecAttributeValue::ULongArray(_)
        | SpecAttributeValue::UByteArray(_) => true,
        _ => false,
    }
}

impl StringWriter {
    /// Writes an attribute whose value is a single value that refers to no element.
    #[verifier::rlimit(40)]
    fn write_plain_single<F: Fn(u32) -> String, T: Fn(i32) -> String>(&mut self, name: &String, value: &AttributeValue, f: &F, tf: &T, Ghost(x): Ghost<KvText>)
        requires
            gives_u32(*f, x.ft),
            gives_i32(*tf, x.tt),
            !refers(value@),
            !plain_array(value@),
            old(self).tab_index + 2 < usize::MAX,
        ensures
            final(self).out@ == old(self).out@ + crate::serializers::keyvalues2_encode::kv_plain(x, old(self).tab_index as nat, name@, value@),
            final(self).tab_index == old(self).tab_index,
    {
        reveal(crate::serializers::keyvalues2_encode::kv_plain);
        let ty = crate::text::chars_of(crate::serializers::keyvalues2_text::get_attribute_type_name(value));
        match value {
            AttributeValue::Integer(v) => {
                let mut val: Vec<char> = Vec::new();
                push_i64_decimal(&mut val, *v as i64);
                self.write_attr3(name.as_str(), ty.as_slice(), val.as_slice());
            },
            AttributeValue::Float(v) => {
                let mut val: Vec<char> = Vec::new();
                push_float(&mut val, f, Ghost(x.ft), *v);
                self.write_attr3(name.as_str(), ty.as_slice(), val.as_slice());
            },
            AttributeValue::Boolean(v) => {
                let mut val: Vec<char> = Vec::new();
                val.push(if *v { '1' } else { '0' });
                self.write_attr3(name.as_str(), ty.as_slice(), val.as_slice());
            },
            AttributeValue::String(v) => {
                let mut val: Vec<char> = Vec::new();
                push_escaped(&mut val, v.as_str());
                self.write_attr3(name.as_str(), ty.as_slice(), val.as_slice());
            },
            AttributeValue::ObjectId(v) => {
                let mut val: Vec<char> = Vec::new();
                push_uuid_text(&mut val, v);
                self.write_attr3(name.as_str(), ty.as_slice(), val.as_slice());
            },
            AttributeValue::Time(v) => {
                let mut val: Vec<char> = Vec::new();
                push_time(&mut val, tf, Ghost(x.tt), v.0);
                self.write_attr3(name.as_str(), ty.as_slice(), val.as_slice());
            },
            AttributeValue::Color(v) => {
                let mut val: Vec<char> = Vec::new();
                push_color(&mut val, v);
                self.write_attr3(name.as_str(), ty.as_slice(), val.as_slice());
            },
            AttributeValue::Vector2(v) => {
                let mut val: Vec<char> = Vec::new();
                let a = [v.x, v.y];
                assert(a@ =~= seq![v.x, v.y]);
                push_joined(&mut val, &a, f, Ghost(x.ft));
                self.write_attr3(name.as_str(), ty.as_slice(), val.as_slice());
            },
            AttributeValue::Vector3(v) => {
                let mut val: Vec<char> = Vec::new();
                let a = [v.x, v.y, v.z];
                assert(a@ =~= seq![v.x, v.y, v.z]);
                push_joined(&mut val, &a, f, Ghost(x.ft));
                self.write_attr3(name.as_str(), ty.as_slice(), val.as_slice());
            },
            AttributeValue::Vector4(v) => {
                let mut val: Vec<char> = Vec::new();
                let a = [v.x, v.y, v.z, v.w];
                assert(a@ =~= seq![v.x, v.y, v.z, v.w]);
                push_joined(&mut val, &a, f, Ghost(x.ft));
                self.write_attr3(name.as_str(), ty.as_slice(), val.as_slice());
            },
            AttributeValue::Angle(v) => {
                let mut val: Vec<char> = Vec::new();
                let a = [v.pitch, v.yaw, v.roll];
                assert(a@ =~= seq![v.pitch, v.yaw, v.roll]);
                push_joined(&mut val, &a, f, Ghost(x.ft));
                self.write_attr3(name.as_str(), ty.as_slice(), val.as_slice());
            },
            AttributeValue::Quaternion(v) => {
                let mut val: Vec<char> = Vec::new();
                let a = [v.x, v.y, v.z, v.w];
                assert(a@ =~= seq![v.x, v.y, v.z, v.w]);
                push_joined(&mut val, &a, f, Ghost(x.ft));
                self.write_attr3(name.as_str(), ty.as_slice(), val.as_slice());
            },
            AttributeValue::ULong(v) => {
                let mut val: Vec<char> = Vec::new();
                push_ulong(&mut val, *v);
                self.write_attr3(name.as_str(), ty.as_slice(), val.as_slice());
            },
            AttributeValue::UByte(v) => {
                let mut val: Vec<char> = Vec::new();
                push_u64_decimal(&mut val, *v as u64);
                self.write_attr3(name.as_str(), ty.as_slice(), val.as_slice());
            },
            AttributeValue::Binary(v) => {
                self.write_attr2(name.as_str(), ty.as_slice());
                let q = vec!['"'];
                self.write_line(q.as_slice());
                self.tab_index = self.tab_index + 1;
                self.write_hex_lines(v.0.as_slice());
                self.tab_index = self.tab_index - 1;
                self.write_line(q.as_slice());
            },
            AttributeValue::Matrix(v) => {
                self.write_attr2(name.as_str(), ty.as_slice());
                let q = vec!['"'];
                self.write_line(q.as_slice());
                self.tab_index = self.tab_index + 1;
                self.write_matrix_rows(v, f, Ghost(x.ft));
                self.tab_index = self.tab_index - 1;
                self.write_line(q.as_slice());
            },
            _ => {
                assert(false);
            },
        }
        assert(self.out@ =~= old(self).out@ + crate::serializers::keyvalues2_encode::kv_plain(x, old(self).tab_index as nat, name@, value@));
    }

    /// Writes an attribute whose value is of this array type.
    fn write_integer_array<F: Fn(u32) -> String, T: Fn(i32) -> String>(&mut self, name: &String, value: &AttributeValue, f: &F, tf: &T, Ghost(x): Ghost<KvText>)
        requires
            gives_u32(*f, x.ft),
            gives_i32(*tf, x.tt),
            value@ is IntegerArray,
            old(self).tab_index + 2 < usize::MAX,
        ensures
            final(self).out@ == old(self).out@ + crate::serializers::keyvalues2_encode::kv_plain(x, old(self).tab_index as nat, name@, value@),
            final(self).tab_index == old(self).tab_index,
    {
        reveal(crate::serializers::keyvalues2_encode::kv_plain);
        let ty = crate::text::chars_of(crate::serializers::keyvalues2_text::get_attribute_type_name(value));
        if let AttributeValue::IntegerArray(v) = value {
            self.write_attr2(name.as_str(), ty.as_slice());
            self.write_open_bracket();
            self.write_integers_items(v);
            self.write_close_bracket();
            assert(self.out@ =~= old(self).out@ + crate::serializers::keyvalues2_encode::kv_plain(x, old(self).tab_index as nat, name@, value@));
        }
    }

    /// Writes an attribute whose value is of this array type.
    fn write_float_array<F: Fn(u32) -> String, T: Fn(i32) -> String>(&mut self, name: &String, value: &AttributeValue, f: &F, tf: &T, Ghost(x): Ghost<KvText>)
        requires
            gives_u32(*f, x.ft),
            gives_i32(*tf, x.tt),
            value@ is FloatArray,
            old(self).tab_index + 2 < usize::MAX,
        ensures
            final(self).out@ == old(self).out@ + crate::serializers::keyvalues2_encode::kv_plain(x, old(self).tab_index as nat, name@, value@),
            final(self).tab_index == old(self).tab_index,
    {
        reveal(crate::serializers::keyvalues2_encode::kv_plain);
        let ty = crate::text::chars_of(crate::serializers::keyvalues2_text::get_attribute_type_name(value));
        if let AttributeValue::FloatArray(v) = value {
            self.write_attr2(name.as_str(), ty.as_slice());
            self.write_open_bracket();
            self.write_floats_items(v, f, Ghost(x.ft));
            self.write_close_bracket();
            assert(self.out@ =~= old(self).out@ + crate::serializers::keyvalues2_encode::kv_plain(x, old(self).tab_index as nat, name@, value@));
        }
    }

    /// Writes an attribute whose value is of this array type.
    fn write_boolean_array<F: Fn(u32) -> String, T: Fn(i32) -> String>(&mut self, name: &String, value: &AttributeValue, f: &F, tf: &T, Ghost(x): Ghost<KvText>)
        requires
            gives_u32(*f, x.ft),
            gives_i32(*tf, x.tt),
            value@ is BooleanArray,
            old(self).tab_index + 2 < usize::MAX,
        ensures
            final(self).out@ == old(self).out@ + crate::serializers::keyvalues2_encode::kv_plain(x, old(self).tab_index as nat, name@, value@),
            final(self).tab_index == old(self).tab_index,
    {
        reveal(crate::serializers::keyvalues2_encode::kv_plain);
        let ty = crate::text::chars_of(crate::serializers::keyvalues2_text::get_attribute_type_name(value));
        if let AttributeValue::BooleanArray(v) = value {
            self.write_attr2(name.as_str(), ty.as_slice());
            self.write_open_bracket();
            self.write_booleans_items(v);
            self.write_close_bracket();
            assert(self.out@ =~= old(self).out@ + crate::serializers::keyvalues2_encode::kv_plain(x, old(self).tab_index as nat, name@, value@));
        }
    }

    /// Writes an attribute whose value is of this array type.
    fn write_string_array<F: Fn(u32) -> String, T: Fn(i32) -> String>(&mut self, name: &String, value: &AttributeValue, f: &F, tf: &T, Ghost(x): Ghost<KvText>)
        requires
            gives_u32(*f, x.ft),
            gives_i32(*tf, x.tt),
            value@ is StringArray,
            old(self).tab_index + 2 < usize::MAX,
        ensures
            final(self).out@ == old(self).out@ + crate::serializers::keyvalues2_encode::kv_plain(x, old(self).tab_index as nat, name@, value@),
            final(self).tab_index == old(self).tab_index,
    {
        reveal(crate::serializers::keyvalues2_encode::kv_plain);
        let ty = crate::text::chars_of(crate::serializers::keyvalues2_text::get_attribute_type_name(value));
        if let AttributeValue::StringArray(v) = value {
            self.write_attr2(name.as_str(), ty.as_slice());
            self.write_open_bracket();
            self.write_strings_items(v);
            self.write_close_bracket();
            assert(self.out@ =~= old(self).out@ + crate::serializers::keyvalues2_encode::kv_plain(x, old(self).tab_index as nat, name@, value@));
        }
    }

    /// Writes an attribute whose value is of this array type.
    fn write_binary_array<F: Fn(u32) -> String, T: Fn(i32) -> String>(&mut self, name: &String, value: &AttributeValue, f: &F, tf: &T, Ghost(x): Ghost<KvText>)
        requires
            gives_u32(*f, x.ft),
            gives_i32(*tf, x.tt),
            value@ is BinaryArray,
            old(self).tab_index + 2 < usize::MAX,
        ensures
            final(self).out@ == old(self).out@ + crate::serializers::keyvalues2_encode::kv_plain(x, old(self).tab_index as nat, name@, value@),
            final(self).tab_index == old(self).tab_index,
    {
        reveal(crate::serializers::keyvalues2_encode::kv_plain);
        let ty = crate::text::chars_of(crate::serializers::keyvalues2_text::get_attribute_type_name(value));
        if let AttributeValue::BinaryArray(v) = value {
            self.write_attr2(name.as_str(), ty.as_slice());
            self.write_open_bracket();
            self.write_binary_items(v);
            self.write_close_bracket();
            assert(self.out@ =~= old(self).out@ + crate::serializers::keyvalues2_encode::kv_plain(x, old(self).tab_index as nat, name@, value@));
        }
    }

    /// Writes an attribute whose value is of this array type.
    fn write_object_id_array<F: Fn(u32) -> String, T: Fn(i32) -> String>(&mut self, name: &String, value: &AttributeValue, f: &F, tf: &T, Ghost(x): Ghost<KvText>)
        requires
            gives_u32(*f, x.ft),
            gives_i32(*tf, x.tt),
            value@ is ObjectIdArray,
            old(self).tab_index + 2 < usize::MAX,
        ensures
            final(self).out@ == old(self).out@ + crate::serializers::keyvalues2_encode::kv_plain(x, old(self).tab_index as nat, name@, value@),
            final(self).tab_index == old(self).tab_index,
    {
        reveal(crate::serializers::keyvalues2_encode::kv_plain);
        let ty = crate::text::chars_of(crate::serializers::keyvalues2_text::get_attribute_type_name(value));
        if let AttributeValue::ObjectIdArray(v) = value {
            self.write_attr2(name.as_str(), ty.as_slice());
            self.write_open_bracket();
            self.write_uuids_items(v);
            self.write_close_bracket();
            assert(self.out@ =~= old(self).out@ + crate::serializers::keyvalues2_encode::kv_plain(x, old(self).tab_index as nat, name@, value@));
        }
    }

    /// Writes an attribute whose value is of this array type.
    fn write_time_array<F: Fn(u32) -> String, T: Fn(i32) -> String>(&mut self, name: &String, value: &AttributeValue, f: &F, tf: &T, Ghost(x): Ghost<KvText>)
        requires
            gives_u32(*f, x.ft),
            gives_i32(*tf, x.tt),
            value@ is TimeArray,
            old(self).tab_index + 2 < usize::MAX,
        ensures
            final(self).out@ == old(self).out@ + crate::serializers::keyvalues2_encode::kv_plain(x, old(self).tab_index as nat, name@, value@),
            final(self).tab_index == old(self).tab_index,
    {
        reveal(crate::serializers::keyvalues2_encode::kv_plain);
        let ty = crate::text::chars_of(crate::serializers::keyvalues2_text::get_attribute_type_name(value));
        if let AttributeValue::TimeArray(v) = value {
            self.write_attr2(name.as_str(), ty.as_slice());
            self.write_open_bracket();
            self.write_times_items(v, tf, Ghost(x.tt));
            self.write_close_bracket();
            assert(self.out@ =~= old(self).out@ + crate::serializers::keyvalues2_encode::kv_plain(x, old(self).tab_index as nat, name@, value@));
        }
    }

    /// Writes an attribute whose value is of this array type.
    fn write_color_array<F: Fn(u32) -> String, T: Fn(i32) -> String>(&mut self, name: &String, value: &AttributeValue, f: &F, tf: &T, Ghost(x): Ghost<KvText>)
        requires
            gives_u32(*f, x.ft),
            gives_i32(*tf, x.tt),
            value@ is ColorArray,
            old(self).tab_index + 2 < usize::MAX,
        ensures
            final(self).out@ == old(self).out@ + crate::serializers::keyvalues2_encode::kv_plain(x, old(self).tab_index as nat, name@, value@),
            final(self).tab_index == old(self).tab_index,
    {
        reveal(crate::serializers::keyvalues2_encode::kv_plain);
        let ty = crate::text::chars_of(crate::serializers::keyvalues2_text::get_attribute_type_name(value));
        if let AttributeValue::ColorArray(v) = value {
            self.write_attr2(name.as_str(), ty.as_slice());
            self.write_open_bracket();
            self.write_colors_items(v);
            self.write_close_bracket();
            assert(self.out@ =~= old(self).out@ + crate::serializers::keyvalues2_encode::kv_plain(x, old(self).tab_index as nat, name@, value@));
        }
    }

    /// Writes an attribute whose value is of this array type.
    fn write_vector2_array<F: Fn(u32) -> String, T: Fn(i32) -> String>(&mut self, name: &String, value: &AttributeValue, f: &F, tf: &T, Ghost(x): Ghost<KvText>)
        requires
            gives_u32(*f, x.ft),
            gives_i32(*tf, x.tt),
            value@ is Vector2Array,
            old(self).tab_index + 2 < usize::MAX,
        ensures
            final(self).out@ == old(self).out@ + crate::serializers::keyvalues2_encode::kv_plain(x, old(self).tab_index as nat, name@, value@),
            final(self).tab_index == old(self).tab_index,
    {
        reveal(crate::serializers::keyvalues2_encode::kv_plain);
        let ty = crate::text::chars_of(crate::serializers::keyvalues2_text::get_attribute_type_name(value));
        if let AttributeValue::Vector2Array(v) = value {
            self.write_attr2(name.as_str(), ty.as_slice());
            self.write_open_bracket();
            self.write_vector2s_items(v, f, Ghost(x.ft));
            self.write_close_bracket();
            assert(self.out@ =~= old(self).out@ + crate::serializers::keyvalues2_encode::kv_plain(x, old(self).tab_index as nat, name@, value@));
        }
    }

    /// Writes an attribute whose value is of this array type.
    fn write_vector3_array<F: Fn(u32) -> String, T: Fn(i32) -> String>(&mut self, name: &String, value: &AttributeValue, f: &F, tf: &T, Ghost(x): Ghost<KvText>)
        requires
            gives_u32(*f, x.ft),
            gives_i32(*tf, x.tt),
            value@ is Vector3Array,
            old(self).tab_index + 2 < usize::MAX,
        ensures
            final(self).out@ == old(self).out@ + crate::serializers::keyvalues2_encode::kv_plain(x, old(self).tab_index as nat, name@, value@),
            final(self).tab_index == old(self).tab_index,
    {
        reveal(crate::serializers::keyvalues2_encode::kv_plain);
        let ty = crate::text::chars_of(crate::serializers::keyvalues2_text::get_attribute_type_name(value));
        if let AttributeValue::Vector3Array(v) = value {
            self.write_attr2(name.as_str(), ty.as_slice());
            self.write_open_bracket();
            self.write_vector3s_items(v, f, Ghost(x.ft));
            self.write_close_bracket();
            assert(self.out@ =~= old(self).out@ + crate::serializers::keyvalues2_encode::kv_plain(x, old(self).tab_index as nat, name@, value@));
        }
    }

    /// Writes an attribute whose value is of this array type.
    fn write_vector4_array<F: Fn(u32) -> String, T: Fn(i32) -> String>(&mut self, name: &String, value: &AttributeValue, f: &F, tf: &T, Ghost(x): Ghost<KvText>)
        requires
            gives_u32(*f, x.ft),
            gives_i32(*tf, x.tt),
            value@ is Vector4Array,
            old(self).tab_index + 2 < usize::MAX,
        ensures
            final(self).out@ == old(self).out@ + crate::serializers::keyvalues2_encode::kv_plain(x, old(self).tab_index as nat, name@, value@),
            final(self).tab_index == old(self).tab_index,
    {
        reveal(crate::serializers::keyvalues2_encode::kv_plain);
        let ty = crate::text::chars_of(crate::serializers::keyvalues2_text::get_attribute_type_name(value));
        if let AttributeValue::Vector4Array(v) = value {
            self.write_attr2(name.as_str(), ty.as_slice());
            self.write_open_bracket();
            self.write_vector4s_items(v, f, Ghost(x.ft));
            self.write_close_bracket();
            assert(self.out@ =~= old(self).out@ + crate::serializers::keyvalues2_encode::kv_plain(x, old(self).tab_index as nat, name@, value@));
        }
    }

    /// Writes an attribute whose value is of this array type.
    fn write_angle_array<F: Fn(u32) -> String, T: Fn(i32) -> String>(&mut self, name: &String, value: &AttributeValue, f: &F, tf: &T, Ghost(x): Ghost<KvText>)
        requires
            gives_u32(*f, x.ft),
            gives_i32(*tf, x.tt),
            value@ is AngleArray,
            old(self).tab_index + 2 < usize::MAX,
        ensures
            final(self).out@ == old(self).out@ + crate::serializers::keyvalues2_encode::kv_plain(x, old(self).tab_index as nat, name@, value@),
            final(self).tab_index == old(self).tab_index,
    {
        reveal(crate::serializers::keyvalues2_encode::kv_plain);
        let ty = crate::text::chars_of(crate::serializers::keyvalues2_text::get_attribute_type_name(value));
        if let AttributeValue::AngleArray(v) = value {
            self.write_attr2(name.as_str(), ty.as_slice());
            self.write_open_bracket();
            self.write_angles_items(v, f, Ghost(x.ft));
            self.write_close_bracket();
            assert(self.out@ =~= old(self).out@ + crate::serializers::keyvalues2_encode::kv_plain(x, old(self).tab_index as nat, name@, value@));
        }
    }

    /// Writes an attribute whose value is of this array type.
    fn write_quaternion_array<F: Fn(u32) -> String, T: Fn(i32) -> String>(&mut self, name: &String, value: &AttributeValue, f: &F, tf: &T, Ghost(x): Ghost<KvText>)
        requires
            gives_u32(*f, x.ft),
            gives_i32(*tf, x.tt),
            value@ is QuaternionArray,
            old(self).tab_index + 2 < usize::MAX,
        ensures
            final(self).out@ == old(self).out@ + crate::serializers::keyvalues2_encode::kv_plain(x, old(self).tab_index as nat, name@, value@),
            final(self).tab_index == old(self).tab_index,
    {
        reveal(crate::serializers::keyvalues2_encode::kv_plain);
        let ty = crate::text::chars_of(crate::serializers::keyvalues2_text::get_attribute_type_name(value));
        if let AttributeValue::QuaternionArray(v) = value {
            self.write_attr2(name.as_str(), ty.as_slice());
            self.write_open_bracket();
            self.write_quaternions_items(v, f, Ghost(x.ft));
            self.write_close_bracket();
            assert(self.out@ =~= old(self).out@ + crate::serializers::keyvalues2_encode::kv_plain(x, old(self).tab_index as nat, name@, value@));
        }
    }

    /// Writes an attribute whose value is of this array type.
    fn write_matrix_array<F: Fn(u32) -> String, T: Fn(i32) -> String>(&mut self, name: &String, value: &AttributeValue, f: &F, tf: &T, Ghost(x): Ghost<KvText>)
        requires
            gives_u32(*f, x.ft),
            gives_i32(*tf, x.tt),
            value@ is MatrixArray,
            old(self).tab_index + 2 < usize::MAX,
        ensures
            final(self).out@ == old(self).out@ + crate::serializers::keyvalues2_encode::kv_plain(x, old(self).tab_index as nat, name@, value@),
            final(self).tab_index == old(self).tab_index,
    {
        reveal(crate::serializers::keyvalues2_encode::kv_plain);
        let ty = crate::text::chars_of(crate::serializers::keyvalues2_text::get_attribute_type_name(value));
        if let AttributeValue::MatrixArray(v) = value {
            self.write_attr2(name.as_str(), ty.as_slice());
            self.write_open_bracket();
            self.write_matrix_items(v, f, Ghost(x.ft));
            self.write_close_bracket();
            assert(self.out@ =~= old(self).out@ + crate::serializers::keyvalues2_encode::kv_plain(x, old(self).tab_index as nat, name@, value@));
        }
    }

    /// Writes an attribute whose value is of this array type.
    fn write_u_long_array<F: Fn(u32) -> String, T: Fn(i32) -> String>(&mut self, name: &String, value: &AttributeValue, f: &F, tf: &T, Ghost(x): Ghost<KvText>)
        requires
            gives_u32(*f, x.ft),
            gives_i32(*tf, x.tt),
            value@ is ULongArray,
            old(self).tab_index + 2 < usize::MAX,
        ensures
            final(self).out@ == old(self).out@ + crate::serializers::keyvalues2_encode::kv_plain(x, old(self).tab_index as nat, name@, value@),
            final(self).tab_index == old(self).tab_index,
    {
        reveal(crate::serializers::keyvalues2_encode::kv_plain);
        let ty = crate::text::chars_of(crate::serializers::keyvalues2_text::get_attribute_type_name(value));
        if let AttributeValue::ULongArray(v) = value {
            self.write_attr2(name.as_str(), ty.as_slice());
            self.write_open_bracket();
            self.write_ulongs_items(v);
            self.write_close_bracket();
            assert(self.out@ =~= old(self).out@ + crate::serializers::keyvalues2_encode::kv_plain(x, old(self).tab_index as nat, name@, value@));
        }
    }

    /// Writes an attribute whose value is of this array type.
    fn write_u_byte_array<F: Fn(u32) -> String, T: Fn(i32) -> String>(&mut self, name: &String, value: &AttributeValue, f: &F, tf: &T, Ghost(x): Ghost<KvText>)
        requires
            gives_u32(*f, x.ft),
            gives_i32(*tf, x.tt),
            value@ is UByteArray,
            old(self).tab_index + 2 < usize::MAX,
        ensures
            final(self).out@ == old(self).out@ + crate::serializers::keyvalues2_encode::kv_plain(x, old(self).tab_index as nat, name@, value@),
            final(self).tab_index == old(self).tab_index,
    {
        reveal(crate::serializers::keyvalues2_encode::kv_plain);
        let ty = crate::text::chars_of(crate::serializers::keyvalues2_text::get_attribute_type_name(value));
        if let AttributeValue::UByteArray(v) = value {
            self.write_attr2(name.as_str(), ty.as_slice());
            self.write_open_bracket();
            self.write_ubytes_items(v);
            self.write_close_bracket();
            assert(self.out@ =~= old(self).out@ + crate::serializers::keyvalues2_encode::kv_plain(x, old(self).tab_index as nat, name@, value@));
        }
    }

    /// Writes an attribute whose value is an array that refers to no element.
    fn write_plain_array<F: Fn(u32) -> String, T: Fn(i32) -> String>(&mut self, name: &String, value: &AttributeValue, f: &F, tf: &T, Ghost(x): Ghost<KvText>)
        requires
            gives_u32(*f, x.ft),
            gives_i32(*tf, x.tt),
            plain_array(value@),
            old(self).tab_index + 2 < usize::MAX,
        ensures
            final(self).out@ == old(self).out@ + crate::serializers::keyvalues2_encode::kv_plain(x, old(self).tab_index as nat, name@, value@),
            final(self).tab_index == old(self).tab_index,
    {
        match value {
            AttributeValue::IntegerArray(_) => self.write_integer_array(name, value, f, tf, Ghost(x)),
            AttributeValue::FloatArray(_) => self.write_float_array(name, value, f, tf, Ghost(x)),
            AttributeValue::BooleanArray(_) => self.write_boolean_array(name, value, f, tf, Ghost(x)),
            AttributeValue::StringArray(_) => self.write_string_array(name, value, f, tf, Ghost(x)),
            AttributeValue::BinaryArray(_) => self.write_binary_array(name, value, f, tf, Ghost(x)),
            AttributeValue::ObjectIdArray(_) => self.write_object_id_array(name, value, f, tf, Ghost(x)),
            AttributeValue::TimeArray(_) => self.write_time_array(name, value, f, tf, Ghost(x)),
            AttributeValue::ColorArray(_) => self.write_color_array(name, value, f, tf, Ghost(x)),
            AttributeValue::Vector2Array(_) => self.write_vector2_array(name, value, f, tf, Ghost(x)),
            AttributeValue::Vector3Array(_) => self.write_vector3_array(name, value, f, tf, Ghost(x)),
            AttributeValue::Vector4Array(_) => self.write_vector4_array(name, value, f, tf, Ghost(x)),
            AttributeValue::AngleArray(_) => self.write_angle_array(name, value, f, tf, Ghost(x)),
            AttributeValue::QuaternionArray(_) => self.write_quaternion_array(name, value, f, tf, Ghost(x)),
            AttributeValue::MatrixArray(_) => self.write_matrix_array(name, value, f, tf, Ghost(x)),
            AttributeValue::ULongArray(_) => self.write_u_long_array(name, value, f, tf, Ghost(x)),
            AttributeValue::UByteArray(_) => self.write_u_byte_array(name, value, f, tf, Ghost(x)),
            _ => {
                assert(false);
            },
        }
    }
}

/// What the writing of elements knows of its inputs.
pub open spec fn kv_write_ctx(x: KvText, g: Seq<ElementView>, order: Seq<usize>, top: Seq<bool>, ids: Seq<(UuidBytes, usize)>) -> bool {
    &&& x.g == g
    &&& x.c == order
    &&& x.top == top
    &&& kv_state_inv(g, order, top, ids)
    &&& graph_refs_in(g)
}

/// An error among the first `k` attributes is the error of all of them.
proof fn lemma_kv_attrs_err(x: KvText, e: usize, t: nat, fuel: nat, k: nat, m: nat)
    requires
        k <= m,
        crate::serializers::keyvalues2_encode::kv_attrs_upto(x, e, t, fuel, k) is Err,
    ensures
        crate::serializers::keyvalues2_encode::kv_attrs_upto(x, e, t, fuel, m) == crate::serializers::keyvalues2_encode::kv_attrs_upto(x, e, t, fuel, k),
    decreases m - k,
{
    if k < m {
        lemma_kv_attrs_err(x, e, t, fuel, k, (m - 1) as nat);
    }
}

/// An error among the first `k` references is the error of all of them.
proof fn lemma_kv_refs_err(x: KvText, t: nat, fuel: nat, rs: Seq<Option<usize>>, k: nat, m: nat)
    requires
        k <= m,
        crate::serializers::keyvalues2_encode::kv_refs(x, t, fuel, rs, k) is Err,
    ensures
        crate::serializers::keyvalues2_encode::kv_refs(x, t, fuel, rs, m) == crate::serializers::keyvalues2_encode::kv_refs(x, t, fuel, rs, k),
    decreases m - k,
{
    if k < m {
        lemma_kv_refs_err(x, t, fuel, rs, k, (m - 1) as nat);
    }
}

/// Whether the element at graph position `r` stands at the top level.
fn top_level(graph: &ElementGraph, order: &Vec<usize>, top: &Vec<bool>, ids: &IndexMap<UuidBytes, usize>, r: usize, Ghost(x): Ghost<KvText>) -> (b: bool)
    requires
        kv_write_ctx(x, graph@, order@, top@, id_map_entries(*ids)),
        r < graph@.len(),
    ensures
        b == is_top(x, r),
{
    let id = graph.elements[r].id;
    proof {
        assert(graph@[r as int].id == id@);
        lemma_id_map_key_position(id_map_entries(*ids), id);
        lemma_key_position(id_entries(graph@, order@), id@);
    }
    match id_map_get_index_of(ids, &id) {
        Some(i) => top[i],
        None => false,
    }
}

/// The line that gives the id of the element at graph position `r`.
fn id_line_text(graph: &ElementGraph, r: usize) -> (t: Vec<char>)
    requires
        r < graph@.len(),
    ensures
        t@ == id_line(graph@[r as int].id),
{
    let mut t: Vec<char> = Vec::new();
    let id_word = vec!['i', 'd'];
    let kind = vec!['e', 'l', 'e', 'm', 'e', 'n', 't', 'i', 'd'];
    assert(id_word@ == "id"@) by {
        reveal_strlit("id");
    }
    assert(kind@ == "elementid"@) by {
        reveal_strlit("elementid");
    }
    push_quoted(&mut t, id_word.as_slice());
    t.push(' ');
    push_quoted(&mut t, kind.as_slice());
    t.push(' ');
    let mut u: Vec<char> = Vec::new();
    push_uuid_text(&mut u, &graph.elements[r].id);
    assert(graph@[r as int].id == graph.elements@[r as int].id@);
    push_quoted(&mut t, u.as_slice());
    assert(t@ =~= id_line(graph@[r as int].id));
    t
}

impl StringWriter {
    /// Writes an element where it is referred to: a brace line, its id line
    /// and its attributes, one level deeper. The closing line is the caller's.
    pub(crate) fn write_block<F: Fn(u32) -> String, T: Fn(i32) -> String>(
        &mut self,
        graph: &ElementGraph,
        order: &Vec<usize>,
        top: &Vec<bool>,
        ids: &IndexMap<UuidBytes, usize>,
        f: &F,
        tf: &T,
        Ghost(x): Ghost<KvText>,
        r: usize,
        fuel: usize,
    ) -> (res: Result<(), crate::serializers::keyvalues2_error::KeyValues2SerializationError>)
        requires
            kv_write_ctx(x, graph@, order@, top@, id_map_entries(*ids)),
            gives_u32(*f, x.ft),
            gives_i32(*tf, x.tt),
            r < graph@.len(),
            old(self).tab_index + 3 * fuel + 6 <= usize::MAX,
        ensures
            match crate::serializers::keyvalues2_encode::kv_block(x, r, old(self).tab_index as nat, fuel as nat) {
                Ok(b) => res is Ok && final(self).out@ == old(self).out@ + b && final(self).tab_index == old(self).tab_index + 1,
                Err(e) => res == Err::<(), crate::serializers::keyvalues2_error::KeyValues2SerializationError>(e),
            },
        decreases fuel, 4nat, 0nat,
    {
        self.write_open_brace();
        let idl = id_line_text(graph, r);
        self.write_line(idl.as_slice());
        let ghost mid = self.out@;
        self.write_attributes(graph, order, top, ids, f, tf, Ghost(x), r, fuel)?;
        proof {
            let body = crate::serializers::keyvalues2_encode::kv_attrs_upto(x, r, (old(self).tab_index + 1) as nat, fuel as nat, x.g[r as int].attributes.len())->Ok_0;
            assert(self.out@ =~= old(self).out@ + (line(old(self).tab_index as nat, seq!['{']) + line((old(self).tab_index + 1) as nat, id_line(x.g[r as int].id)) + body));
        }
        Ok(())
    }

    /// Writes the attributes of the element at graph position `e`. On an
    /// error, the text holds the attributes before the one that failed, and
    /// nothing of that one.
    pub(crate) fn write_attributes<F: Fn(u32) -> String, T: Fn(i32) -> String>(
        &mut self,
        graph: &ElementGraph,
        order: &Vec<usize>,
        top: &Vec<bool>,
        ids: &IndexMap<UuidBytes, usize>,
        f: &F,
        tf: &T,
        Ghost(x): Ghost<KvText>,
        e: usize,
        fuel: usize,
    ) -> (res: Result<(), crate::serializers::keyvalues2_error::KeyValues2SerializationError>)
        requires
            kv_write_ctx(x, graph@, order@, top@, id_map_entries(*ids)),
            gives_u32(*f, x.ft),
            gives_i32(*tf, x.tt),
            e < graph@.len(),
            old(self).tab_index + 3 * fuel + 5 <= usize::MAX,
        ensures
            match crate::serializers::keyvalues2_encode::kv_attrs_upto(x, e, old(self).tab_index as nat, fuel as nat, x.g[e as int].attributes.len()) {
                Ok(b) => res is Ok && final(self).out@ == old(self).out@ + b && final(self).tab_index == old(self).tab_index,
                Err(err) => res == Err::<(), crate::serializers::keyvalues2_error::KeyValues2SerializationError>(err)
                    && final(self).tab_index == old(self).tab_index
                    && exists|j: nat| #![trigger crate::serializers::keyvalues2_encode::kv_attrs_upto(x, e, old(self).tab_index as nat, fuel as nat, j)]
                        j < x.g[e as int].attributes.len()
                        && crate::serializers::keyvalues2_encode::kv_attrs_upto(x, e, old(self).tab_index as nat, fuel as nat, j) is Ok
                        && final(self).out@ == old(self).out@ + crate::serializers::keyvalues2_encode::kv_attrs_upto(x, e, old(self).tab_index as nat, fuel as nat, j)->Ok_0
                        && crate::serializers::keyvalues2_encode::kv_attr(x, e, old(self).tab_index as nat, fuel as nat, x.g[e as int].attributes[j as int]) == Err::<Seq<char>, crate::serializers::keyvalues2_error::KeyValues2SerializationError>(err),
            },
        decreases fuel, 3nat, 0nat,
    {
        let element = &graph.elements[e];
        let tab = self.tab_index;
        let ghost t = self.tab_index as nat;
        let ghost attrs = x.g[e as int].attributes;
        let ghost ex = crate::collections::attribute_entries(element.attributes);
        assert(attrs == crate::element::entries_view(ex));
        let count = crate::collections::attribute_map_len(&element.attributes);
        let mut i: usize = 0;
        while i < count
            invariant
                kv_write_ctx(x, graph@, order@, top@, id_map_entries(*ids)),
                gives_u32(*f, x.ft),
                gives_i32(*tf, x.tt),
                e < graph@.len(),
                element == graph.elements@[e as int],
                ex == crate::collections::attribute_entries(element.attributes),
                attrs == crate::element::entries_view(ex),
                attrs == x.g[e as int].attributes,
                count == ex.len(),
                i <= count,
                t == self.tab_index as nat,
                t == old(self).tab_index as nat,
                tab == old(self).tab_index,
                self.tab_index + 3 * fuel + 5 <= usize::MAX,
                crate::serializers::keyvalues2_encode::kv_attrs_upto(x, e, t, fuel as nat, i as nat) matches Ok(a) && self.out@ == old(self).out@ + a,
            decreases count - i,
        {
            let entry = crate::collections::attribute_map_get_index(&element.attributes, i);
            let (name, value) = entry.unwrap();
            proof {
                assert(attrs[i as int] == (name@, value@));
                assert(crate::serializers::collect::value_refs_in(graph@.len() as int, graph@[e as int].attributes[i as int].1));
            }
            let mut before: Vec<char> = Vec::new();
            std::mem::swap(&mut before, &mut self.out);
            match self.write_attribute(graph, order, top, ids, f, tf, Ghost(x), e, name, value, fuel) {
                Ok(()) => {
                    before.append(&mut self.out);
                    self.out = before;
                },
                Err(err) => {
                    self.out = before;
                    self.tab_index = tab;
                    proof {
                        assert(crate::serializers::keyvalues2_encode::kv_attrs_upto(x, e, t, fuel as nat, (i + 1) as nat)
                            == Err::<Seq<char>, crate::serializers::keyvalues2_error::KeyValues2SerializationError>(err));
                        lemma_kv_attrs_err(x, e, t, fuel as nat, (i + 1) as nat, count as nat);
                        assert(attrs.len() == count);
                        assert(attrs[i as int] == x.g[e as int].attributes[i as int]);
                    }
                    return Err(err);
                },
            }
            proof {
                let prev = crate::serializers::keyvalues2_encode::kv_attrs_upto(x, e, t, fuel as nat, i as nat)->Ok_0;
                let cur = crate::serializers::keyvalues2_encode::kv_attr(x, e, t, fuel as nat, attrs[i as int])->Ok_0;
                assert(self.out@ =~= old(self).out@ + (prev + cur));
            }
            i = i + 1;
        }
        Ok(())
    }

    /// Writes one attribute of the element at graph position `e`.
    #[verifier::spinoff_prover]
    #[verifier::rlimit(40)]
    pub(crate) fn write_attribute<F: Fn(u32) -> String, T: Fn(i32) -> String>(
        &mut self,
        graph: &ElementGraph,
        order: &Vec<usize>,
        top: &Vec<bool>,
        ids: &IndexMap<UuidBytes, usize>,
        f: &F,
        tf: &T,
        Ghost(x): Ghost<KvText>,
        e: usize,
        name: &String,
        value: &AttributeValue,
        fuel: usize,
    ) -> (res: Result<(), crate::serializers::keyvalues2_error::KeyValues2SerializationError>)
        requires
            kv_write_ctx(x, graph@, order@, top@, id_map_entries(*ids)),
            gives_u32(*f, x.ft),
            gives_i32(*tf, x.tt),
            e < graph@.len(),
            crate::serializers::collect::value_refs_in(graph@.len() as int, value@),
            old(self).tab_index + 3 * fuel + 5 <= usize::MAX,
        ensures
            match crate::serializers::keyvalues2_encode::kv_attr(x, e, old(self).tab_index as nat, fuel as nat, (name@, value@)) {
                Ok(b) => res is Ok && final(self).out@ == old(self).out@ + b && final(self).tab_index == old(self).tab_index,
                Err(err) => res == Err::<(), crate::serializers::keyvalues2_error::KeyValues2SerializationError>(err),
            },
        decreases fuel, 2nat, 0nat,
    {
        let name_word = "name";
        let id_word = "id";
        proof {
            reveal_strlit("name");
            reveal_strlit("id");
        }
        assert(name_word@ == crate::serializers::binary_document::name_key());
        assert(id_word@ == crate::serializers::binary_document::id_key());
        let ty = value.attribute_type();
        if crate::text::same_text(name.as_str(), name_word) && ty != AttributeType::String {
            return Err(crate::serializers::keyvalues2_error::KeyValues2SerializationError::InvalidNameAttribute { element: e });
        }
        if crate::text::same_text(name.as_str(), id_word) && ty == AttributeType::ObjectId {
            return Err(crate::serializers::keyvalues2_error::KeyValues2SerializationError::InvalidIdAttribute { element: e });
        }
        let element_word = vec!['e', 'l', 'e', 'm', 'e', 'n', 't'];
        assert(element_word@ == "element"@) by {
            reveal_strlit("element");
        }
        let ghost t = self.tab_index as nat;
        match value {
            AttributeValue::Element(None) => {
                let empty: Vec<char> = Vec::new();
                self.write_attr3(name.as_str(), element_word.as_slice(), empty.as_slice());
                assert(empty@ =~= Seq::<char>::empty());
            },
            AttributeValue::Element(Some(r)) => {
                let r = *r;
                if top_level(graph, order, top, ids, r, Ghost(x)) {
                    let mut u: Vec<char> = Vec::new();
                    push_uuid_text(&mut u, &graph.elements[r].id);
                    assert(graph@[r as int].id == graph.elements@[r as int].id@);
                    self.write_attr3(name.as_str(), element_word.as_slice(), u.as_slice());
                } else if fuel == 0 {
                    assert(self.out@ =~= old(self).out@ + Seq::<char>::empty());
                } else {
                    let mut class: Vec<char> = Vec::new();
                    push_escaped(&mut class, graph.elements[r].class.as_str());
                    self.write_attr2(name.as_str(), class.as_slice());
                    let ghost before_block = self.out@;
                    self.write_block(graph, order, top, ids, f, tf, Ghost(x), r, fuel - 1)?;
                    self.write_close_brace();
                    let empty: Vec<char> = Vec::new();
                    self.write_line(empty.as_slice());
                    proof {
                        let b = crate::serializers::keyvalues2_encode::kv_block(x, r, t, (fuel - 1) as nat)->Ok_0;
                        assert(empty@ =~= Seq::<char>::empty());
                        assert(self.out@ =~= old(self).out@ + (attr2(t, name@, escape(x.g[r as int].class)) + b + line(t, seq!['}']) + line(t, seq![])));
                    }
                }
            },
            AttributeValue::ElementArray(rs) => {
                let array_word = vec!['e', 'l', 'e', 'm', 'e', 'n', 't', '_', 'a', 'r', 'r', 'a', 'y'];
                assert(array_word@ == "element_array"@) by {
                    reveal_strlit("element_array");
                }
                self.write_attr2(name.as_str(), array_word.as_slice());
                self.write_open_bracket();
                let ghost before_refs = self.out@;
                self.write_refs(graph, order, top, ids, f, tf, Ghost(x), rs, fuel)?;
                self.write_close_bracket();
                proof {
                    let body = crate::serializers::keyvalues2_encode::kv_refs(x, t + 1, fuel as nat, rs@, rs@.len())->Ok_0;
                    assert(self.out@ =~= old(self).out@ + crate::serializers::keyvalues2_encode::array_text(t, name@, "element_array"@, body));
                }
            },
            _ => {
                if crate::serializers::binary_write::is_array(value) {
                    self.write_plain_array(name, value, f, tf, Ghost(x));
                } else {
                    self.write_plain_single(name, value, f, tf, Ghost(x));
                }
            },
        }
        Ok(())
    }

    /// Writes one item of an element array.
    pub(crate) fn write_ref_item<F: Fn(u32) -> String, T: Fn(i32) -> String>(
        &mut self,
        graph: &ElementGraph,
        order: &Vec<usize>,
        top: &Vec<bool>,
        ids: &IndexMap<UuidBytes, usize>,
        f: &F,
        tf: &T,
        Ghost(x): Ghost<KvText>,
        item_ref: Option<usize>,
        last: bool,
        fuel: usize,
    ) -> (res: Result<(), crate::serializers::keyvalues2_error::KeyValues2SerializationError>)
        requires
            kv_write_ctx(x, graph@, order@, top@, id_map_entries(*ids)),
            gives_u32(*f, x.ft),
            gives_i32(*tf, x.tt),
            crate::serializers::collect::ref_in(graph@.len() as int, item_ref),
            old(self).tab_index + 3 * fuel + 4 <= usize::MAX,
        ensures
            match crate::serializers::keyvalues2_encode::kv_ref_item(x, old(self).tab_index as nat, fuel as nat, item_ref, last) {
                Ok(b) => res is Ok && final(self).out@ == old(self).out@ + b && final(self).tab_index == old(self).tab_index,
                Err(err) => res == Err::<(), crate::serializers::keyvalues2_error::KeyValues2SerializationError>(err),
            },
        decreases fuel, 0nat, 0nat,
    {
        let ghost t = self.tab_index as nat;
        match item_ref {
            None => {
                let empty: Vec<char> = Vec::new();
                self.write_ref_line(empty.as_slice(), last);
                assert(empty@ =~= Seq::<char>::empty());
            },
            Some(r) => {
                if top_level(graph, order, top, ids, r, Ghost(x)) {
                    let mut u: Vec<char> = Vec::new();
                    push_uuid_text(&mut u, &graph.elements[r].id);
                    assert(graph@[r as int].id == graph.elements@[r as int].id@);
                    self.write_ref_line(u.as_slice(), last);
                } else if fuel == 0 {
                    assert(self.out@ =~= old(self).out@ + Seq::<char>::empty());
                } else {
                    let mut class: Vec<char> = Vec::new();
                    push_escaped(&mut class, graph.elements[r].class.as_str());
                    let mut qc: Vec<char> = Vec::new();
                    push_quoted(&mut qc, class.as_slice());
                    self.write_line(qc.as_slice());
                    self.write_block(graph, order, top, ids, f, tf, Ghost(x), r, fuel - 1)?;
                    self.tab_index = self.tab_index - 1;
                    let mut close: Vec<char> = vec!['}'];
                    if !last {
                        close.push(',');
                    }
                    assert(close@ =~= seq!['}'] + comma(last));
                    self.write_line(close.as_slice());
                    proof {
                        let b = crate::serializers::keyvalues2_encode::kv_block(x, r, t, (fuel - 1) as nat)->Ok_0;
                        assert(self.out@ =~= old(self).out@ + (line(t, quoted(escape(x.g[r as int].class))) + b + line(t, seq!['}'] + comma(last))));
                    }
                }
            },
        }
        Ok(())
    }

    /// Writes the items of an element array.
    pub(crate) fn write_refs<F: Fn(u32) -> String, T: Fn(i32) -> String>(
        &mut self,
        graph: &ElementGraph,
        order: &Vec<usize>,
        top: &Vec<bool>,
        ids: &IndexMap<UuidBytes, usize>,
        f: &F,
        tf: &T,
        Ghost(x): Ghost<KvText>,
        rs: &Vec<Option<usize>>,
        fuel: usize,
    ) -> (res: Result<(), crate::serializers::keyvalues2_error::KeyValues2SerializationError>)
        requires
            kv_write_ctx(x, graph@, order@, top@, id_map_entries(*ids)),
            gives_u32(*f, x.ft),
            gives_i32(*tf, x.tt),
            forall|k: int| 0 <= k < rs@.len() ==> crate::serializers::collect::ref_in(graph@.len() as int, #[trigger] rs@[k]),
            old(self).tab_index + 3 * fuel + 4 <= usize::MAX,
        ensures
            match crate::serializers::keyvalues2_encode::kv_refs(x, old(self).tab_index as nat, fuel as nat, rs@, rs@.len()) {
                Ok(b) => res is Ok && final(self).out@ == old(self).out@ + b && final(self).tab_index == old(self).tab_index,
                Err(err) => res == Err::<(), crate::serializers::keyvalues2_error::KeyValues2SerializationError>(err),
            },
        decreases fuel, 1nat, 0nat,
    {
        let ghost t = self.tab_index as nat;
        let n = rs.len();
        let mut j: usize = 0;
        while j < n
            invariant
                kv_write_ctx(x, graph@, order@, top@, id_map_entries(*ids)),
                gives_u32(*f, x.ft),
                gives_i32(*tf, x.tt),
                forall|k: int| 0 <= k < rs@.len() ==> crate::serializers::collect::ref_in(graph@.len() as int, #[trigger] rs@[k]),
                n == rs@.len(),
                j <= n,
                t == self.tab_index as nat,
                t == old(self).tab_index as nat,
                self.tab_index + 3 * fuel + 4 <= usize::MAX,
                crate::serializers::keyvalues2_encode::kv_refs(x, t, fuel as nat, rs@, j as nat) matches Ok(a) && self.out@ == old(self).out@ + a,
            decreases n - j,
        {
            let last = j + 1 == n;
            proof {
                assert(crate::serializers::collect::ref_in(graph@.len() as int, rs@[j as int]));
            }
            match self.write_ref_item(graph, order, top, ids, f, tf, Ghost(x), rs[j], last, fuel) {
                Ok(()) => {},
                Err(err) => {
                    proof {
                        lemma_kv_refs_err(x, t, fuel as nat, rs@, (j + 1) as nat, n as nat);
                    }
                    return Err(err);
                },
            }
            proof {
                let prev = crate::serializers::keyvalues2_encode::kv_refs(x, t, fuel as nat, rs@, j as nat)->Ok_0;
                let cur = crate::serializers::keyvalues2_encode::kv_ref_item(x, t, fuel as nat, rs@[j as int], last)->Ok_0;
                assert(self.out@ =~= old(self).out@ + (prev + cur));
            }
            j = j + 1;
        }
        Ok(())
    }
}

} // verus!
