//! Text pieces of the KeyValues2 encoding: escaped strings, type names,
//! hexadecimal numbers and indented lines.

use vstd::prelude::*;
use crate::attribute::{spec_type_of, AttributeType, AttributeValue};
use crate::ids::{hex_lower, push_uuid_text};
use crate::text::{append_chars, append_str, nat_decimal};

verus! {

// ---------------------------------------------------------------------------
// Escaping
// ---------------------------------------------------------------------------

/// The text of a string inside quotes: quotes and apostrophes get a
/// backslash; a backslash before a quote, an apostrophe or a backslash is
/// kept as an escape, any other backslash is doubled.
pub open spec fn escape(s: Seq<char>) -> Seq<char>
    decreases s.len(),
{
    if s.len() == 0 {
        seq![]
    } else if s[0] == '\\' {
        if s.len() == 1 {
            seq!['\\', '\\']
        } else if s[1] == '\\' || s[1] == '\'' || s[1] == '"' {
            seq!['\\', s[1]] + escape(s.skip(2))
        } else {
            seq!['\\', '\\', s[1]] + escape(s.skip(2))
        }
    } else if s[0] == '\'' || s[0] == '"' {
        seq!['\\', s[0]] + escape(s.skip(1))
    } else {
        seq![s[0]] + escape(s.skip(1))
    }
}

/// Escapes a string for the KeyValues2 text.
pub fn format_escape_characters(text: &str) -> (r: String)
    ensures
        r@ == escape(text@),
{
    let c = chars_of_text(text);
    let n = c.len();
    let mut out: Vec<char> = Vec::new();
    let mut i: usize = 0;
    assert(c@.skip(0) =~= c@);
    assert(out@ + escape(c@) =~= escape(c@));
    while i < n
        invariant
            n == c@.len(),
            c@ == text@,
            i <= n,
            out@ + escape(c@.skip(i as int)) == escape(c@),
        decreases n - i,
    {
        let ghost rest = c@.skip(i as int);
        let ch = c[i];
        if ch == '\\' {
            if i + 1 >= n {
                out.push('\\');
                out.push('\\');
                assert(rest =~= seq!['\\']);
                assert(c@.skip(i + 1) =~= Seq::<char>::empty());
                i = i + 1;
            } else {
                let next = c[i + 1];
                assert(rest.skip(2) =~= c@.skip(i + 2));
                if next == '\\' || next == '\'' || next == '"' {
                    out.push('\\');
                    out.push(next);
                } else {
                    out.push('\\');
                    out.push('\\');
                    out.push(next);
                }
                i = i + 2;
            }
        } else {
            assert(rest.skip(1) =~= c@.skip(i + 1));
            if ch == '\'' || ch == '"' {
                out.push('\\');
                out.push(ch);
            } else {
                out.push(ch);
            }
            i = i + 1;
        }
        assert(out@ + escape(c@.skip(i as int)) =~= escape(c@));
    }
    assert(c@.skip(n as int) =~= Seq::<char>::empty());
    assert(c@.skip(0) =~= c@);
    assert(out@ =~= escape(c@));
    crate::text::string_of(out.as_slice())
}

fn chars_of_text(text: &str) -> (r: Vec<char>)
    ensures
        r@ == text@,
{
    crate::text::chars_of(text)
}

// ---------------------------------------------------------------------------
// Type names
// ---------------------------------------------------------------------------

/// The name of an attribute type in the text.
pub open spec fn kv_type_name(t: AttributeType) -> Seq<char> {
    match t {
        AttributeType::Element => "element"@,
        AttributeType::Integer => "int"@,
        AttributeType::Float => "float"@,
        AttributeType::Boolean => "bool"@,
        AttributeType::String => "string"@,
        AttributeType::Binary => "binary"@,
        AttributeType::ObjectId => "elementid"@,
        AttributeType::Time => "time"@,
        AttributeType::Color => "color"@,
        AttributeType::Vector2 => "vector2"@,
        AttributeType::Vector3 => "vector3"@,
        AttributeType::Vector4 => "vector4"@,
        AttributeType::Angle => "qangle"@,
        AttributeType::Quaternion => "quaternion"@,
        AttributeType::Matrix => "matrix"@,
        AttributeType::ULong => "uint64"@,
        AttributeType::UByte => "uint8"@,
        AttributeType::ElementArray => "element_array"@,
        AttributeType::IntegerArray => "int_array"@,
        AttributeType::FloatArray => "float_array"@,
        AttributeType::BooleanArray => "bool_array"@,
        AttributeType::StringArray => "string_array"@,
        AttributeType::BinaryArray => "binary_array"@,
        AttributeType::ObjectIdArray => "elementid_array"@,
        AttributeType::TimeArray => "time_array"@,
        AttributeType::ColorArray => "color_array"@,
        AttributeType::Vector2Array => "vector2_array"@,
        AttributeType::Vector3Array => "vector3_array"@,
        AttributeType::Vector4Array => "vector4_array"@,
        AttributeType::AngleArray => "qangle_array"@,
        AttributeType::QuaternionArray => "quaternion_array"@,
        AttributeType::MatrixArray => "matrix_array"@,
        AttributeType::ULongArray => "uint64_array"@,
        AttributeType::UByteArray => "uint8_array"@,
    }
}

/// The name of the type of an attribute value in the text.
pub fn get_attribute_type_name(value: &AttributeValue) -> (r: &'static str)
    ensures
        r@ == kv_type_name(spec_type_of(value@)),
{
    match value.attribute_type() {
        AttributeType::Element => "element",
        AttributeType::Integer => "int",
        AttributeType::Float => "float",
        AttributeType::Boolean => "bool",
        AttributeType::String => "string",
        AttributeType::Binary => "binary",
        AttributeType::ObjectId => "elementid",
        AttributeType::Time => "time",
        AttributeType::Color => "color",
        AttributeType::Vector2 => "vector2",
        AttributeType::Vector3 => "vector3",
        AttributeType::Vector4 => "vector4",
        AttributeType::Angle => "qangle",
        AttributeType::Quaternion => "quaternion",
        AttributeType::Matrix => "matrix",
        AttributeType::ULong => "uint64",
        AttributeType::UByte => "uint8",
        AttributeType::ElementArray => "element_array",
        AttributeType::IntegerArray => "int_array",
        AttributeType::FloatArray => "float_array",
        AttributeType::BooleanArray => "bool_array",
        AttributeType::StringArray => "string_array",
        AttributeType::BinaryArray => "binary_array",
        AttributeType::ObjectIdArray => "elementid_array",
        AttributeType::TimeArray => "time_array",
        AttributeType::ColorArray => "color_array",
        AttributeType::Vector2Array => "vector2_array",
        AttributeType::Vector3Array => "vector3_array",
        AttributeType::Vector4Array => "vector4_array",
        AttributeType::AngleArray => "qangle_array",
        AttributeType::QuaternionArray => "quaternion_array",
        AttributeType::MatrixArray => "matrix_array",
        AttributeType::ULongArray => "uint64_array",
        AttributeType::UByteArray => "uint8_array",
    }
}

// ---------------------------------------------------------------------------
// Hexadecimal numbers
// ---------------------------------------------------------------------------

/// The uppercase hexadecimal digit for `d < 16`.
pub open spec fn hex_upper(d: int) -> char {
    if d < 10 {
        ((('0' as int) + d) as u32) as char
    } else {
        ((('A' as int) + d - 10) as u32) as char
    }
}

/// The uppercase hexadecimal digits of `n`, without leading zeros (`{:X}`).
pub open spec fn hex_digits(n: nat) -> Seq<char>
    decreases n,
{
    if n < 16 {
        seq![hex_upper(n as int)]
    } else {
        hex_digits(n / 16) + seq![hex_upper((n % 16) as int)]
    }
}

/// The two uppercase hexadecimal digits of a byte (`{:02X}`).
pub open spec fn byte_hex(b: u8) -> Seq<char> {
    seq![hex_upper(b as int / 16), hex_upper(b as int % 16)]
}

/// The uppercase hexadecimal digits of some bytes, two per byte.
pub open spec fn bytes_hex(b: Seq<u8>) -> Seq<char>
    decreases b.len(),
{
    if b.len() == 0 {
        seq![]
    } else {
        bytes_hex(b.drop_last()) + byte_hex(b.last())
    }
}

fn hex_upper_char(d: u8) -> (c: char)
    requires
        d < 16,
    ensures
        c == hex_upper(d as int),
{
    if d < 10 {
        (('0' as u8) + d) as char
    } else {
        (('A' as u8) + d - 10) as char
    }
}

/// Appends the uppercase hexadecimal digits of `n`.
pub fn push_hex_digits(dst: &mut Vec<char>, n: u64)
    ensures
        final(dst)@ == old(dst)@ + hex_digits(n as nat),
    decreases n,
{
    if n < 16 {
        dst.push(hex_upper_char(n as u8));
    } else {
        push_hex_digits(dst, n / 16);
        dst.push(hex_upper_char((n % 16) as u8));
    }
}

/// Appends the uppercase hexadecimal digits of `b[from..to]`.
pub fn push_bytes_hex(dst: &mut Vec<char>, b: &[u8], from: usize, to: usize)
    requires
        from <= to <= b@.len(),
    ensures
        final(dst)@ == old(dst)@ + bytes_hex(b@.subrange(from as int, to as int)),
{
    let mut i = from;
    while i < to
        invariant
            from <= i <= to <= b@.len(),
            dst@ == old(dst)@ + bytes_hex(b@.subrange(from as int, i as int)),
        decreases to - i,
    {
        dst.push(hex_upper_char(b[i] / 16));
        dst.push(hex_upper_char(b[i] % 16));
        i = i + 1;
        assert(b@.subrange(from as int, i as int).drop_last() =~= b@.subrange(from as int, i - 1));
        assert(dst@ =~= old(dst)@ + bytes_hex(b@.subrange(from as int, i as int)));
    }
}

// ---------------------------------------------------------------------------
// Lines
// ---------------------------------------------------------------------------

/// `n` tab characters.
pub open spec fn tabs(n: nat) -> Seq<char> {
    Seq::new(n, |i: int| '\t')
}

/// A line of the text: indentation, the line's text and a CR LF.
pub open spec fn line(indent: nat, s: Seq<char>) -> Seq<char> {
    tabs(indent) + s + seq!['\r', '\n']
}

/// Text between double quotes.
pub open spec fn quoted(s: Seq<char>) -> Seq<char> {
    seq!['"'] + s + seq!['"']
}

/// The lines of binary data: the hexadecimal digits of each run of 40 bytes.
pub open spec fn hex_lines(indent: nat, b: Seq<u8>) -> Seq<char>
    decreases b.len(),
{
    if b.len() == 0 {
        seq![]
    } else if b.len() <= 40 {
        line(indent, bytes_hex(b))
    } else {
        line(indent, bytes_hex(b.take(40))) + hex_lines(indent, b.skip(40))
    }
}

/// A writer of indented lines of text.
pub struct StringWriter {
    pub out: Vec<char>,
    pub tab_index: usize,
}

impl StringWriter {
    /// An empty text at indentation zero.
    pub fn new() -> (r: StringWriter)
        ensures
            r.out@ == Seq::<char>::empty(),
            r.tab_index == 0,
    {
        StringWriter { out: Vec::new(), tab_index: 0 }
    }

    /// Writes the header line as it is.
    pub fn write_header(&mut self, header: &str)
        ensures
            final(self).out@ == old(self).out@ + header@,
            final(self).tab_index == old(self).tab_index,
    {
        append_str(&mut self.out, header);
    }

    /// Writes the indentation of the current line.
    pub fn write_tabs(&mut self)
        ensures
            final(self).out@ == old(self).out@ + tabs(old(self).tab_index as nat),
            final(self).tab_index == old(self).tab_index,
    {
        let mut i: usize = 0;
        while i < self.tab_index
            invariant
                i <= self.tab_index,
                self.tab_index == old(self).tab_index,
                self.out@ == old(self).out@ + tabs(i as nat),
            decreases self.tab_index - i,
        {
            self.out.push('\t');
            i = i + 1;
            assert(self.out@ =~= old(self).out@ + tabs(i as nat));
        }
    }

    /// Writes an indented line.
    pub fn write_line(&mut self, text: &[char])
        ensures
            final(self).out@ == old(self).out@ + line(old(self).tab_index as nat, text@),
            final(self).tab_index == old(self).tab_index,
    {
        self.write_tabs();
        append_chars(&mut self.out, text);
        self.out.push('\r');
        self.out.push('\n');
        assert(self.out@ =~= old(self).out@ + line(old(self).tab_index as nat, text@));
    }

    /// Writes an opening brace line and indents the lines after it.
    pub fn write_open_brace(&mut self)
        requires
            old(self).tab_index < usize::MAX,
        ensures
            final(self).out@ == old(self).out@ + line(old(self).tab_index as nat, seq!['{']),
            final(self).tab_index == old(self).tab_index + 1,
    {
        let b = vec!['{'];
        self.write_line(b.as_slice());
        self.tab_index = self.tab_index + 1;
    }

    /// Unindents and writes a closing brace line.
    pub fn write_close_brace(&mut self)
        requires
            old(self).tab_index > 0,
        ensures
            final(self).out@ == old(self).out@ + line((old(self).tab_index - 1) as nat, seq!['}']),
            final(self).tab_index == old(self).tab_index - 1,
    {
        self.tab_index = self.tab_index - 1;
        let b = vec!['}'];
        self.write_line(b.as_slice());
    }

    /// Writes an opening bracket line and indents the lines after it.
    pub fn write_open_bracket(&mut self)
        requires
            old(self).tab_index < usize::MAX,
        ensures
            final(self).out@ == old(self).out@ + line(old(self).tab_index as nat, seq!['[']),
            final(self).tab_index == old(self).tab_index + 1,
    {
        let b = vec!['['];
        self.write_line(b.as_slice());
        self.tab_index = self.tab_index + 1;
    }

    /// Unindents and writes a closing bracket line.
    pub fn write_close_bracket(&mut self)
        requires
            old(self).tab_index > 0,
        ensures
            final(self).out@ == old(self).out@ + line((old(self).tab_index - 1) as nat, seq![']']),
            final(self).tab_index == old(self).tab_index - 1,
    {
        self.tab_index = self.tab_index - 1;
        let b = vec![']'];
        self.write_line(b.as_slice());
    }

    /// Writes lines of the hexadecimal digits of binary data, 40 bytes a line.
    pub fn write_hex_lines(&mut self, b: &[u8])
        ensures
            final(self).out@ == old(self).out@ + hex_lines(old(self).tab_index as nat, b@),
            final(self).tab_index == old(self).tab_index,
    {
        let ghost t = self.tab_index as nat;
        let n = b.len();
        let mut i: usize = 0;
        assert(b@.skip(0) =~= b@);
        while i < n
            invariant
                n == b@.len(),
                i <= n,
                self.tab_index == old(self).tab_index,
                t == self.tab_index as nat,
                self.out@ + hex_lines(t, b@.skip(i as int)) == old(self).out@ + hex_lines(t, b@),
            decreases n - i,
        {
            let end = if n - i > 40 {
                i + 40
            } else {
                n
            };
            let mut text: Vec<char> = Vec::new();
            push_bytes_hex(&mut text, b, i, end);
            let ghost rest = b@.skip(i as int);
            self.write_line(text.as_slice());
            proof {
                if n - i > 40 {
                    assert(rest.take(40) =~= b@.subrange(i as int, end as int));
                    assert(rest.skip(40) =~= b@.skip(end as int));
                } else {
                    assert(rest =~= b@.subrange(i as int, end as int));
                    assert(b@.skip(end as int) =~= Seq::<u8>::empty());
                }
            }
            i = end;
            assert(self.out@ + hex_lines(t, b@.skip(i as int)) =~= old(self).out@ + hex_lines(t, b@));
        }
        assert(b@.skip(n as int) =~= Seq::<u8>::empty());
        assert(b@.skip(0) =~= b@);
        assert(self.out@ =~= old(self).out@ + hex_lines(t, b@));
    }
}

} // verus!
