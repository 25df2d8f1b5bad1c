//! The DMX file header and the top-level decoding entry point.

use vstd::prelude::*;
use crate::text::{from_utf8_lossy, utf8_lossy,
    append_chars, append_str, chars_eq, chars_of, has_prefix, has_suffix, int_decimal, parse_i32,
    push_i64_decimal, slice_chars, spec_parse_i32, split_whitespace, split_ws, starts_with, ends_with,
    string_of, trim, trim_chars, IntParseError,
};

use crate::attribute::UuidBytes;
use crate::element::{ElementGraph, ElementView};
use crate::serializers::binary::BinarySerializer;
use crate::serializers::binary_document::decode_binary;
use crate::serializers::binary_error::BinarySerializationError;
use crate::serializers::binary_format::SpecBinaryError;
use crate::serializers::keyvalues2::{new_ids, KeyValues2FlatSerializer, KeyValues2Serializer};
use crate::serializers::keyvalues2_error::KeyValues2SerializationError;
use crate::serializers::keyvalues2_parse::{decode_kv2, decode_kv2_flat};
use crate::serializers::keyvalues2_values::{f32_of, reads_f32, reads_time, time_of, ParsedTime};
use crate::text::{is_digit, is_word, is_ws, law_decimal_parses, lemma_decimal_digits, lemma_split_word, leading_ws, nat_decimal, same_text, trailing_ws};

verus! {

/// The format identifier written by default.
pub open spec fn current_encoding() -> Seq<char> {
    seq!['d', 'm', 'x']
}

/// The format version written by default.
pub const CURRENT_FORMAT_VERSION: i32 = 22;

/// The longest format identifier that [Header::set_format] keeps, in characters.
pub const MAX_FORMAT_LENGTH: usize = 64;

/// The data stored in the header data of the DMX file.
///
/// The header stores what the data represents in the file.
///
/// The header must be at the beginning of the file.
#[derive(Debug, Clone)]
pub struct Header {
    /// The identifier of what the file data represents for example "model" or "sfm".
    pub format: String,
    /// The numerical valve of the version that the file is representing.
    pub format_version: i32,
}

/// An error returned by [Header] when parsing a header.
#[derive(Debug, Clone)]
pub enum FileHeaderError {
    /// A version number did not parse as an integer.
    ParseInt(IntParseError),
    /// The header line is not in the expected form.
    InvalidFileHeader,
    /// The header was legacy with an encoding that is not known.
    UnknownLegacyEncoding(String),
}

/// [FileHeaderError] as a value of specifications.
pub enum SpecFileHeaderError {
    ParseInt(IntParseError),
    InvalidFileHeader,
    UnknownLegacyEncoding(Seq<char>),
}

impl View for FileHeaderError {
    type V = SpecFileHeaderError;

    open spec fn view(&self) -> SpecFileHeaderError {
        match self {
            FileHeaderError::ParseInt(e) => SpecFileHeaderError::ParseInt(*e),
            FileHeaderError::InvalidFileHeader => SpecFileHeaderError::InvalidFileHeader,
            FileHeaderError::UnknownLegacyEncoding(s) => SpecFileHeaderError::UnknownLegacyEncoding(s@),
        }
    }
}

impl View for Header {
    type V = (Seq<char>, i32);

    open spec fn view(&self) -> (Seq<char>, i32) {
        (self.format@, self.format_version)
    }
}

/// What a successful header parse gives: the header, the encoding name and the encoding version.
pub type SpecHeaderParse = Result<((Seq<char>, i32), Seq<char>, i32), SpecFileHeaderError>;

pub open spec fn header_start() -> Seq<char> {
    seq!['<', '!', '-', '-', ' ', 'd', 'm', 'x', ' ', 'e', 'n', 'c', 'o', 'd', 'i', 'n', 'g', ' ']
}

pub open spec fn legacy_header_start() -> Seq<char> {
    seq!['<', '!', '-', '-', ' ', 'D', 'M', 'X', 'V', 'e', 'r', 's', 'i', 'o', 'n', ' ']
}

pub open spec fn header_end() -> Seq<char> {
    seq![' ', '-', '-', '>']
}

pub open spec fn format_word() -> Seq<char> {
    seq!['f', 'o', 'r', 'm', 'a', 't']
}

pub open spec fn binary_name() -> Seq<char> {
    seq!['b', 'i', 'n', 'a', 'r', 'y']
}

pub open spec fn keyvalues2_name() -> Seq<char> {
    seq!['k', 'e', 'y', 'v', 'a', 'l', 'u', 'e', 's', '2']
}

pub open spec fn keyvalues2_flat_name() -> Seq<char> {
    keyvalues2_name() + seq!['_', 'f', 'l', 'a', 't']
}

pub open spec fn legacy_binary_prefix() -> Seq<char> {
    binary_name() + seq!['_', 'v']
}

pub open spec fn legacy_sfm_prefix() -> Seq<char> {
    seq!['s', 'f', 'm', '_', 'v']
}

pub open spec fn legacy_keyvalues2_prefix() -> Seq<char> {
    keyvalues2_name() + seq!['_', 'v']
}

pub open spec fn legacy_keyvalues2_flat_prefix() -> Seq<char> {
    keyvalues2_flat_name() + seq!['_', 'v']
}

/// The text between an opening and a closing token of a header line, when
/// the line holds both without overlap.
pub open spec fn between(t: Seq<char>, start: Seq<char>, end: Seq<char>) -> Option<Seq<char>> {
    if has_prefix(t, start) && has_suffix(t, end) && start.len() + end.len() <= t.len() {
        Some(t.subrange(start.len() as int, t.len() - end.len()))
    } else {
        None
    }
}

/// The result of [Header::from_string] on the text `value`.
pub open spec fn spec_from_string(value: Seq<char>) -> SpecHeaderParse {
    let t = trim(value);
    if !has_prefix(t, header_start()) {
        spec_read_legacy(value)
    } else {
        match between(t, header_start(), header_end()) {
            None => Err(SpecFileHeaderError::InvalidFileHeader),
            Some(inner) => {
                let tokens = split_ws(inner);
                if tokens.len() != 5 || tokens[2] != format_word() {
                    Err(SpecFileHeaderError::InvalidFileHeader)
                } else {
                    match spec_parse_i32(tokens[1]) {
                        Err(e) => Err(SpecFileHeaderError::ParseInt(e)),
                        Ok(encoding_version) => match spec_parse_i32(tokens[4]) {
                            Err(e) => Err(SpecFileHeaderError::ParseInt(e)),
                            Ok(format_version) => Ok(
                                ((tokens[3], format_version), tokens[0], encoding_version),
                            ),
                        },
                    }
                }
            },
        }
    }
}

/// The result of reading a legacy header line `value`.
pub open spec fn spec_read_legacy(value: Seq<char>) -> SpecHeaderParse {
    let t = trim(value);
    match between(t, legacy_header_start(), header_end()) {
        None => Err(SpecFileHeaderError::InvalidFileHeader),
        Some(inner) => {
            let tokens = split_ws(inner);
            if tokens.len() != 1 {
                Err(SpecFileHeaderError::InvalidFileHeader)
            } else {
                let legacy = tokens[0];
                if has_prefix(legacy, legacy_binary_prefix()) {
                    Ok(((current_encoding(), CURRENT_FORMAT_VERSION), binary_name(), 1))
                } else if has_prefix(legacy, legacy_sfm_prefix()) {
                    Ok(((legacy, 1), binary_name(), 1))
                } else if has_prefix(legacy, legacy_keyvalues2_prefix()) {
                    Ok(((current_encoding(), CURRENT_FORMAT_VERSION), keyvalues2_name(), 1))
                } else if has_prefix(legacy, legacy_keyvalues2_flat_prefix()) {
                    Ok(((current_encoding(), CURRENT_FORMAT_VERSION), keyvalues2_flat_name(), 1))
                } else {
                    Err(SpecFileHeaderError::UnknownLegacyEncoding(legacy))
                }
            }
        },
    }
}

/// The view of a header parse result.
pub open spec fn header_parse_view(r: Result<(Header, String, i32), FileHeaderError>) -> SpecHeaderParse {
    match r {
        Ok((h, e, v)) => Ok((h@, e@, v)),
        Err(e) => Err(e@),
    }
}

/// The text of a header line that [Header::create_header] writes.
pub open spec fn spec_create_header(
    format: Seq<char>,
    format_version: i32,
    encoding: Seq<char>,
    encoding_version: i32,
) -> Seq<char> {
    header_start() + encoding + seq![' '] + int_decimal(encoding_version as int) + seq![' ']
        + format_word() + seq![' '] + format + seq![' '] + int_decimal(format_version as int)
        + header_end() + seq!['\n']
}

/// At most the first [MAX_FORMAT_LENGTH] characters of a format identifier.
pub open spec fn truncated_format(f: Seq<char>) -> Seq<char> {
    if f.len() <= MAX_FORMAT_LENGTH {
        f
    } else {
        f.take(MAX_FORMAT_LENGTH as int)
    }
}

/// The end of the first line of `d`: just after its first newline, or the
/// end of `d` when it has none.
pub open spec fn line_end(d: Seq<u8>) -> int
    decreases d.len(),
{
    if d.len() == 0 {
        0
    } else if d[0] == 10 {
        1
    } else {
        1 + line_end(d.drop_first())
    }
}

/// The first line of `d` is within it.
pub proof fn lemma_line_end(d: Seq<u8>)
    ensures
        0 <= line_end(d) <= d.len(),
        forall|k: int| 0 <= k < line_end(d) - 1 ==> d[k] != 10,
        line_end(d) < d.len() || (line_end(d) > 0 && d[line_end(d) - 1] == 10) || forall|k: int| 0 <= k < d.len() ==> d[k] != 10,
    decreases d.len(),
{
    if d.len() > 0 && d[0] != 10 {
        lemma_line_end(d.drop_first());
        assert forall|k: int| 0 <= k < line_end(d) - 1 implies d[k] != 10 by {
            if k > 0 {
                assert(d[k] == d.drop_first()[k - 1]);
            }
        }
        assert forall|k: int| 0 <= k < d.len() && forall|j: int| 0 <= j < d.drop_first().len() ==> d.drop_first()[j] != 10 implies d[k] != 10 by {
            if k > 0 {
                assert(d[k] == d.drop_first()[k - 1]);
            }
        }
    }
}

/// Finds where the first line of `d` ends: just after its first newline,
/// or at the end of `d` when it has none.
pub fn header_line_end(d: &[u8]) -> (r: usize)
    ensures
        r == line_end(d@),
{
    let mut i: usize = 0;
    assert(d@.subrange(0, d@.len() as int) =~= d@);
    while i < d.len() && d[i] != 10
        invariant
            i <= d@.len(),
            forall|k: int| 0 <= k < i ==> d@[k] != 10,
            line_end(d@) == i + line_end(d@.subrange(i as int, d@.len() as int)),
        decreases d@.len() - i,
    {
        proof {
            let rest = d@.subrange(i as int, d@.len() as int);
            assert(rest.drop_first() =~= d@.subrange(i + 1, d@.len() as int));
        }
        i = i + 1;
    }
    proof {
        let rest = d@.subrange(i as int, d@.len() as int);
        assert(d@.subrange(0, d@.len() as int) =~= d@);
        if i < d@.len() {
            assert(rest[0] == 10);
        } else {
            assert(rest.len() == 0);
        }
    }
    if i < d.len() {
        i + 1
    } else {
        i
    }
}

/// The first `n` bytes of `d`.
fn copy_prefix(d: &[u8], n: usize) -> (r: Vec<u8>)
    requires
        n <= d@.len(),
    ensures
        r@ == d@.subrange(0, n as int),
{
    let mut r: Vec<u8> = Vec::new();
    let mut i: usize = 0;
    while i < n
        invariant
            i <= n <= d@.len(),
            r@ == d@.subrange(0, i as int),
        decreases n - i,
    {
        r.push(d[i]);
        i = i + 1;
        assert(r@ =~= d@.subrange(0, i as int));
    }
    r
}

/// Takes the text between `start` and `end` of `t` when both are there.
fn text_between(t: &[char], start: &[char], end: &[char]) -> (r: Option<Vec<char>>)
    ensures
        match r {
            Some(v) => between(t@, start@, end@) == Some(v@),
            None => between(t@, start@, end@) is None,
        },
{
    if starts_with(t, start) && ends_with(t, end) && start.len() <= t.len()
        && end.len() <= t.len() - start.len() {
        Some(slice_chars(t, start.len(), t.len() - end.len()))
    } else {
        None
    }
}

impl Default for Header {
    fn default() -> (r: Self)
        ensures
            r@ == (current_encoding(), CURRENT_FORMAT_VERSION),
    {
        Header::current()
    }
}

impl Header {
    /// A header for the current format identifier and version.
    pub fn current() -> (r: Self)
        ensures
            r@ == (current_encoding(), CURRENT_FORMAT_VERSION),
    {
        let f = vec!['d', 'm', 'x'];
        assert(f@ == current_encoding());
        Header { format: string_of(f.as_slice()), format_version: CURRENT_FORMAT_VERSION }
    }

    /// A way to create a new [Header] with specified format identifier and version.
    /// The format is kept whole; only [Header::set_format] cuts it to
    /// [MAX_FORMAT_LENGTH] characters.
    pub fn new(format: String, format_version: i32) -> (r: Self)
        ensures
            r@ == (format@, format_version),
    {
        Header { format, format_version }
    }

    /// Returns the format of the header.
    pub fn get_format(&self) -> (r: &str)
        ensures
            r@ == self.format@,
    {
        self.format.as_str()
    }

    /// Sets the format identifier, cut to at most [MAX_FORMAT_LENGTH] characters.
    pub fn set_format(&mut self, format: String)
        ensures
            final(self).format@ == truncated_format(format@),
            final(self).format_version == old(self).format_version,
    {
        let chars = chars_of(format.as_str());
        if chars.len() <= MAX_FORMAT_LENGTH {
            self.format = format;
        } else {
            let mut head: Vec<char> = Vec::new();
            let mut i: usize = 0;
            while i < MAX_FORMAT_LENGTH
                invariant
                    i <= MAX_FORMAT_LENGTH < chars@.len(),
                    head@ == chars@.take(i as int),
                decreases MAX_FORMAT_LENGTH - i,
            {
                head.push(chars[i]);
                assert(head@ =~= chars@.take(i + 1));
                i += 1;
            }
            self.format = string_of(head.as_slice());
        }
    }

    /// Parses a [Header] from a string.
    ///
    /// # Returns
    /// The [Header], encoding string, and encoding version that was parsed.
    pub fn from_string(value: String) -> (r: Result<(Self, String, i32), FileHeaderError>)
        ensures
            header_parse_view(r) == spec_from_string(value@),
    {
        let chars = chars_of(value.as_str());
        let trimmed = trim_chars(chars.as_slice());
        let start = chars_of("<!-- dmx encoding ");
        assert(start@ == header_start()) by {
            reveal_strlit("<!-- dmx encoding ");
        }
        if !starts_with(trimmed.as_slice(), start.as_slice()) {
            return Self::read_legacy(value);
        }
        let end = chars_of(" -->");
        assert(end@ == header_end()) by {
            reveal_strlit(" -->");
        }
        let inner = match text_between(trimmed.as_slice(), start.as_slice(), end.as_slice()) {
            Some(inner) => inner,
            None => return Err(FileHeaderError::InvalidFileHeader),
        };
        let tokens = split_whitespace(inner.as_slice());
        let format = chars_of("format");
        assert(format@ == format_word()) by {
            reveal_strlit("format");
        }
        if tokens.len() != 5 || !chars_eq(tokens[2].as_slice(), format.as_slice()) {
            return Err(FileHeaderError::InvalidFileHeader);
        }
        let encoding_version = match parse_i32(tokens[1].as_slice()) {
            Ok(v) => v,
            Err(e) => return Err(FileHeaderError::ParseInt(e)),
        };
        let format_version = match parse_i32(tokens[4].as_slice()) {
            Ok(v) => v,
            Err(e) => return Err(FileHeaderError::ParseInt(e)),
        };
        let encoding = string_of(tokens[0].as_slice());
        let format_name = string_of(tokens[3].as_slice());
        Ok((Self::new(format_name, format_version), encoding, encoding_version))
    }

    /// Reads a legacy header line, `<!-- DMXVersion {encoding}_v{version} -->`.
    fn read_legacy(value: String) -> (r: Result<(Self, String, i32), FileHeaderError>)
        ensures
            header_parse_view(r) == spec_read_legacy(value@),
    {
        let chars = chars_of(value.as_str());
        let trimmed = trim_chars(chars.as_slice());
        let start = chars_of("<!-- DMXVersion ");
        assert(start@ == legacy_header_start()) by {
            reveal_strlit("<!-- DMXVersion ");
        }
        let end = chars_of(" -->");
        assert(end@ == header_end()) by {
            reveal_strlit(" -->");
        }
        let inner = match text_between(trimmed.as_slice(), start.as_slice(), end.as_slice()) {
            Some(inner) => inner,
            None => return Err(FileHeaderError::InvalidFileHeader),
        };
        let tokens = split_whitespace(inner.as_slice());
        if tokens.len() != 1 {
            return Err(FileHeaderError::InvalidFileHeader);
        }
        let legacy = tokens[0].as_slice();
        let binary_prefix = vec!['b', 'i', 'n', 'a', 'r', 'y', '_', 'v'];
        let sfm_prefix = vec!['s', 'f', 'm', '_', 'v'];
        let kv2_prefix = vec!['k', 'e', 'y', 'v', 'a', 'l', 'u', 'e', 's', '2', '_', 'v'];
        let kv2_flat_prefix = vec![
            'k', 'e', 'y', 'v', 'a', 'l', 'u', 'e', 's', '2', '_', 'f', 'l', 'a', 't', '_', 'v',
        ];
        assert(binary_prefix@ == legacy_binary_prefix());
        assert(sfm_prefix@ == legacy_sfm_prefix());
        assert(kv2_prefix@ == legacy_keyvalues2_prefix());
        assert(kv2_flat_prefix@ == legacy_keyvalues2_flat_prefix());
        if starts_with(legacy, binary_prefix.as_slice()) {
            let encoding = vec!['b', 'i', 'n', 'a', 'r', 'y'];
            assert(encoding@ == binary_name());
            return Ok((Self::current(), string_of(encoding.as_slice()), 1));
        }
        if starts_with(legacy, sfm_prefix.as_slice()) {
            let encoding = vec!['b', 'i', 'n', 'a', 'r', 'y'];
            assert(encoding@ == binary_name());
            return Ok((Self::new(string_of(legacy), 1), string_of(encoding.as_slice()), 1));
        }
        if starts_with(legacy, kv2_prefix.as_slice()) {
            let encoding = vec!['k', 'e', 'y', 'v', 'a', 'l', 'u', 'e', 's', '2'];
            assert(encoding@ == keyvalues2_name());
            return Ok((Self::current(), string_of(encoding.as_slice()), 1));
        }
        if starts_with(legacy, kv2_flat_prefix.as_slice()) {
            let encoding = vec!['k', 'e', 'y', 'v', 'a', 'l', 'u', 'e', 's', '2', '_', 'f', 'l', 'a', 't'];
            assert(encoding@ == keyvalues2_flat_name());
            return Ok((Self::current(), string_of(encoding.as_slice()), 1));
        }
        Err(FileHeaderError::UnknownLegacyEncoding(string_of(legacy)))
    }

    /// Parses a [Header] from the first line of some bytes: up to and with
    /// its newline, read as UTF-8 with invalid sequences replaced.
    ///
    /// # Returns
    /// The [Header], encoding string, and encoding version that was parsed.
    pub fn from_buffer(buffer: &[u8]) -> (r: Result<(Self, String, i32), FileHeaderError>)
        ensures
            header_parse_view(r) == spec_from_string(utf8_lossy(buffer@.subrange(0, line_end(buffer@)))),
    {
        let end = header_line_end(buffer);
        proof {
            lemma_line_end(buffer@);
        }
        let line = copy_prefix(buffer, end);
        Self::from_string(from_utf8_lossy(line.as_slice()))
    }

    /// Creates a proper DMX file header.
    ///
    /// # Example
    /// ```text
    /// <!-- dmx encoding {encoding} {encoding_version} format {format} {format_version} -->
    /// ```
    pub fn create_header(&self, encoding: &str, encoding_version: i32) -> (r: String)
        ensures
            r@ == spec_create_header(self.format@, self.format_version, encoding@, encoding_version),
    {
        let mut out: Vec<char> = Vec::new();
        let start = chars_of("<!-- dmx encoding ");
        assert(start@ == header_start()) by {
            reveal_strlit("<!-- dmx encoding ");
        }
        append_chars(&mut out, start.as_slice());
        append_str(&mut out, encoding);
        out.push(' ');
        push_i64_decimal(&mut out, encoding_version as i64);
        let middle = vec![' ', 'f', 'o', 'r', 'm', 'a', 't', ' '];
        append_chars(&mut out, middle.as_slice());
        append_str(&mut out, self.format.as_str());
        out.push(' ');
        push_i64_decimal(&mut out, self.format_version as i64);
        let end = vec![' ', '-', '-', '>', '\n'];
        append_chars(&mut out, end.as_slice());
        assert(out@ == spec_create_header(
            self.format@,
            self.format_version,
            encoding@,
            encoding_version,
        ));
        string_of(out.as_slice())
    }
}

// ---------------------------------------------------------------------------
// What is read back of what is written
// ---------------------------------------------------------------------------

/// A line without white space at its ends, with a line feed, trims to itself.
proof fn lemma_trim_line(body: Seq<char>)
    requires
        body.len() > 0,
        !is_ws(body[0]),
        !is_ws(body.last()),
    ensures
        trim(body.push('\n')) == body,
{
    let text = body.push('\n');
    assert(text[0] == body[0]);
    assert(leading_ws(text) == 0);
    assert(text.skip(0) =~= text);
    assert(text.drop_last() =~= body);
    assert(trailing_ws(body) == 0);
    assert(trailing_ws(text) == 1);
    assert(text.take(text.len() - 1) =~= body);
}

/// The text between the header's opening and closing tokens.
proof fn lemma_header_between(inner: Seq<char>)
    ensures
        has_prefix(header_start() + inner + header_end(), header_start()),
        between(header_start() + inner + header_end(), header_start(), header_end()) == Some(inner),
{
    let body = header_start() + inner + header_end();
    assert(body.take(header_start().len() as int) =~= header_start());
    assert(body.skip(body.len() - header_end().len()) =~= header_end());
    assert(body.subrange(header_start().len() as int, body.len() - header_end().len()) =~= inner);
}

/// The words of the header's inner text.
proof fn lemma_header_words(format: Seq<char>, d2: Seq<char>, encoding: Seq<char>, d1: Seq<char>)
    requires
        is_word(format),
        is_word(encoding),
        is_word(d1),
        is_word(d2),
    ensures
        split_ws(encoding + seq![' '] + d1 + seq![' '] + format_word() + seq![' '] + format + seq![' '] + d2)
            == seq![encoding, d1, format_word(), format, d2],
{
    let inner = encoding + seq![' '] + d1 + seq![' '] + format_word() + seq![' '] + format + seq![' '] + d2;
    assert(is_word(format_word()));
    let r3 = format + seq![' '] + d2;
    let r2 = format_word() + seq![' '] + r3;
    let r1 = d1 + seq![' '] + r2;
    assert(inner =~= encoding + seq![' '] + r1);
    lemma_split_word(encoding, r1);
    lemma_split_word(d1, r2);
    lemma_split_word(format_word(), r3);
    lemma_split_word(format, d2);
    lemma_split_word(d2, seq![]);
    assert(split_ws(inner) =~= seq![encoding, d1, format_word(), format, d2]);
}

/// A header line that [Header::create_header] writes parses back, with
/// [Header::from_string], to its header, encoding and encoding version,
/// when the format and the encoding are words without white space.
pub proof fn law_header_round_trip(format: Seq<char>, format_version: i32, encoding: Seq<char>, encoding_version: i32)
    requires
        is_word(format),
        is_word(encoding),
    ensures
        spec_from_string(spec_create_header(format, format_version, encoding, encoding_version)) == Ok::<
            ((Seq<char>, i32), Seq<char>, i32),
            SpecFileHeaderError,
        >(((format, format_version), encoding, encoding_version)),
{
    let d1 = int_decimal(encoding_version as int);
    let d2 = int_decimal(format_version as int);
    let inner = encoding + seq![' '] + d1 + seq![' '] + format_word() + seq![' '] + format + seq![' '] + d2;
    let body = header_start() + inner + header_end();
    let text = spec_create_header(format, format_version, encoding, encoding_version);
    assert(text =~= body.push('\n'));
    assert(body[0] == '<');
    assert(body.last() == '>');
    lemma_trim_line(body);
    lemma_header_between(inner);
    law_decimal_parses(encoding_version);
    law_decimal_parses(format_version);
    lemma_int_decimal_word(encoding_version as int);
    lemma_int_decimal_word(format_version as int);
    lemma_header_words(format, d2, encoding, d1);
    let tokens = split_ws(inner);
    assert(tokens[0] == encoding && tokens[1] == d1 && tokens[2] == format_word() && tokens[3] == format && tokens[4] == d2);
}

/// The decimal text of an integer is a word.
pub proof fn lemma_int_decimal_word(v: int)
    ensures
        is_word(int_decimal(v)),
{
    let n: nat = if v < 0 { (-v) as nat } else { v as nat };
    lemma_decimal_digits(n);
    assert forall|k: int| 0 <= k < nat_decimal(n).len() implies !is_ws(#[trigger] nat_decimal(n)[k]) by {
        assert(is_digit(nat_decimal(n)[k]));
    }
    if v < 0 {
        let s = seq!['-'] + nat_decimal(n);
        assert forall|k: int| 0 <= k < s.len() implies !is_ws(#[trigger] s[k]) by {
            if k > 0 {
                assert(s[k] == nat_decimal(n)[k - 1]);
            }
        }
    }
}

// ---------------------------------------------------------------------------
// Decoding a file
// ---------------------------------------------------------------------------

/// An error returned by [deserialize].
#[derive(Debug)]
pub enum SerializationError {
    /// The header names an encoding that is not supported.
    UnknownEncoding,
    /// The header did not parse.
    Header(FileHeaderError),
    /// The binary encoding failed.
    Binary(BinarySerializationError),
    /// A KeyValues2 encoding failed.
    KeyValues2(KeyValues2SerializationError),
}

/// [SerializationError] as a value of specifications.
pub enum SpecSerializationError {
    UnknownEncoding,
    Header(SpecFileHeaderError),
    Binary(SpecBinaryError),
    KeyValues2(KeyValues2SerializationError),
}

impl View for SerializationError {
    type V = SpecSerializationError;

    open spec fn view(&self) -> SpecSerializationError {
        match self {
            SerializationError::UnknownEncoding => SpecSerializationError::UnknownEncoding,
            SerializationError::Header(e) => SpecSerializationError::Header(e@),
            SerializationError::Binary(e) => SpecSerializationError::Binary(e@),
            SerializationError::KeyValues2(e) => SpecSerializationError::KeyValues2(*e),
        }
    }
}

/// What decoding the file `d` gives: its header, its elements and the
/// position of the root. The header line selects the encoding, which reads
/// the bytes after it; new KeyValues2 elements take their ids from `ids`.
pub open spec fn spec_deserialize(
    d: Seq<u8>,
    ids: Seq<UuidBytes>,
    ft: spec_fn(Seq<char>) -> Option<u32>,
    tt: spec_fn(Seq<char>) -> ParsedTime,
) -> Result<((Seq<char>, i32), Seq<ElementView>, usize), SpecSerializationError> {
    let q = line_end(d);
    let rest = d.subrange(q, d.len() as int);
    match spec_from_string(utf8_lossy(d.subrange(0, q))) {
        Err(e) => Err(SpecSerializationError::Header(e)),
        Ok((h, enc, v)) => if enc == binary_name() {
            match decode_binary(rest, enc, v) {
                Ok(es) => Ok((h, es, 0)),
                Err(e) => Err(SpecSerializationError::Binary(e)),
            }
        } else if enc == keyvalues2_name() {
            match decode_kv2(rest, enc, v, ids, ft, tt) {
                Ok((es, root)) => Ok((h, es, root)),
                Err(e) => Err(SpecSerializationError::KeyValues2(e)),
            }
        } else if enc == keyvalues2_flat_name() {
            match decode_kv2_flat(rest, enc, v, ids, ft, tt) {
                Ok((es, root)) => Ok((h, es, root)),
                Err(e) => Err(SpecSerializationError::KeyValues2(e)),
            }
        } else {
            Err(SpecSerializationError::UnknownEncoding)
        },
    }
}

/// A decoding result, viewed.
pub open spec fn decoded_view(r: Result<(Header, ElementGraph, usize), SerializationError>) -> Result<((Seq<char>, i32), Seq<ElementView>, usize), SpecSerializationError> {
    match r {
        Ok((h, g, root)) => Ok((h@, g@, root)),
        Err(e) => Err(e@),
    }
}

/// The bytes of `d` from `n` on.
fn copy_from(d: &[u8], n: usize) -> (r: Vec<u8>)
    requires
        n <= d@.len(),
    ensures
        r@ == d@.subrange(n as int, d@.len() as int),
{
    let mut r: Vec<u8> = Vec::new();
    let mut i: usize = n;
    while i < d.len()
        invariant
            n <= i <= d@.len(),
            r@ == d@.subrange(n as int, i as int),
        decreases d@.len() - i,
    {
        r.push(d[i]);
        i = i + 1;
        assert(r@ =~= d@.subrange(n as int, i as int));
    }
    r
}

/// Decodes a file with the encoding that its header names (`spec_deserialize`);
/// new KeyValues2 elements take their ids from `ids`, in turn. Gives the
/// header, the elements and the position of the root.
pub fn deserialize_with_ids<F: Fn(&str) -> Option<u32>, T: Fn(&str) -> ParsedTime>(
    data: &[u8],
    ids: &[UuidBytes],
    parse_float: &F,
    parse_time: &T,
) -> (r: Result<(Header, ElementGraph, usize), SerializationError>)
    requires
        data@.len() < usize::MAX,
        ids@.len() > 0,
        reads_f32(*parse_float),
        reads_time(*parse_time),
    ensures
        decoded_view(r) == spec_deserialize(data@, ids@, f32_of(*parse_float), time_of(*parse_time)),
{
    let (header, encoding, version) = match Header::from_buffer(data) {
        Err(e) => {
            return Err(SerializationError::Header(e));
        },
        Ok(t) => t,
    };
    let end = header_line_end(data);
    proof {
        lemma_line_end(data@);
    }
    let rest = copy_from(data, end);
    if same_text(encoding.as_str(), BinarySerializer::name()) {
        match BinarySerializer::deserialize(rest.as_slice(), encoding, version) {
            Ok(g) => Ok((header, g, 0)),
            Err(e) => Err(SerializationError::Binary(e)),
        }
    } else if same_text(encoding.as_str(), KeyValues2Serializer::name()) {
        match KeyValues2Serializer::deserialize_with_ids(rest.as_slice(), encoding, version, ids, parse_float, parse_time) {
            Ok((g, root)) => Ok((header, g, root)),
            Err(e) => Err(SerializationError::KeyValues2(e)),
        }
    } else if same_text(encoding.as_str(), KeyValues2FlatSerializer::name()) {
        match KeyValues2FlatSerializer::deserialize_with_ids(rest.as_slice(), encoding, version, ids, parse_float, parse_time) {
            Ok((g, root)) => Ok((header, g, root)),
            Err(e) => Err(SerializationError::KeyValues2(e)),
        }
    } else {
        Err(SerializationError::UnknownEncoding)
    }
}

/// Decodes a file with the encoding that its header names: `binary`,
/// `keyvalues2` or `keyvalues2_flat`; legacy headers are read too. New
/// KeyValues2 elements take new random ids. Gives the header, the elements
/// and the position of the root.
pub fn deserialize<F: Fn(&str) -> Option<u32>, T: Fn(&str) -> ParsedTime>(
    data: &[u8],
    parse_float: &F,
    parse_time: &T,
) -> (r: Result<(Header, ElementGraph, usize), SerializationError>)
    requires
        data@.len() < usize::MAX,
        reads_f32(*parse_float),
        reads_time(*parse_time),
    ensures
        exists|ids: Seq<UuidBytes>| #![trigger spec_deserialize(data@, ids, f32_of(*parse_float), time_of(*parse_time))]
            ids.len() == crate::serializers::keyvalues2::brace_count(data@) + 1 && decoded_view(r) == spec_deserialize(
                data@,
                ids,
                f32_of(*parse_float),
                time_of(*parse_time),
            ),
{
    let ids = new_ids(data);
    deserialize_with_ids(data, ids.as_slice(), parse_float, parse_time)
}

} // verus!
