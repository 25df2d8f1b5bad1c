//! Reading KeyValues2 attribute values from their text.
//!
//! Integers are read here. Texts of `f32` numbers and of times are read by
//! functions that the caller passes: the first gives the bit pattern of the
//! `f32` that a text holds, the second what a time text holds.

use vstd::prelude::*;
use crate::attribute::{
    blocks_view, matrices_view, matrix_entries, strings_view, uuids_view, Angle, AttributeValue, BinaryBlock, Color, Matrix, Quaternion, SpecAttributeValue, Time, Vector2,
    Vector3, Vector4,
};
use crate::ids::{parse_uuid, parsed_uuid};
use crate::serializers::keyvalues2_error::KeyValues2SerializationError;
use crate::serializers::keyvalues2_token::{
    cursor_ok, kv_measure, kv_next_token, lemma_token_advances, lines_ok, lines_view, opt_token,
    KvCursor, KvLines, KvToken, ReadToken, StringReader,
};
use crate::text::{
    is_whitespace, is_ws, parse_i32, same_text, slice_chars, spec_parse_i32, split_whitespace, split_ws,
    string_of,
};

verus! {

/// What a time text holds: no number, a number of seconds out of the range of
/// a time, or the time it stands for.
#[derive(Debug, Clone, Copy, PartialEq, Eq, Structural)]
pub enum ParsedTime {
    Invalid,
    OutOfRange,
    Value(i32),
}

/// What a reader of KeyValues2 text works on: the lines of the text, the ids
/// that new elements take, and what the caller's functions read from
/// `f32` texts and from time texts.
pub struct KvIn {
    pub lines: KvLines,
    pub ids: Seq<[u8; 16]>,
    pub ft: spec_fn(Seq<char>) -> Option<u32>,
    pub tt: spec_fn(Seq<char>) -> ParsedTime,
}

// ---------------------------------------------------------------------------
// The caller's functions
// ---------------------------------------------------------------------------

/// A function that reads `f32` texts: it takes every text, and gives one
/// result for each text.
pub open spec fn reads_f32<F: Fn(&str) -> Option<u32>>(f: F) -> bool {
    &&& forall|s: &str| call_requires(f, (s,))
    &&& forall|s1: &str, s2: &str, r1: Option<u32>, r2: Option<u32>|
        s1@ == s2@ && call_ensures(f, (s1,), r1) && call_ensures(f, (s2,), r2) ==> r1 == r2
}

/// A function that reads time texts: it takes every text, and gives one
/// result for each text.
pub open spec fn reads_time<T: Fn(&str) -> ParsedTime>(f: T) -> bool {
    &&& forall|s: &str| call_requires(f, (s,))
    &&& forall|s1: &str, s2: &str, r1: ParsedTime, r2: ParsedTime|
        s1@ == s2@ && call_ensures(f, (s1,), r1) && call_ensures(f, (s2,), r2) ==> r1 == r2
}

/// `f` gives `r` for some text with the characters `t`.
pub open spec fn f32_result<F: Fn(&str) -> Option<u32>>(f: F, t: Seq<char>, r: Option<u32>) -> bool {
    exists|s: &str| s@ == t && #[trigger] call_ensures(f, (s,), r)
}

/// `f` gives `r` for some text with the characters `t`.
pub open spec fn time_result<T: Fn(&str) -> ParsedTime>(f: T, t: Seq<char>, r: ParsedTime) -> bool {
    exists|s: &str| s@ == t && #[trigger] call_ensures(f, (s,), r)
}

/// What `f` reads from each `f32` text.
pub open spec fn f32_of<F: Fn(&str) -> Option<u32>>(f: F) -> spec_fn(Seq<char>) -> Option<u32> {
    |t: Seq<char>| choose|r: Option<u32>| f32_result(f, t, r)
}

/// What `f` reads from each time text.
pub open spec fn time_of<T: Fn(&str) -> ParsedTime>(f: T) -> spec_fn(Seq<char>) -> ParsedTime {
    |t: Seq<char>| choose|r: ParsedTime| time_result(f, t, r)
}

/// `f` reads the `f32` texts as `ft` says.
pub open spec fn gives_f32<F: Fn(&str) -> Option<u32>>(f: F, ft: spec_fn(Seq<char>) -> Option<u32>) -> bool {
    &&& forall|s: &str| call_requires(f, (s,))
    &&& forall|s: &str, r: Option<u32>| call_ensures(f, (s,), r) ==> r == ft(s@)
}

/// `f` reads the time texts as `tt` says.
pub open spec fn gives_time<T: Fn(&str) -> ParsedTime>(f: T, tt: spec_fn(Seq<char>) -> ParsedTime) -> bool {
    &&& forall|s: &str| call_requires(f, (s,))
    &&& forall|s: &str, r: ParsedTime| call_ensures(f, (s,), r) ==> r == tt(s@)
}

pub proof fn lemma_gives_f32<F: Fn(&str) -> Option<u32>>(f: F)
    requires
        reads_f32(f),
    ensures
        gives_f32(f, f32_of(f)),
{
    assert forall|s: &str, r: Option<u32>| call_ensures(f, (s,), r) implies r == f32_of(f)(s@) by {
        assert(f32_result(f, s@, r));
        let r2 = f32_of(f)(s@);
        let s2 = choose|s2: &str| s2@ == s@ && #[trigger] call_ensures(f, (s2,), r2);
        assert(call_ensures(f, (s2,), r2));
    }
}

pub proof fn lemma_gives_time<T: Fn(&str) -> ParsedTime>(f: T)
    requires
        reads_time(f),
    ensures
        gives_time(f, time_of(f)),
{
    assert forall|s: &str, r: ParsedTime| call_ensures(f, (s,), r) implies r == time_of(f)(s@) by {
        assert(time_result(f, s@, r));
        let r2 = time_of(f)(s@);
        let s2 = choose|s2: &str| s2@ == s@ && #[trigger] call_ensures(f, (s2,), r2);
        assert(call_ensures(f, (s2,), r2));
    }
}

// ---------------------------------------------------------------------------
// Unsigned integers in a radix
// ---------------------------------------------------------------------------

/// The value of a digit in radix 10 or 16 (`char::to_digit`).
pub open spec fn digit_of(c: char, radix: int) -> Option<int> {
    if '0' <= c && c <= '9' {
        Some(c as int - '0' as int)
    } else if radix == 16 && 'a' <= c && c <= 'f' {
        Some(c as int - 'a' as int + 10)
    } else if radix == 16 && 'A' <= c && c <= 'F' {
        Some(c as int - 'A' as int + 10)
    } else {
        None
    }
}

/// The value of a run of digits, if each is a digit.
pub open spec fn digits_value(s: Seq<char>, radix: int) -> Option<int>
    decreases s.len(),
{
    if s.len() == 0 {
        Some(0)
    } else {
        match digits_value(s.drop_last(), radix) {
            Some(v) => match digit_of(s.last(), radix) {
                Some(d) => Some(v * radix + d),
                None => None,
            },
            None => None,
        }
    }
}

/// What `from_str_radix` of an unsigned type reads: an optional `+`, then at
/// least one digit, with a value of at most `max`.
pub open spec fn parse_unsigned(s: Seq<char>, radix: int, max: int) -> Option<int> {
    let d = if s.len() > 1 && s[0] == '+' {
        s.drop_first()
    } else {
        s
    };
    if d.len() == 0 {
        None
    } else {
        match digits_value(d, radix) {
            Some(v) => if v <= max {
                Some(v)
            } else {
                None
            },
            None => None,
        }
    }
}

fn digit_value_of(c: char, radix: u32) -> (r: Option<u32>)
    requires
        radix == 10 || radix == 16,
    ensures
        match digit_of(c, radix as int) {
            Some(d) => r == Some(d as u32),
            None => r is None,
        },
{
    if '0' <= c && c <= '9' {
        Some((c as u32) - ('0' as u32))
    } else if radix == 16 && 'a' <= c && c <= 'f' {
        Some((c as u32) - ('a' as u32) + 10)
    } else if radix == 16 && 'A' <= c && c <= 'F' {
        Some((c as u32) - ('A' as u32) + 10)
    } else {
        None
    }
}

/// Reads an unsigned integer as `from_str_radix` does (`parse_unsigned`).
pub fn parse_unsigned_chars(s: &[char], radix: u32, max: u64) -> (r: Option<u64>)
    requires
        radix == 10 || radix == 16,
    ensures
        match parse_unsigned(s@, radix as int, max as int) {
            Some(v) => 0 <= v <= max && r == Some(v as u64),
            None => r is None,
        },
{
    let n = s.len();
    let start: usize = if n > 1 && s[0] == '+' {
        1
    } else {
        0
    };
    let ghost d = if s@.len() > 1 && s@[0] == '+' {
        s@.drop_first()
    } else {
        s@
    };
    assert(d =~= s@.skip(start as int));
    if start == n {
        return None;
    }
    let mut acc: u64 = 0;
    let mut bad = false;
    let mut over = false;
    let mut i = start;
    assert(d.take(0) =~= Seq::<char>::empty());
    while i < n
        invariant
            start <= i <= n,
            n == s@.len(),
            d == s@.skip(start as int),
            radix == 10 || radix == 16,
            bad <==> digits_value(d.take(i - start), radix as int) is None,
            !bad ==> digits_value(d.take(i - start), radix as int)->0 >= 0,
            !bad && over ==> digits_value(d.take(i - start), radix as int)->0 > max,
            !bad && !over ==> digits_value(d.take(i - start), radix as int)->0 == acc && acc <= max,
        decreases n - i,
    {
        let ghost k = i - start;
        assert(d.take(k + 1).drop_last() =~= d.take(k));
        assert(d.take(k + 1).last() == s@[i as int]);
        let dg = digit_value_of(s[i], radix);
        match dg {
            None => {
                bad = true;
            },
            Some(x) => {
                if !bad {
                    let ghost v = digits_value(d.take(k), radix as int)->0;
                    assert(v * radix + x >= v) by (nonlinear_arith)
                        requires
                            v >= 0,
                            radix >= 1,
                            x >= 0,
                    ;
                    if !over {
                        let next: u128 = (acc as u128) * (radix as u128) + (x as u128);
                        if next > max as u128 {
                            over = true;
                        } else {
                            acc = next as u64;
                        }
                    }
                }
            },
        }
        i = i + 1;
    }
    assert(d.take(n - start) =~= d);
    if bad || over {
        None
    } else {
        Some(acc)
    }
}

// ---------------------------------------------------------------------------
// Binary blocks and multi-part values
// ---------------------------------------------------------------------------

/// `s` without its white space.
pub open spec fn drop_ws(s: Seq<char>) -> Seq<char>
    decreases s.len(),
{
    if s.len() == 0 {
        seq![]
    } else {
        let r = drop_ws(s.drop_last());
        if is_ws(s.last()) {
            r
        } else {
            r.push(s.last())
        }
    }
}

/// The bytes of hexadecimal digits read two at a time; a last lone digit is
/// a byte of its own.
pub open spec fn hex_pairs(s: Seq<char>) -> Option<Seq<u8>>
    decreases s.len(),
{
    if s.len() == 0 {
        Some(seq![])
    } else {
        let k: int = if s.len() >= 2 {
            2
        } else {
            1
        };
        match parse_unsigned(s.take(k), 16, 255) {
            Some(b) => match hex_pairs(s.skip(k)) {
                Some(rest) => Some(seq![b as u8] + rest),
                None => None,
            },
            None => None,
        }
    }
}

/// The first `n` parts read by `p`: `Err(true)` where a part is missing,
/// `Err(false)` where one does not read.
pub open spec fn parts_upto<T>(p: spec_fn(Seq<char>) -> Option<T>, parts: Seq<Seq<char>>, n: nat) -> Result<Seq<T>, bool>
    decreases n,
{
    if n == 0 {
        Ok(seq![])
    } else {
        match parts_upto(p, parts, (n - 1) as nat) {
            Err(e) => Err(e),
            Ok(s) => if n - 1 >= parts.len() {
                Err(true)
            } else {
                match p(parts[n - 1]) {
                    Some(v) => Ok(s.push(v)),
                    None => Err(false),
                }
            },
        }
    }
}

/// A byte in decimal, as `u8::from_str` reads it.
pub open spec fn decimal_byte(s: Seq<char>) -> Option<int> {
    parse_unsigned(s, 10, 255)
}

fn remove_ws(s: &[char]) -> (r: Vec<char>)
    ensures
        r@ == drop_ws(s@),
{
    let mut out: Vec<char> = Vec::new();
    let mut i: usize = 0;
    assert(s@.take(0) =~= Seq::<char>::empty());
    while i < s.len()
        invariant
            i <= s@.len(),
            out@ == drop_ws(s@.take(i as int)),
        decreases s@.len() - i,
    {
        assert(s@.take(i + 1).drop_last() =~= s@.take(i as int));
        if !is_whitespace(s[i]) {
            out.push(s[i]);
        }
        i = i + 1;
    }
    assert(s@.take(s@.len() as int) =~= s@);
    out
}

fn read_hex_pairs(s: &[char]) -> (r: Option<Vec<u8>>)
    ensures
        match hex_pairs(s@) {
            Some(b) => r matches Some(v) && v@ == b,
            None => r is None,
        },
{
    let mut out: Vec<u8> = Vec::new();
    let mut i: usize = 0;
    assert(s@.skip(0) =~= s@);
    while i < s.len()
        invariant
            i <= s@.len(),
            hex_pairs(s@) == match hex_pairs(s@.skip(i as int)) {
                Some(rest) => Some(out@ + rest),
                None => None,
            },
        decreases s@.len() - i,
    {
        let ghost rest = s@.skip(i as int);
        let k: usize = if s.len() - i >= 2 {
            2
        } else {
            1
        };
        let chunk = slice_chars(s, i, i + k);
        assert(chunk@ =~= rest.take(k as int));
        assert(rest.skip(k as int) =~= s@.skip(i + k));
        match parse_unsigned_chars(chunk.as_slice(), 16, 255) {
            None => {
                return None;
            },
            Some(b) => {
                let ghost before = out@;
                out.push(b as u8);
                proof {
                    match hex_pairs(s@.skip(i + k)) {
                        Some(r2) => {
                            assert(out@ + r2 =~= before + (seq![b as u8] + r2));
                        },
                        None => {},
                    }
                }
            },
        }
        i = i + k;
    }
    assert(s@.skip(i as int) =~= Seq::<char>::empty());
    assert(out@ + Seq::<u8>::empty() =~= out@);
    Some(out)
}

/// Reads the first `n` parts as `f32` texts with `pf`.
fn float_parts<F: Fn(&str) -> Option<u32>>(
    parts: &Vec<Vec<char>>,
    n: usize,
    pf: &F,
    Ghost(ft): Ghost<spec_fn(Seq<char>) -> Option<u32>>,
) -> (r: Result<Vec<u32>, bool>)
    requires
        gives_f32(*pf, ft),
    ensures
        match parts_upto(ft, parts@.map_values(|p: Vec<char>| p@), n as nat) {
            Ok(v) => r matches Ok(w) && w@ == v,
            Err(e) => r == Err::<Vec<u32>, bool>(e),
        },
        r matches Ok(w) ==> w@.len() == n,
{
    let ghost ps = parts@.map_values(|p: Vec<char>| p@);
    let mut out: Vec<u32> = Vec::new();
    let mut i: usize = 0;
    while i < n
        invariant
            i <= n,
            ps == parts@.map_values(|p: Vec<char>| p@),
            gives_f32(*pf, ft),
            parts_upto(ft, ps, i as nat) == Ok::<Seq<u32>, bool>(out@),
            out@.len() == i,
        decreases n - i,
    {
        if i >= parts.len() {
            proof {
                lemma_parts_err(ft, ps, (i + 1) as nat, n as nat);
            }
            return Err(true);
        }
        let text = string_of(parts[i].as_slice());
        let v = pf(text.as_str());
        match v {
            None => {
                proof {
                    lemma_parts_err(ft, ps, (i + 1) as nat, n as nat);
                }
                return Err(false);
            },
            Some(b) => {
                out.push(b);
            },
        }
        i = i + 1;
    }
    Ok(out)
}

/// Reads the first `n` parts as decimal bytes.
fn byte_parts(parts: &Vec<Vec<char>>, n: usize) -> (r: Result<Vec<u8>, bool>)
    ensures
        match parts_upto(|s: Seq<char>| decimal_byte(s), parts@.map_values(|p: Vec<char>| p@), n as nat) {
            Ok(v) => r matches Ok(w) && w@ == v.map_values(|x: int| x as u8),
            Err(e) => r == Err::<Vec<u8>, bool>(e),
        },
        r matches Ok(w) ==> w@.len() == n,
{
    let ghost ps = parts@.map_values(|p: Vec<char>| p@);
    let ghost p = |s: Seq<char>| decimal_byte(s);
    let ghost mut vals: Seq<int> = seq![];
    let mut out: Vec<u8> = Vec::new();
    let mut i: usize = 0;
    while i < n
        invariant
            i <= n,
            ps == parts@.map_values(|p: Vec<char>| p@),
            p == (|s: Seq<char>| decimal_byte(s)),
            parts_upto(p, ps, i as nat) == Ok::<Seq<int>, bool>(vals),
            out@ == vals.map_values(|x: int| x as u8),
            out@.len() == i,
        decreases n - i,
    {
        if i >= parts.len() {
            proof {
                lemma_parts_err(p, ps, (i + 1) as nat, n as nat);
            }
            return Err(true);
        }
        match parse_unsigned_chars(parts[i].as_slice(), 10, 255) {
            None => {
                proof {
                    lemma_parts_err(p, ps, (i + 1) as nat, n as nat);
                }
                return Err(false);
            },
            Some(b) => {
                proof {
                    vals = vals.push(b as int);
                }
                out.push(b as u8);
                assert(out@ =~= vals.map_values(|x: int| x as u8));
            },
        }
        i = i + 1;
    }
    Ok(out)
}

/// An error among the first `k` parts is the error of the first `m`.
proof fn lemma_parts_err<T>(p: spec_fn(Seq<char>) -> Option<T>, parts: Seq<Seq<char>>, k: nat, m: nat)
    requires
        k <= m,
        parts_upto(p, parts, k) is Err,
    ensures
        parts_upto(p, parts, m) == parts_upto(p, parts, k),
    decreases m - k,
{
    if k < m {
        lemma_parts_err(p, parts, k, (m - 1) as nat);
    }
}

// ---------------------------------------------------------------------------
// Single values
// ---------------------------------------------------------------------------

/// The column that a value error names: the column after the value less its
/// length less one, but not below zero.
pub open spec fn kv_adj(col: int, n: int) -> int {
    if n <= 1 {
        col
    } else if col >= n - 1 {
        col - (n - 1)
    } else {
        0
    }
}

pub fn adj(col: usize, n: usize) -> (r: usize)
    ensures
        r == kv_adj(col as int, n as int),
{
    if n <= 1 {
        col
    } else if col >= n - 1 {
        col - (n - 1)
    } else {
        0
    }
}

/// The error for a multi-part value: a missing part, or a part that does
/// not read (`bad`).
pub open spec fn part_error(missing: bool, bad: KeyValues2SerializationError, l: usize, a: usize) -> KeyValues2SerializationError {
    if missing {
        KeyValues2SerializationError::InvalidAttributeValue(l, a)
    } else {
        bad
    }
}

/// Whether `ty` names a type of single values.
pub open spec fn is_value_type(ty: Seq<char>) -> bool {
    ||| ty == "int"@
    ||| ty == "float"@
    ||| ty == "bool"@
    ||| ty == "string"@
    ||| ty == "binary"@
    ||| ty == "elementid"@
    ||| ty == "time"@
    ||| ty == "color"@
    ||| ty == "vector2"@
    ||| ty == "vector3"@
    ||| ty == "vector4"@
    ||| ty == "qangle"@
    ||| ty == "quaternion"@
    ||| ty == "matrix"@
    ||| ty == "uint64"@
    ||| ty == "uint8"@
}

/// The value of type `ty` that the text `v` holds, read at `line`, `col`.
pub open spec fn kv_scalar(
    ft: spec_fn(Seq<char>) -> Option<u32>,
    tt: spec_fn(Seq<char>) -> ParsedTime,
    line: int,
    col: int,
    ty: Seq<char>,
    v: Seq<char>,
) -> Result<SpecAttributeValue, KeyValues2SerializationError> {
    let l = line as usize;
    let a = kv_adj(col, v.len() as int) as usize;
    let parts = split_ws(v);
    let float_error = KeyValues2SerializationError::ParseFloatError(l, a);
    if ty == "int"@ {
        match spec_parse_i32(v) {
            Ok(i) => Ok(SpecAttributeValue::Integer(i)),
            Err(_) => Err(KeyValues2SerializationError::ParseIntegerError(l, a)),
        }
    } else if ty == "float"@ {
        match ft(v) {
            Some(b) => Ok(SpecAttributeValue::Float(b)),
            None => Err(float_error),
        }
    } else if ty == "bool"@ {
        match decimal_byte(v) {
            Some(b) => Ok(SpecAttributeValue::Boolean(b != 0)),
            None => Err(KeyValues2SerializationError::ParseBooleanError(l, a)),
        }
    } else if ty == "string"@ {
        Ok(SpecAttributeValue::String(v))
    } else if ty == "binary"@ {
        match hex_pairs(drop_ws(v)) {
            Some(b) => Ok(SpecAttributeValue::Binary(b)),
            None => Err(KeyValues2SerializationError::ParseIntegerError(l, a)),
        }
    } else if ty == "elementid"@ {
        match parsed_uuid(v) {
            Some(u) => Ok(SpecAttributeValue::ObjectId(u@)),
            None => Err(KeyValues2SerializationError::ParseUUIDError(l, a)),
        }
    } else if ty == "time"@ {
        match tt(v) {
            ParsedTime::Invalid => Err(float_error),
            ParsedTime::OutOfRange => Err(KeyValues2SerializationError::TimeAttributeOutOFRange(l, col as usize)),
            ParsedTime::Value(t) => Ok(SpecAttributeValue::Time(Time(t))),
        }
    } else if ty == "color"@ {
        match parts_upto(|s: Seq<char>| decimal_byte(s), parts, 4) {
            Ok(p) => Ok(SpecAttributeValue::Color(Color { red: p[0] as u8, green: p[1] as u8, blue: p[2] as u8, alpha: p[3] as u8 })),
            Err(m) => Err(part_error(m, KeyValues2SerializationError::ParseIntegerError(l, a), l, a)),
        }
    } else if ty == "vector2"@ {
        match parts_upto(ft, parts, 2) {
            Ok(p) => Ok(SpecAttributeValue::Vector2(Vector2 { x: p[0], y: p[1] })),
            Err(m) => Err(part_error(m, float_error, l, a)),
        }
    } else if ty == "vector3"@ {
        match parts_upto(ft, parts, 3) {
            Ok(p) => Ok(SpecAttributeValue::Vector3(Vector3 { x: p[0], y: p[1], z: p[2] })),
            Err(m) => Err(part_error(m, float_error, l, a)),
        }
    } else if ty == "vector4"@ {
        match parts_upto(ft, parts, 4) {
            Ok(p) => Ok(SpecAttributeValue::Vector4(Vector4 { x: p[0], y: p[1], z: p[2], w: p[3] })),
            Err(m) => Err(part_error(m, float_error, l, a)),
        }
    } else if ty == "qangle"@ {
        match parts_upto(ft, parts, 3) {
            Ok(p) => Ok(SpecAttributeValue::Angle(Angle { pitch: p[0], yaw: p[1], roll: p[2] })),
            Err(m) => Err(part_error(m, float_error, l, a)),
        }
    } else if ty == "quaternion"@ {
        match parts_upto(ft, parts, 4) {
            Ok(p) => Ok(SpecAttributeValue::Quaternion(Quaternion { x: p[0], y: p[1], z: p[2], w: p[3] })),
            Err(m) => Err(part_error(m, float_error, l, a)),
        }
    } else if ty == "matrix"@ {
        match parts_upto(ft, parts, 16) {
            Ok(p) => Ok(SpecAttributeValue::Matrix(p)),
            Err(m) => Err(part_error(m, float_error, l, a)),
        }
    } else if ty == "uint64"@ {
        let digits = if v.len() >= 2 && v[0] == '0' && v[1] == 'x' {
            v.skip(2)
        } else {
            v
        };
        match parse_unsigned(digits, 16, u64::MAX as int) {
            Some(n) => Ok(SpecAttributeValue::ULong(n as u64)),
            None => Err(KeyValues2SerializationError::ParseIntegerError(l, a)),
        }
    } else {
        match decimal_byte(v) {
            Some(n) => Ok(SpecAttributeValue::UByte(n as u8)),
            None => Err(KeyValues2SerializationError::ParseIntegerError(l, a)),
        }
    }
}

/// A result of reading a value, viewed.
pub open spec fn value_result(r: Result<AttributeValue, KeyValues2SerializationError>) -> Result<SpecAttributeValue, KeyValues2SerializationError> {
    match r {
        Ok(v) => Ok(v@),
        Err(e) => Err(e),
    }
}

/// Whether `ty` names a type of single values.
pub fn value_type(ty: &str) -> (r: bool)
    ensures
        r == is_value_type(ty@),
{
    same_text(ty, "int") || same_text(ty, "float") || same_text(ty, "bool") || same_text(ty, "string")
        || same_text(ty, "binary") || same_text(ty, "elementid") || same_text(ty, "time") || same_text(ty, "color")
        || same_text(ty, "vector2") || same_text(ty, "vector3") || same_text(ty, "vector4") || same_text(ty, "qangle")
        || same_text(ty, "quaternion") || same_text(ty, "matrix") || same_text(ty, "uint64") || same_text(ty, "uint8")
}

/// Reads the value of type `ty` from the text `v` (`kv_scalar`).
pub fn parse_scalar<F: Fn(&str) -> Option<u32>, T: Fn(&str) -> ParsedTime>(
    ty: &str,
    v: Vec<char>,
    line: usize,
    col: usize,
    pf: &F,
    pt: &T,
    Ghost(x): Ghost<KvIn>,
) -> (r: Result<AttributeValue, KeyValues2SerializationError>)
    requires
        gives_f32(*pf, x.ft),
        gives_time(*pt, x.tt),
    ensures
        value_result(r) == kv_scalar(x.ft, x.tt, line as int, col as int, ty@, v@),
{
    let a = adj(col, v.len());
    let parts = split_whitespace(v.as_slice());
    assert(parts@.map_values(|p: Vec<char>| p@) =~= split_ws(v@));
    if same_text(ty, "int") {
        match parse_i32(v.as_slice()) {
            Ok(i) => Ok(AttributeValue::Integer(i)),
            Err(_) => Err(KeyValues2SerializationError::ParseIntegerError(line, a)),
        }
    } else if same_text(ty, "float") {
        let text = string_of(v.as_slice());
        match pf(text.as_str()) {
            Some(b) => Ok(AttributeValue::Float(b)),
            None => Err(KeyValues2SerializationError::ParseFloatError(line, a)),
        }
    } else if same_text(ty, "bool") {
        match parse_unsigned_chars(v.as_slice(), 10, 255) {
            Some(b) => Ok(AttributeValue::Boolean(b != 0)),
            None => Err(KeyValues2SerializationError::ParseBooleanError(line, a)),
        }
    } else if same_text(ty, "string") {
        Ok(AttributeValue::String(string_of(v.as_slice())))
    } else if same_text(ty, "binary") {
        let packed = remove_ws(v.as_slice());
        match read_hex_pairs(packed.as_slice()) {
            Some(b) => Ok(AttributeValue::Binary(BinaryBlock(b))),
            None => Err(KeyValues2SerializationError::ParseIntegerError(line, a)),
        }
    } else if same_text(ty, "elementid") {
        let text = string_of(v.as_slice());
        match parse_uuid(text.as_str()) {
            Ok(u) => Ok(AttributeValue::ObjectId(u)),
            Err(_) => Err(KeyValues2SerializationError::ParseUUIDError(line, a)),
        }
    } else if same_text(ty, "time") {
        let text = string_of(v.as_slice());
        match pt(text.as_str()) {
            ParsedTime::Invalid => Err(KeyValues2SerializationError::ParseFloatError(line, a)),
            ParsedTime::OutOfRange => Err(KeyValues2SerializationError::TimeAttributeOutOFRange(line, col)),
            ParsedTime::Value(t) => Ok(AttributeValue::Time(Time(t))),
        }
    } else if same_text(ty, "color") {
        match byte_parts(&parts, 4) {
            Ok(p) => Ok(AttributeValue::Color(Color { red: p[0], green: p[1], blue: p[2], alpha: p[3] })),
            Err(true) => Err(KeyValues2SerializationError::InvalidAttributeValue(line, a)),
            Err(false) => Err(KeyValues2SerializationError::ParseIntegerError(line, a)),
        }
    } else if same_text(ty, "vector2") {
        match float_parts(&parts, 2, pf, Ghost(x.ft)) {
            Ok(p) => Ok(AttributeValue::Vector2(Vector2 { x: p[0], y: p[1] })),
            Err(true) => Err(KeyValues2SerializationError::InvalidAttributeValue(line, a)),
            Err(false) => Err(KeyValues2SerializationError::ParseFloatError(line, a)),
        }
    } else if same_text(ty, "vector3") {
        match float_parts(&parts, 3, pf, Ghost(x.ft)) {
            Ok(p) => Ok(AttributeValue::Vector3(Vector3 { x: p[0], y: p[1], z: p[2] })),
            Err(true) => Err(KeyValues2SerializationError::InvalidAttributeValue(line, a)),
            Err(false) => Err(KeyValues2SerializationError::ParseFloatError(line, a)),
        }
    } else if same_text(ty, "vector4") {
        match float_parts(&parts, 4, pf, Ghost(x.ft)) {
            Ok(p) => Ok(AttributeValue::Vector4(Vector4 { x: p[0], y: p[1], z: p[2], w: p[3] })),
            Err(true) => Err(KeyValues2SerializationError::InvalidAttributeValue(line, a)),
            Err(false) => Err(KeyValues2SerializationError::ParseFloatError(line, a)),
        }
    } else if same_text(ty, "qangle") {
        match float_parts(&parts, 3, pf, Ghost(x.ft)) {
            Ok(p) => Ok(AttributeValue::Angle(Angle { pitch: p[0], yaw: p[1], roll: p[2] })),
            Err(true) => Err(KeyValues2SerializationError::InvalidAttributeValue(line, a)),
            Err(false) => Err(KeyValues2SerializationError::ParseFloatError(line, a)),
        }
    } else if same_text(ty, "quaternion") {
        match float_parts(&parts, 4, pf, Ghost(x.ft)) {
            Ok(p) => Ok(AttributeValue::Quaternion(Quaternion { x: p[0], y: p[1], z: p[2], w: p[3] })),
            Err(true) => Err(KeyValues2SerializationError::InvalidAttributeValue(line, a)),
            Err(false) => Err(KeyValues2SerializationError::ParseFloatError(line, a)),
        }
    } else if same_text(ty, "matrix") {
        match float_parts(&parts, 16, pf, Ghost(x.ft)) {
            Ok(p) => {
                let m = Matrix([
                    [p[0], p[1], p[2], p[3]],
                    [p[4], p[5], p[6], p[7]],
                    [p[8], p[9], p[10], p[11]],
                    [p[12], p[13], p[14], p[15]],
                ]);
                assert(crate::attribute::matrix_entries(m) =~= p@);
                Ok(AttributeValue::Matrix(m))
            },
            Err(true) => Err(KeyValues2SerializationError::InvalidAttributeValue(line, a)),
            Err(false) => Err(KeyValues2SerializationError::ParseFloatError(line, a)),
        }
    } else if same_text(ty, "uint64") {
        let n = v.len();
        let digits = if n >= 2 && v[0] == '0' && v[1] == 'x' {
            slice_chars(v.as_slice(), 2, n)
        } else {
            slice_chars(v.as_slice(), 0, n)
        };
        proof {
            if v@.len() >= 2 && v@[0] == '0' && v@[1] == 'x' {
                assert(digits@ =~= v@.skip(2));
            } else {
                assert(digits@ =~= v@);
            }
        }
        match parse_unsigned_chars(digits.as_slice(), 16, 0xFFFF_FFFF_FFFF_FFFF) {
            Some(u) => Ok(AttributeValue::ULong(u)),
            None => Err(KeyValues2SerializationError::ParseIntegerError(line, a)),
        }
    } else {
        match parse_unsigned_chars(v.as_slice(), 10, 255) {
            Some(b) => Ok(AttributeValue::UByte(b as u8)),
            None => Err(KeyValues2SerializationError::ParseIntegerError(line, a)),
        }
    }
}

// ---------------------------------------------------------------------------
// Reading single values and arrays
// ---------------------------------------------------------------------------

/// The error for a bracket token where none may stand, at `c`.
pub open spec fn unexpected(t: KvToken, c: KvCursor) -> KeyValues2SerializationError {
    let l = c.line as usize;
    let k = c.col as usize;
    match t {
        KvToken::OpenBrace => KeyValues2SerializationError::UnexpectedOpenBrace(l, k),
        KvToken::CloseBrace => KeyValues2SerializationError::UnexpectedCloseBrace(l, k),
        KvToken::OpenBracket => KeyValues2SerializationError::UnexpectedOpenBracket(l, k),
        _ => KeyValues2SerializationError::UnexpectedCloseBracket(l, k),
    }
}

/// Reads a value of the single type `ty` after `c`: `None` where `ty` names
/// no such type (nothing is read) and where a closing bracket stands.
pub open spec fn kv_value(x: KvIn, c: KvCursor, ty: Seq<char>) -> Result<(Option<SpecAttributeValue>, KvCursor), KeyValues2SerializationError> {
    if !is_value_type(ty) {
        Ok((None, c))
    } else {
        match kv_next_token(x.lines, c) {
            Err(e) => Err(e),
            Ok((None, _)) => Err(KeyValues2SerializationError::UnexpectedEndOfFile),
            Ok((Some(t), c2)) => match t {
                KvToken::Text(v) => match kv_scalar(x.ft, x.tt, c2.line, c2.col, ty, v) {
                    Ok(a) => Ok((Some(a), c2)),
                    Err(e) => Err(e),
                },
                KvToken::CloseBracket => Ok((None, c2)),
                _ => Err(unexpected(t, c2)),
            },
        }
    }
}

/// Reading a value keeps the cursor usable; a value read moves it on.
pub proof fn lemma_value_advances(x: KvIn, c: KvCursor, ty: Seq<char>)
    requires
        lines_ok(x.lines),
        cursor_ok(x.lines, c),
    ensures
        kv_value(x, c, ty) matches Ok((v, c2)) ==> cursor_ok(x.lines, c2) && kv_measure(x.lines, c2) <= kv_measure(x.lines, c)
            && (v is Some ==> kv_measure(x.lines, c2) < kv_measure(x.lines, c)),
{
    lemma_token_advances(x.lines, c);
}

/// The single type of the array type `ty`, and an empty array of it.
pub open spec fn array_start(ty: Seq<char>) -> Option<(Seq<char>, SpecAttributeValue)> {
    if ty == "int_array"@ {
        Some(("int"@, SpecAttributeValue::IntegerArray(seq![])))
    } else if ty == "float_array"@ {
        Some(("float"@, SpecAttributeValue::FloatArray(seq![])))
    } else if ty == "bool_array"@ {
        Some(("bool"@, SpecAttributeValue::BooleanArray(seq![])))
    } else if ty == "string_array"@ {
        Some(("string"@, SpecAttributeValue::StringArray(seq![])))
    } else if ty == "binary_array"@ {
        Some(("binary"@, SpecAttributeValue::BinaryArray(seq![])))
    } else if ty == "elementid_array"@ {
        Some(("elementid"@, SpecAttributeValue::ObjectIdArray(seq![])))
    } else if ty == "time_array"@ {
        Some(("time"@, SpecAttributeValue::TimeArray(seq![])))
    } else if ty == "color_array"@ {
        Some(("color"@, SpecAttributeValue::ColorArray(seq![])))
    } else if ty == "vector2_array"@ {
        Some(("vector2"@, SpecAttributeValue::Vector2Array(seq![])))
    } else if ty == "vector3_array"@ {
        Some(("vector3"@, SpecAttributeValue::Vector3Array(seq![])))
    } else if ty == "vector4_array"@ {
        Some(("vector4"@, SpecAttributeValue::Vector4Array(seq![])))
    } else if ty == "qangle_array"@ {
        Some(("qangle"@, SpecAttributeValue::AngleArray(seq![])))
    } else if ty == "quaternion_array"@ {
        Some(("quaternion"@, SpecAttributeValue::QuaternionArray(seq![])))
    } else if ty == "matrix_array"@ {
        Some(("matrix"@, SpecAttributeValue::MatrixArray(seq![])))
    } else if ty == "uint64_array"@ {
        Some(("uint64"@, SpecAttributeValue::ULongArray(seq![])))
    } else if ty == "uint8_array"@ {
        Some(("uint8"@, SpecAttributeValue::UByteArray(seq![])))
    } else {
        None
    }
}

/// `arr` with the value `v` of its item type added at the end.
pub open spec fn push_item(arr: SpecAttributeValue, v: SpecAttributeValue) -> SpecAttributeValue {
    match (arr, v) {
        (SpecAttributeValue::IntegerArray(a), SpecAttributeValue::Integer(v)) => SpecAttributeValue::IntegerArray(a.push(v)),
        (SpecAttributeValue::FloatArray(a), SpecAttributeValue::Float(v)) => SpecAttributeValue::FloatArray(a.push(v)),
        (SpecAttributeValue::BooleanArray(a), SpecAttributeValue::Boolean(v)) => SpecAttributeValue::BooleanArray(a.push(v)),
        (SpecAttributeValue::StringArray(a), SpecAttributeValue::String(v)) => SpecAttributeValue::StringArray(a.push(v)),
        (SpecAttributeValue::BinaryArray(a), SpecAttributeValue::Binary(v)) => SpecAttributeValue::BinaryArray(a.push(v)),
        (SpecAttributeValue::ObjectIdArray(a), SpecAttributeValue::ObjectId(v)) => SpecAttributeValue::ObjectIdArray(a.push(v)),
        (SpecAttributeValue::TimeArray(a), SpecAttributeValue::Time(v)) => SpecAttributeValue::TimeArray(a.push(v)),
        (SpecAttributeValue::ColorArray(a), SpecAttributeValue::Color(v)) => SpecAttributeValue::ColorArray(a.push(v)),
        (SpecAttributeValue::Vector2Array(a), SpecAttributeValue::Vector2(v)) => SpecAttributeValue::Vector2Array(a.push(v)),
        (SpecAttributeValue::Vector3Array(a), SpecAttributeValue::Vector3(v)) => SpecAttributeValue::Vector3Array(a.push(v)),
        (SpecAttributeValue::Vector4Array(a), SpecAttributeValue::Vector4(v)) => SpecAttributeValue::Vector4Array(a.push(v)),
        (SpecAttributeValue::AngleArray(a), SpecAttributeValue::Angle(v)) => SpecAttributeValue::AngleArray(a.push(v)),
        (SpecAttributeValue::QuaternionArray(a), SpecAttributeValue::Quaternion(v)) => SpecAttributeValue::QuaternionArray(a.push(v)),
        (SpecAttributeValue::MatrixArray(a), SpecAttributeValue::Matrix(v)) => SpecAttributeValue::MatrixArray(a.push(v)),
        (SpecAttributeValue::ULongArray(a), SpecAttributeValue::ULong(v)) => SpecAttributeValue::ULongArray(a.push(v)),
        (SpecAttributeValue::UByteArray(a), SpecAttributeValue::UByte(v)) => SpecAttributeValue::UByteArray(a.push(v)),
        _ => arr,
    }
}

/// Reads values of the single type `ty` up to a closing bracket, onto `arr`
/// (from a cursor that the reader can go on from).
pub open spec fn kv_items(x: KvIn, c: KvCursor, ty: Seq<char>, arr: SpecAttributeValue) -> Result<(SpecAttributeValue, KvCursor), KeyValues2SerializationError>
    decreases kv_measure(x.lines, c),
{
    if !(lines_ok(x.lines) && cursor_ok(x.lines, c)) {
        Ok((arr, c))
    } else {
        match kv_value(x, c, ty) {
            Err(e) => Err(e),
            Ok((None, c2)) => Ok((arr, c2)),
            Ok((Some(v), c2)) => {
                proof {
                    lemma_value_advances(x, c, ty);
                }
                kv_items(x, c2, ty, push_item(arr, v))
            },
        }
    }
}

/// Reads an array of the type `ty` after `c`: an opening bracket, then its
/// items; `None` where `ty` names no array type (nothing is read).
pub open spec fn kv_array(x: KvIn, c: KvCursor, ty: Seq<char>) -> Result<(Option<SpecAttributeValue>, KvCursor), KeyValues2SerializationError> {
    match array_start(ty) {
        None => Ok((None, c)),
        Some((single, empty)) => match kv_next_token(x.lines, c) {
            Err(e) => Err(e),
            Ok((Some(KvToken::OpenBracket), c2)) => match kv_items(x, c2, single, empty) {
                Ok((a, c3)) => Ok((Some(a), c3)),
                Err(e) => Err(e),
            },
            Ok((_, c2)) => Err(KeyValues2SerializationError::ExpectedOpenBracket(c2.line as usize, c2.col as usize)),
        },
    }
}

/// Items read keep the cursor usable and do not move it back.
pub proof fn lemma_items_advances(x: KvIn, c: KvCursor, ty: Seq<char>, arr: SpecAttributeValue)
    requires
        lines_ok(x.lines),
        cursor_ok(x.lines, c),
    ensures
        kv_items(x, c, ty, arr) matches Ok((_, c2)) ==> cursor_ok(x.lines, c2) && kv_measure(x.lines, c2) <= kv_measure(x.lines, c),
    decreases kv_measure(x.lines, c),
{
    lemma_value_advances(x, c, ty);
    if let Ok((Some(v), c2)) = kv_value(x, c, ty) {
        lemma_items_advances(x, c2, ty, push_item(arr, v));
    }
}

/// An array read keeps the cursor usable and moves it on.
pub proof fn lemma_array_advances(x: KvIn, c: KvCursor, ty: Seq<char>)
    requires
        lines_ok(x.lines),
        cursor_ok(x.lines, c),
    ensures
        kv_array(x, c, ty) matches Ok((v, c2)) ==> cursor_ok(x.lines, c2) && kv_measure(x.lines, c2) <= kv_measure(x.lines, c)
            && (v is Some ==> kv_measure(x.lines, c2) < kv_measure(x.lines, c)),
{
    lemma_token_advances(x.lines, c);
    if let Some((single, empty)) = array_start(ty) {
        if let Ok((Some(KvToken::OpenBracket), c2)) = kv_next_token(x.lines, c) {
            lemma_items_advances(x, c2, single, empty);
        }
    }
}

/// An optional value, viewed.
pub open spec fn opt_value(v: Option<AttributeValue>) -> Option<SpecAttributeValue> {
    match v {
        Some(a) => Some(a@),
        None => None,
    }
}

/// The single type of an array type, and an empty array of it (`array_start`).
fn array_start_of(ty: &str) -> (r: Option<(&'static str, AttributeValue)>)
    ensures
        match array_start(ty@) {
            Some((n, v)) => r matches Some((m, w)) && m@ == n && w@ == v,
            None => r is None,
        },
{
    assert(strings_view(Seq::<String>::empty()) =~= Seq::<Seq<char>>::empty());
    assert(blocks_view(Seq::<BinaryBlock>::empty()) =~= Seq::<Seq<u8>>::empty());
    assert(uuids_view(Seq::<[u8; 16]>::empty()) =~= Seq::<Seq<u8>>::empty());
    assert(matrices_view(Seq::<Matrix>::empty()) =~= Seq::<Seq<u32>>::empty());
    if same_text(ty, "int_array") {
        Some(("int", AttributeValue::IntegerArray(Vec::new())))
    } else if same_text(ty, "float_array") {
        Some(("float", AttributeValue::FloatArray(Vec::new())))
    } else if same_text(ty, "bool_array") {
        Some(("bool", AttributeValue::BooleanArray(Vec::new())))
    } else if same_text(ty, "string_array") {
        Some(("string", AttributeValue::StringArray(Vec::new())))
    } else if same_text(ty, "binary_array") {
        Some(("binary", AttributeValue::BinaryArray(Vec::new())))
    } else if same_text(ty, "elementid_array") {
        Some(("elementid", AttributeValue::ObjectIdArray(Vec::new())))
    } else if same_text(ty, "time_array") {
        Some(("time", AttributeValue::TimeArray(Vec::new())))
    } else if same_text(ty, "color_array") {
        Some(("color", AttributeValue::ColorArray(Vec::new())))
    } else if same_text(ty, "vector2_array") {
        Some(("vector2", AttributeValue::Vector2Array(Vec::new())))
    } else if same_text(ty, "vector3_array") {
        Some(("vector3", AttributeValue::Vector3Array(Vec::new())))
    } else if same_text(ty, "vector4_array") {
        Some(("vector4", AttributeValue::Vector4Array(Vec::new())))
    } else if same_text(ty, "qangle_array") {
        Some(("qangle", AttributeValue::AngleArray(Vec::new())))
    } else if same_text(ty, "quaternion_array") {
        Some(("quaternion", AttributeValue::QuaternionArray(Vec::new())))
    } else if same_text(ty, "matrix_array") {
        Some(("matrix", AttributeValue::MatrixArray(Vec::new())))
    } else if same_text(ty, "uint64_array") {
        Some(("uint64", AttributeValue::ULongArray(Vec::new())))
    } else if same_text(ty, "uint8_array") {
        Some(("uint8", AttributeValue::UByteArray(Vec::new())))
    } else {
        None
    }
}

/// Adds a value to an array of its type (`push_item`).
fn push_value(arr: AttributeValue, v: AttributeValue) -> (r: AttributeValue)
    ensures
        r@ == push_item(arr@, v@),
{
    match (arr, v) {
        (AttributeValue::IntegerArray(mut a), AttributeValue::Integer(v)) => {
            a.push(v);
            AttributeValue::IntegerArray(a)
        },
        (AttributeValue::FloatArray(mut a), AttributeValue::Float(v)) => {
            a.push(v);
            AttributeValue::FloatArray(a)
        },
        (AttributeValue::BooleanArray(mut a), AttributeValue::Boolean(v)) => {
            a.push(v);
            AttributeValue::BooleanArray(a)
        },
        (AttributeValue::StringArray(mut a), AttributeValue::String(v)) => {
            let ghost before = a@;
            let ghost item = v@;
            a.push(v);
            assert(strings_view(a@) =~= strings_view(before).push(item));
            AttributeValue::StringArray(a)
        },
        (AttributeValue::BinaryArray(mut a), AttributeValue::Binary(v)) => {
            let ghost before = a@;
            let ghost item = v.0@;
            a.push(v);
            assert(blocks_view(a@) =~= blocks_view(before).push(item));
            AttributeValue::BinaryArray(a)
        },
        (AttributeValue::ObjectIdArray(mut a), AttributeValue::ObjectId(v)) => {
            let ghost before = a@;
            let ghost item = v@;
            a.push(v);
            assert(uuids_view(a@) =~= uuids_view(before).push(item));
            AttributeValue::ObjectIdArray(a)
        },
        (AttributeValue::TimeArray(mut a), AttributeValue::Time(v)) => {
            a.push(v);
            AttributeValue::TimeArray(a)
        },
        (AttributeValue::ColorArray(mut a), AttributeValue::Color(v)) => {
            a.push(v);
            AttributeValue::ColorArray(a)
        },
        (AttributeValue::Vector2Array(mut a), AttributeValue::Vector2(v)) => {
            a.push(v);
            AttributeValue::Vector2Array(a)
        },
        (AttributeValue::Vector3Array(mut a), AttributeValue::Vector3(v)) => {
            a.push(v);
            AttributeValue::Vector3Array(a)
        },
        (AttributeValue::Vector4Array(mut a), AttributeValue::Vector4(v)) => {
            a.push(v);
            AttributeValue::Vector4Array(a)
        },
        (AttributeValue::AngleArray(mut a), AttributeValue::Angle(v)) => {
            a.push(v);
            AttributeValue::AngleArray(a)
        },
        (AttributeValue::QuaternionArray(mut a), AttributeValue::Quaternion(v)) => {
            a.push(v);
            AttributeValue::QuaternionArray(a)
        },
        (AttributeValue::MatrixArray(mut a), AttributeValue::Matrix(v)) => {
            let ghost before = a@;
            let ghost item = matrix_entries(v);
            a.push(v);
            assert(matrices_view(a@) =~= matrices_view(before).push(item));
            AttributeValue::MatrixArray(a)
        },
        (AttributeValue::ULongArray(mut a), AttributeValue::ULong(v)) => {
            a.push(v);
            AttributeValue::ULongArray(a)
        },
        (AttributeValue::UByteArray(mut a), AttributeValue::UByte(v)) => {
            a.push(v);
            AttributeValue::UByteArray(a)
        },
        (arr, _) => arr,
    }
}

impl StringReader {
    /// Reads a value of the single type `ty` (`kv_value`).
    pub fn read_value<F: Fn(&str) -> Option<u32>, T: Fn(&str) -> ParsedTime>(
        &mut self,
        lines: &Vec<Option<Vec<char>>>,
        ty: &str,
        pf: &F,
        pt: &T,
        Ghost(x): Ghost<KvIn>,
    ) -> (r: Result<Option<AttributeValue>, KeyValues2SerializationError>)
        requires
            x.lines == lines_view(lines@),
            lines_ok(x.lines),
            cursor_ok(x.lines, old(self)@),
            gives_f32(*pf, x.ft),
            gives_time(*pt, x.tt),
        ensures
            match kv_value(x, old(self)@, ty@) {
                Ok((v, c)) => r matches Ok(w) && opt_value(w) == v && final(self)@ == c,
                Err(e) => r == Err::<Option<AttributeValue>, KeyValues2SerializationError>(e),
            },
    {
        if !value_type(ty) {
            return Ok(None);
        }
        match self.next_token(lines) {
            Err(e) => Err(e),
            Ok(None) => Err(KeyValues2SerializationError::UnexpectedEndOfFile),
            Ok(Some(ReadToken::Text(v))) => {
                let l = self.line;
                let k = self.col;
                match parse_scalar(ty, v, l, k, pf, pt, Ghost(x)) {
                    Ok(a) => Ok(Some(a)),
                    Err(e) => Err(e),
                }
            },
            Ok(Some(ReadToken::CloseBracket)) => Ok(None),
            Ok(Some(ReadToken::OpenBrace)) => Err(KeyValues2SerializationError::UnexpectedOpenBrace(self.line, self.col)),
            Ok(Some(ReadToken::CloseBrace)) => Err(KeyValues2SerializationError::UnexpectedCloseBrace(self.line, self.col)),
            Ok(Some(ReadToken::OpenBracket)) => Err(KeyValues2SerializationError::UnexpectedOpenBracket(self.line, self.col)),
        }
    }

    /// Reads an array of the type `ty` (`kv_array`).
    pub fn read_array<F: Fn(&str) -> Option<u32>, T: Fn(&str) -> ParsedTime>(
        &mut self,
        lines: &Vec<Option<Vec<char>>>,
        ty: &str,
        pf: &F,
        pt: &T,
        Ghost(x): Ghost<KvIn>,
    ) -> (r: Result<Option<AttributeValue>, KeyValues2SerializationError>)
        requires
            x.lines == lines_view(lines@),
            lines_ok(x.lines),
            cursor_ok(x.lines, old(self)@),
            gives_f32(*pf, x.ft),
            gives_time(*pt, x.tt),
        ensures
            match kv_array(x, old(self)@, ty@) {
                Ok((v, c)) => r matches Ok(w) && opt_value(w) == v && final(self)@ == c,
                Err(e) => r == Err::<Option<AttributeValue>, KeyValues2SerializationError>(e),
            },
    {
        let start = array_start_of(ty);
        let (single, mut arr) = match start {
            None => {
                return Ok(None);
            },
            Some(p) => p,
        };
        let ghost c0 = self@;
        proof {
            lemma_token_advances(x.lines, c0);
        }
        match self.next_token(lines) {
            Err(e) => {
                return Err(e);
            },
            Ok(Some(ReadToken::OpenBracket)) => {},
            Ok(_) => {
                return Err(KeyValues2SerializationError::ExpectedOpenBracket(self.line, self.col));
            },
        }
        loop
            invariant
                c0 == old(self)@,
                x.lines == lines_view(lines@),
                lines_ok(x.lines),
                cursor_ok(x.lines, self@),
                gives_f32(*pf, x.ft),
                gives_time(*pt, x.tt),
                kv_array(x, c0, ty@) == match kv_items(x, self@, single@, arr@) {
                    Ok((a, c3)) => Ok((Some(a), c3)),
                    Err(e) => Err(e),
                },
            decreases kv_measure(x.lines, self@),
        {
            let ghost c = self@;
            proof {
                lemma_value_advances(x, c, single@);
            }
            match self.read_value(lines, single, pf, pt, Ghost(x)) {
                Err(e) => {
                    return Err(e);
                },
                Ok(None) => {
                    return Ok(Some(arr));
                },
                Ok(Some(v)) => {
                    arr = push_value(arr, v);
                },
            }
        }
    }
}

} // verus!
