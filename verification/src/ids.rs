//! Element ids: UUIDs held as their sixteen bytes, most significant first.

use vstd::prelude::*;
use crate::attribute::UuidBytes;

verus! {

#[verifier::external_type_specification]
#[verifier::external_body]
pub struct ExUuidError(uuid::Error);

/// `Uuid::new_v4`: a random version 4 UUID. Trusted for nothing but its type:
/// the bytes depend on the random number generator.
#[verifier::external_body]
pub(crate) fn new_v4() -> (r: UuidBytes) {
    uuid::Uuid::new_v4().into_bytes()
}

/// The UUID that `Uuid::parse_str` reads from a text, if it reads one.
pub uninterp spec fn parsed_uuid(text: Seq<char>) -> Option<UuidBytes>;

/// `Uuid::parse_str`, the parser behind `Uuid::from_str`.
/// Trusted: it succeeds exactly when `parsed_uuid` names a UUID for the text,
/// and then gives that UUID; the hyphenated lowercase text of a UUID (what
/// [push_uuid_text] writes) parses back to it.
#[verifier::external_body]
pub(crate) fn parse_uuid(s: &str) -> (r: Result<UuidBytes, uuid::Error>)
    ensures
        match r {
            Ok(b) => parsed_uuid(s@) == Some(b),
            Err(_) => parsed_uuid(s@) is None,
        },
        match r {
            Ok(v) => forall|b: UuidBytes| s@ == hyphenated_text(b) ==> v == b,
            Err(_) => forall|b: UuidBytes| s@ != hyphenated_text(b),
        },
{
    uuid::Uuid::parse_str(s).map(|u| u.into_bytes())
}

/// The byte order of `Uuid::to_bytes_le` and `Uuid::from_bytes_le`: the first
/// three fields of the UUID are reversed, the last eight bytes keep their place.
pub open spec fn le_order(b: Seq<u8>) -> Seq<u8> {
    seq![b[3], b[2], b[1], b[0], b[5], b[4], b[7], b[6]] + b.subrange(8, 16)
}

/// The bytes of `id` in the mixed-endian order that files store (`Uuid::to_bytes_le`).
pub fn to_bytes_le(id: &UuidBytes) -> (r: [u8; 16])
    ensures
        r@ == le_order(id@),
{
    let b = id;
    let r = [
        b[3], b[2], b[1], b[0], b[5], b[4], b[7], b[6], b[8], b[9], b[10], b[11], b[12], b[13],
        b[14], b[15],
    ];
    assert(r@ == le_order(id@));
    r
}

/// The id stored as bytes in the mixed-endian file order (`Uuid::from_bytes_le`).
pub fn from_bytes_le(b: &[u8; 16]) -> (r: UuidBytes)
    ensures
        r@ == le_order(b@),
{
    let r = [
        b[3], b[2], b[1], b[0], b[5], b[4], b[7], b[6], b[8], b[9], b[10], b[11], b[12], b[13],
        b[14], b[15],
    ];
    assert(r@ == le_order(b@));
    r
}

/// `le_order` undoes itself.
pub proof fn lemma_le_order_involution(b: Seq<u8>)
    requires
        b.len() == 16,
    ensures
        le_order(le_order(b)) == b,
{
    assert(le_order(le_order(b)) =~= b);
}

/// The lowercase hexadecimal digit for `d < 16`.
pub open spec fn hex_lower(d: int) -> char {
    if d < 10 {
        ((('0' as int) + d) as u32) as char
    } else {
        ((('a' as int) + d - 10) as u32) as char
    }
}

/// The two lowercase hexadecimal digits of a byte.
pub open spec fn byte_hex_lower(b: u8) -> Seq<char> {
    seq![hex_lower(b as int / 16), hex_lower(b as int % 16)]
}

/// The lowercase hexadecimal digits of bytes `b[from..to]`.
pub open spec fn bytes_hex_lower(b: Seq<u8>, from: int, to: int) -> Seq<char>
    decreases to - from,
{
    if from >= to {
        seq![]
    } else {
        bytes_hex_lower(b, from, to - 1) + byte_hex_lower(b[to - 1])
    }
}

/// The hyphenated lowercase text of a UUID (`Display for Uuid`), such as
/// `67e55044-10b1-426f-9247-bb680e5fe0c8`.
pub open spec fn hyphenated_text(b: UuidBytes) -> Seq<char> {
    uuid_text(b@)
}

/// The hyphenated lowercase text of the sixteen bytes of a UUID.
pub open spec fn uuid_text(b: Seq<u8>) -> Seq<char> {
    bytes_hex_lower(b, 0, 4) + seq!['-'] + bytes_hex_lower(b, 4, 6) + seq!['-']
        + bytes_hex_lower(b, 6, 8) + seq!['-'] + bytes_hex_lower(b, 8, 10) + seq!['-']
        + bytes_hex_lower(b, 10, 16)
}

fn hex_lower_char(d: u8) -> (c: char)
    requires
        d < 16,
    ensures
        c == hex_lower(d as int),
{
    if d < 10 {
        ((('0' as u8) + d) as char)
    } else {
        ((('a' as u8) + d - 10) as char)
    }
}

fn push_bytes_hex_lower(dst: &mut Vec<char>, b: &[u8; 16], from: usize, to: usize)
    requires
        from <= to <= 16,
    ensures
        final(dst)@ == old(dst)@ + bytes_hex_lower(b@, from as int, to as int),
{
    let mut i = from;
    while i < to
        invariant
            from <= i <= to <= 16,
            dst@ == old(dst)@ + bytes_hex_lower(b@, from as int, i as int),
        decreases to - i,
    {
        let hi = hex_lower_char(b[i] / 16);
        let lo = hex_lower_char(b[i] % 16);
        dst.push(hi);
        dst.push(lo);
        i = i + 1;
        assert(bytes_hex_lower(b@, from as int, i as int) == bytes_hex_lower(b@, from as int, i - 1)
            + byte_hex_lower(b@[i - 1]));
    }
}

/// Appends the hyphenated lowercase text of `id` to `dst`.
pub fn push_uuid_text(dst: &mut Vec<char>, id: &UuidBytes)
    ensures
        final(dst)@ == old(dst)@ + hyphenated_text(*id),
{
    push_bytes_hex_lower(dst, id, 0, 4);
    dst.push('-');
    push_bytes_hex_lower(dst, id, 4, 6);
    dst.push('-');
    push_bytes_hex_lower(dst, id, 6, 8);
    dst.push('-');
    push_bytes_hex_lower(dst, id, 8, 10);
    dst.push('-');
    push_bytes_hex_lower(dst, id, 10, 16);
}

} // verus!
