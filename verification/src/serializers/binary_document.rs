//! The layout of a whole binary document, as specifications: what reading a
//! document gives for every sequence of bytes.
//!
//! A document is, in order: the rest of the header line up to a zero byte;
//! from version 7 a prefix element, whose attributes are read and dropped; a
//! string table from version 2; the element table (class, name and id of each
//! element); and then the attributes of each element in table order.

use vstd::prelude::*;
use crate::attribute::SpecAttributeValue;
use crate::element::{default_element_class, with_attribute, ElementView};
use crate::ids::parsed_uuid;
use crate::serializing::binary_name;
use crate::serializers::binary_format::{
    is_element_array_type, item_string, p_attribute, p_i16, p_i32, p_i8, p_many, p_size,
    p_string, p_uuid, p_versioned_string, SRead, SpecBinaryError, ATTRIBUTE_ELEMENT_ID,
    ATTRIBUTE_STRING_ID, ELEMENT_INDEX_EXTERNAL, ELEMENT_INDEX_NULL, VERSION_DEPRECATE_LINK_TYPE,
    VERSION_GLOBAL_STRING_TABLE, VERSION_LARGE_STRING_INDEX, VERSION_LINK_TYPE,
    VERSION_PREFIX_ELEMENT, VERSION_STRING_TABLE,
};

verus! {

/// The name of the attribute that holds an element's name.
pub open spec fn name_key() -> Seq<char> {
    seq!['n', 'a', 'm', 'e']
}

/// The name of the attribute that may not hold an object id.
pub open spec fn id_key() -> Seq<char> {
    seq!['i', 'd']
}

/// An element as the element table gives it: its class and id, and its name
/// as its first attribute.
pub open spec fn table_element(class: Seq<char>, name: Seq<char>, id: Seq<u8>) -> ElementView {
    ElementView { class, id, attributes: seq![(name_key(), SpecAttributeValue::String(name))] }
}

/// An element that the document names only by id.
pub open spec fn external_element(id: Seq<u8>) -> ElementView {
    ElementView { class: default_element_class(), id, attributes: seq![] }
}

/// A document position, or an error.
pub type SPos = Result<int, SpecBinaryError>;

// ---------------------------------------------------------------------------
// The prefix element
// ---------------------------------------------------------------------------

/// One attribute of the prefix element: a name, a type id and a value, none
/// of which is kept. Element values are refused.
#[verifier::opaque]
pub open spec fn p_prefix_entry(d: Seq<u8>, p: int, version: i32) -> SPos {
    let q = p_string(d, p).1;
    match p_i8(d, q) {
        Ok((ty, q2)) => if ty == ATTRIBUTE_ELEMENT_ID || is_element_array_type(version, ty) {
            Err(SpecBinaryError::InvalidPrefixElementAttribute)
        } else if ty == ATTRIBUTE_STRING_ID {
            Ok(p_string(d, q2).1)
        } else {
            match p_attribute(d, q2, version, ty) {
                Ok((_, q3)) => Ok(q3),
                Err(e) => Err(e),
            }
        },
        Err(e) => Err(e),
    }
}

/// `k` attributes of the prefix element.
pub open spec fn p_prefix_entries(d: Seq<u8>, p: int, version: i32, k: nat) -> SPos
    decreases k,
{
    if k == 0 {
        Ok(p)
    } else {
        match p_prefix_entries(d, p, version, (k - 1) as nat) {
            Ok(q) => p_prefix_entry(d, q, version),
            Err(e) => Err(e),
        }
    }
}

/// The prefix element: from version 7 a flag, and when it is not zero an
/// attribute count and the attributes.
pub open spec fn p_prefix(d: Seq<u8>, p: int, version: i32) -> SPos {
    if version >= VERSION_PREFIX_ELEMENT {
        match p_i32(d, p) {
            Ok((flag, q)) => if flag != 0 {
                match p_size(d, q) {
                    Ok((n, q2)) => p_prefix_entries(d, q2, version, n as nat),
                    Err(e) => Err(e),
                }
            } else {
                Ok(q)
            },
            Err(e) => Err(e),
        }
    } else {
        Ok(p)
    }
}

// ---------------------------------------------------------------------------
// The string table and the element table
// ---------------------------------------------------------------------------

/// The size of the string table: an `i32` from version 4, an `i16` from
/// version 2, and no table before that.
pub open spec fn p_table_size(d: Seq<u8>, p: int, version: i32) -> SRead<int> {
    if version >= VERSION_GLOBAL_STRING_TABLE {
        p_size(d, p)
    } else if version >= VERSION_STRING_TABLE {
        match p_i16(d, p) {
            Ok((n, q)) => if n < 0 {
                Err(SpecBinaryError::InvalidArraySize)
            } else {
                Ok((n as int, q))
            },
            Err(e) => Err(e),
        }
    } else {
        Ok((0, p))
    }
}

/// The string table.
pub open spec fn p_table(d: Seq<u8>, p: int, version: i32) -> SRead<Seq<Seq<char>>> {
    match p_table_size(d, p, version) {
        Ok((n, q)) => p_many(d, q, n as nat, item_string()),
        Err(e) => Err(e),
    }
}

/// One entry of the element table: class, (from version 6 to 7 an unused
/// link type), name and id.
#[verifier::opaque]
pub open spec fn p_header(d: Seq<u8>, p: int, version: i32, table: Seq<Seq<char>>) -> SRead<ElementView> {
    match p_versioned_string(d, p, version, VERSION_LARGE_STRING_INDEX, VERSION_STRING_TABLE, table) {
        Ok((class, q)) => {
            let q1: SPos = if VERSION_LINK_TYPE <= version && version < VERSION_DEPRECATE_LINK_TYPE {
                match p_i32(d, q) {
                    Ok((_, r)) => Ok(r),
                    Err(e) => Err(e),
                }
            } else {
                Ok(q)
            };
            match q1 {
                Ok(q1) => match p_versioned_string(
                    d,
                    q1,
                    version,
                    VERSION_LARGE_STRING_INDEX,
                    VERSION_GLOBAL_STRING_TABLE,
                    table,
                ) {
                    Ok((name, q2)) => match p_uuid(d, q2) {
                        Ok((id, q3)) => Ok((table_element(class, name, id), q3)),
                        Err(e) => Err(e),
                    },
                    Err(e) => Err(e),
                },
                Err(e) => Err(e),
            }
        },
        Err(e) => Err(e),
    }
}

/// The element table entries as items of `p_many`.
pub open spec fn item_header(version: i32, table: Seq<Seq<char>>) -> spec_fn(Seq<u8>, int) -> SRead<ElementView> {
    |d: Seq<u8>, p: int| p_header(d, p, version, table)
}

// ---------------------------------------------------------------------------
// Element attributes
// ---------------------------------------------------------------------------

/// Reading while elements may be added: a value, the elements so far and the
/// position after the value.
pub type GRead<T> = Result<(T, Seq<ElementView>, int), SpecBinaryError>;

/// A reference to an element: an index into the element table of size `n`,
/// `-1` for none, or `-2` followed by the text of the id of an element that
/// is added to the graph.
pub open spec fn p_ref(d: Seq<u8>, p: int, n: int, es: Seq<ElementView>) -> GRead<Option<usize>> {
    match p_i32(d, p) {
        Ok((index, q)) => if index < ELEMENT_INDEX_EXTERNAL || index >= n {
            Err(SpecBinaryError::InvalidElementTableIndex { index, size: n })
        } else if index == ELEMENT_INDEX_NULL {
            Ok((None, es, q))
        } else if index == ELEMENT_INDEX_EXTERNAL {
            let (text, q2) = p_string(d, q);
            match parsed_uuid(text) {
                Some(id) => Ok((Some(es.len() as usize), es.push(external_element(id@)), q2)),
                None => Err(SpecBinaryError::UUIDParseError),
            }
        } else {
            Ok((Some(index as usize), es, q))
        },
        Err(e) => Err(e),
    }
}

/// `k` element references one after the other.
pub open spec fn p_refs(d: Seq<u8>, p: int, n: int, es: Seq<ElementView>, k: nat) -> GRead<Seq<Option<usize>>>
    decreases k,
{
    if k == 0 {
        Ok((seq![], es, p))
    } else {
        match p_refs(d, p, n, es, (k - 1) as nat) {
            Ok((rs, es1, q)) => match p_ref(d, q, n, es1) {
                Ok((r, es2, q2)) => Ok((rs.push(r), es2, q2)),
                Err(e) => Err(e),
            },
            Err(e) => Err(e),
        }
    }
}

/// The value of an attribute of type id `ty` in the element bodies.
#[verifier::opaque]
pub open spec fn p_body_value(
    d: Seq<u8>,
    p: int,
    version: i32,
    table: Seq<Seq<char>>,
    n: int,
    es: Seq<ElementView>,
    ty: i8,
) -> GRead<SpecAttributeValue> {
    if ty == ATTRIBUTE_ELEMENT_ID {
        match p_ref(d, p, n, es) {
            Ok((r, es1, q)) => Ok((SpecAttributeValue::Element(r), es1, q)),
            Err(e) => Err(e),
        }
    } else if is_element_array_type(version, ty) {
        match p_size(d, p) {
            Ok((k, q)) => match p_refs(d, q, n, es, k as nat) {
                Ok((rs, es1, q2)) => Ok((SpecAttributeValue::ElementArray(rs), es1, q2)),
                Err(e) => Err(e),
            },
            Err(e) => Err(e),
        }
    } else if ty == ATTRIBUTE_STRING_ID {
        match p_versioned_string(d, p, version, VERSION_LARGE_STRING_INDEX, VERSION_GLOBAL_STRING_TABLE, table) {
            Ok((s, q)) => Ok((SpecAttributeValue::String(s), es, q)),
            Err(e) => Err(e),
        }
    } else {
        match p_attribute(d, p, version, ty) {
            Ok((v, q)) => Ok((v, es, q)),
            Err(e) => Err(e),
        }
    }
}

/// One attribute of element `idx`: its name, type id and value, set on the element.
pub open spec fn p_body_entry(
    d: Seq<u8>,
    p: int,
    version: i32,
    table: Seq<Seq<char>>,
    n: int,
    es: Seq<ElementView>,
    idx: int,
) -> Result<(Seq<ElementView>, int), SpecBinaryError> {
    match p_versioned_string(d, p, version, VERSION_LARGE_STRING_INDEX, VERSION_STRING_TABLE, table) {
        Ok((name, q)) => match p_i8(d, q) {
            Ok((ty, q2)) => match p_body_value(d, q2, version, table, n, es, ty) {
                Ok((v, es1, q3)) => Ok((es1.update(idx, with_attribute(es1[idx], name, v)), q3)),
                Err(e) => Err(e),
            },
            Err(e) => Err(e),
        },
        Err(e) => Err(e),
    }
}

/// `k` attributes of element `idx`.
pub open spec fn p_body_entries(
    d: Seq<u8>,
    p: int,
    version: i32,
    table: Seq<Seq<char>>,
    n: int,
    es: Seq<ElementView>,
    idx: int,
    k: nat,
) -> Result<(Seq<ElementView>, int), SpecBinaryError>
    decreases k,
{
    if k == 0 {
        Ok((es, p))
    } else {
        match p_body_entries(d, p, version, table, n, es, idx, (k - 1) as nat) {
            Ok((es1, q)) => p_body_entry(d, q, version, table, n, es1, idx),
            Err(e) => Err(e),
        }
    }
}

/// The attributes of element `idx`: a count, then the attributes.
pub open spec fn p_body(
    d: Seq<u8>,
    p: int,
    version: i32,
    table: Seq<Seq<char>>,
    n: int,
    es: Seq<ElementView>,
    idx: int,
) -> Result<(Seq<ElementView>, int), SpecBinaryError> {
    match p_size(d, p) {
        Ok((k, q)) => p_body_entries(d, q, version, table, n, es, idx, k as nat),
        Err(e) => Err(e),
    }
}

/// The attributes of the first `i` elements of the table.
pub open spec fn p_bodies(
    d: Seq<u8>,
    p: int,
    version: i32,
    table: Seq<Seq<char>>,
    n: int,
    es: Seq<ElementView>,
    i: nat,
) -> Result<(Seq<ElementView>, int), SpecBinaryError>
    decreases i,
{
    if i == 0 {
        Ok((es, p))
    } else {
        match p_bodies(d, p, version, table, n, es, (i - 1) as nat) {
            Ok((es1, q)) => p_body(d, q, version, table, n, es1, i - 1),
            Err(e) => Err(e),
        }
    }
}

// ---------------------------------------------------------------------------
// The document
// ---------------------------------------------------------------------------

/// The string table, the element table and the element attributes that
/// follow the prefix.
pub open spec fn p_elements(d: Seq<u8>, p: int, version: i32) -> Result<Seq<ElementView>, SpecBinaryError> {
    match p_table(d, p, version) {
        Ok((table, p3)) => match p_size(d, p3) {
            Ok((n, p4)) => match p_many(d, p4, n as nat, item_header(version, table)) {
                Ok((es, p5)) => match p_bodies(d, p5, version, table, n, es, n as nat) {
                    Ok((es1, _)) => if n == 0 {
                        Err(SpecBinaryError::NoElements)
                    } else {
                        Ok(es1)
                    },
                    Err(e) => Err(e),
                },
                Err(e) => Err(e),
            },
            Err(e) => Err(e),
        },
        Err(e) => Err(e),
    }
}

/// The elements of a document of a given version: the table elements first,
/// the root at position 0, then the elements named only by id, in the order
/// in which they were met.
pub open spec fn p_document(d: Seq<u8>, version: i32) -> Result<Seq<ElementView>, SpecBinaryError> {
    match p_prefix(d, p_string(d, 0).1, version) {
        Ok(p2) => p_elements(d, p2, version),
        Err(e) => Err(e),
    }
}

/// The newest version of the binary encoding.
pub const BINARY_VERSION: i32 = 9;

/// What reading a binary document gives: the version must be between 1 and
/// the newest one, and the encoding must be the binary one.
pub open spec fn decode_binary(d: Seq<u8>, encoding: Seq<char>, version: i32) -> Result<Seq<ElementView>, SpecBinaryError> {
    if version < 1 || version > BINARY_VERSION {
        Err(SpecBinaryError::InvalidVersion { version })
    } else if encoding != binary_name() {
        Err(SpecBinaryError::WrongEncoding)
    } else {
        p_document(d, version)
    }
}

} // verus!
