//! What reading a KeyValues2 text gives: the elements it holds, in the order
//! in which the reader meets them, with their attributes.
//!
//! An element is a quoted class name and a braced list of attributes; an
//! attribute is a quoted name, a quoted type and a value. An element value is
//! an id, resolved once the whole text has been read, or an element written in
//! place. Each element takes a new id from the caller's list when it is met;
//! an `"id" "elementid"` attribute then gives it the id from the text.

use vstd::prelude::*;
use crate::attribute::SpecAttributeValue;
use crate::collections::{key_position, map_insert, map_shift_remove};
use crate::element::{with_attribute, ElementView};
use crate::ids::parsed_uuid;
use crate::serializers::keyvalues2_error::KeyValues2SerializationError;
use crate::serializers::keyvalues2_token::{
    cursor_ok, kv_lines, kv_measure, kv_next_token, kv_start, lemma_token_advances, lines_ok, KvCursor,
    KvToken,
};
use crate::serializers::keyvalues2_values::{kv_adj, kv_array, kv_value, unexpected, KvIn, ParsedTime};
use crate::serializers::keyvalues2_encode::KEYVALUES2_VERSION;
use crate::serializing::{keyvalues2_flat_name, keyvalues2_name};

verus! {

/// An element reference that waits for the end of the text: a single
/// element attribute, or the places of an element array.
pub enum KvRemapKind {
    Single([u8; 16]),
    Array(Seq<(usize, [u8; 16])>),
}

/// A reference of the attribute `name` of the element at `element`.
pub struct KvRemap {
    pub element: usize,
    pub name: Seq<char>,
    pub kind: KvRemapKind,
}

/// The reader's state: where it stands, the elements met so far, the id
/// table (entries of an `IndexMap` from ids to element positions), and the
/// references that wait for the end of the text.
pub struct KvState {
    pub c: KvCursor,
    pub g: Seq<ElementView>,
    pub ids: Seq<([u8; 16], usize)>,
    pub remaps: Seq<KvRemap>,
}

/// The state before the first element.
pub open spec fn kv_state_start() -> KvState {
    KvState { c: kv_start(), g: seq![], ids: seq![], remaps: seq![] }
}

/// The id that the `k`-th element met takes from the caller's list.
pub open spec fn gen_id(x: KvIn, k: int) -> [u8; 16] {
    x.ids[k % (x.ids.len() as int)]
}

/// The element position that the id table holds for `id`.
pub open spec fn id_lookup(ids: Seq<([u8; 16], usize)>, id: [u8; 16]) -> Option<usize> {
    match key_position(ids, id) {
        Some(i) => Some(ids[i].1),
        None => None,
    }
}

/// The id whose bytes are `b`.
pub open spec fn id_key(b: Seq<u8>) -> [u8; 16] {
    choose|k: [u8; 16]| k@ == b
}

/// `s` at the cursor `c`.
pub open spec fn at(s: KvState, c: KvCursor) -> KvState {
    KvState { c, ..s }
}

/// `s` with the attribute `name` of element `e` set to `v`.
pub open spec fn kv_set(s: KvState, e: usize, name: Seq<char>, v: SpecAttributeValue) -> KvState {
    KvState { g: s.g.update(e as int, with_attribute(s.g[e as int], name, v)), ..s }
}

/// Meets a new element of class `class`: it takes the next id of the list.
pub open spec fn kv_create(x: KvIn, s: KvState, class: Seq<char>) -> Result<(KvState, usize), KeyValues2SerializationError> {
    let id = gen_id(x, s.g.len() as int);
    let n = s.g.len() as usize;
    if key_position(s.ids, id) is Some {
        Err(KeyValues2SerializationError::DuplicateGeneratedElementId)
    } else {
        Ok((
            KvState {
                g: s.g.push(ElementView { class, id: id@, attributes: seq![] }),
                ids: s.ids.push((id, n)),
                ..s
            },
            n,
        ))
    }
}

/// Gives element `e` the id `id` from the text.
pub open spec fn kv_set_id(s: KvState, e: usize, id: [u8; 16]) -> Result<KvState, KeyValues2SerializationError> {
    let own = s.g[e as int].id;
    if id@ == own {
        Ok(s)
    } else if key_position(s.ids, id) is Some {
        Err(KeyValues2SerializationError::DuplicateElementId(id))
    } else {
        Ok(KvState {
            g: s.g.update(e as int, ElementView { id: id@, ..s.g[e as int] }),
            ids: map_insert(map_shift_remove(s.ids, id_key(own)), id, e),
            ..s
        })
    }
}

/// The cursor `c2` is usable and further on than `c`.
pub open spec fn advanced(x: KvIn, c2: KvCursor, c: KvCursor) -> bool {
    cursor_ok(x.lines, c2) && kv_measure(x.lines, c2) < kv_measure(x.lines, c)
}

/// Reads a quoted string token.
pub open spec fn kv_text(x: KvIn, c: KvCursor) -> Result<(Seq<char>, KvCursor), KeyValues2SerializationError> {
    match kv_next_token(x.lines, c) {
        Err(e) => Err(e),
        Ok((None, _)) => Err(KeyValues2SerializationError::UnexpectedEndOfFile),
        Ok((Some(KvToken::Text(v)), c2)) => Ok((v, c2)),
        Ok((Some(t), c2)) => Err(unexpected(t, c2)),
    }
}

/// Reads the attributes of element `e` up to its closing brace (from a
/// cursor that the reader can go on from; an attribute that would not move
/// the reader on ends the reading).
pub open spec fn kv_attrs(x: KvIn, s: KvState, e: usize) -> Result<KvState, KeyValues2SerializationError>
    decreases kv_measure(x.lines, s.c),
{
    if !(lines_ok(x.lines) && cursor_ok(x.lines, s.c)) {
        Ok(s)
    } else {
        match kv_next_token(x.lines, s.c) {
            Err(err) => Err(err),
            Ok((None, _)) => Err(KeyValues2SerializationError::UnexpectedEndOfFile),
            Ok((Some(KvToken::CloseBrace), c1)) => Ok(at(s, c1)),
            Ok((Some(KvToken::Text(name)), c1)) => {
                proof {
                    lemma_token_advances(x.lines, s.c);
                    lemma_token_advances(x.lines, c1);
                }
                match kv_text(x, c1) {
                    Err(err) => Err(err),
                    Ok((ty, c2)) => match kv_attr(x, at(s, c2), e, name, ty) {
                        Err(err) => Err(err),
                        Ok(s3) => if advanced(x, s3.c, s.c) {
                            kv_attrs(x, s3, e)
                        } else {
                            Err(KeyValues2SerializationError::UnexpectedEndOfFile)
                        },
                    },
                }
            },
            Ok((Some(t), c1)) => Err(unexpected(t, c1)),
        }
    }
}

/// Reads the value of the attribute `name` of type `ty` of element `e`.
pub open spec fn kv_attr(x: KvIn, s: KvState, e: usize, name: Seq<char>, ty: Seq<char>) -> Result<KvState, KeyValues2SerializationError>
    decreases kv_measure(x.lines, s.c),
{
    if !(lines_ok(x.lines) && cursor_ok(x.lines, s.c)) {
        Ok(s)
    } else if name == "name"@ && ty != "string"@ {
        Err(KeyValues2SerializationError::InvalidNameAttributeType(s.c.line as usize, kv_adj(s.c.col, ty.len() as int) as usize))
    } else if name == "id"@ && ty == "elementid"@ {
        match kv_text(x, s.c) {
            Err(err) => Err(err),
            Ok((v, c3)) => match parsed_uuid(v) {
                None => Err(KeyValues2SerializationError::ParseUUIDError(c3.line as usize, kv_adj(c3.col, v.len() as int) as usize)),
                Some(id) => kv_set_id(at(s, c3), e, id),
            },
        }
    } else {
        match kv_value(x, s.c, ty) {
            Err(err) => Err(err),
            Ok((Some(v), c3)) => Ok(kv_set(at(s, c3), e, name, v)),
            Ok((None, c3)) => match kv_array(x, c3, ty) {
                Err(err) => Err(err),
                Ok((Some(a), c4)) => Ok(kv_set(at(s, c4), e, name, a)),
                Ok((None, c4)) => if ty == "element"@ {
                    match kv_text(x, c4) {
                        Err(err) => Err(err),
                        Ok((v, c5)) => if v.len() == 0 {
                            Ok(kv_set(at(s, c5), e, name, SpecAttributeValue::Element(None)))
                        } else {
                            match parsed_uuid(v) {
                                None => Err(KeyValues2SerializationError::ParseUUIDError(c5.line as usize, kv_adj(c5.col, v.len() as int) as usize)),
                                Some(id) => Ok(kv_set(
                                    KvState {
                                        c: c5,
                                        remaps: s.remaps.push(KvRemap { element: e, name, kind: KvRemapKind::Single(id) }),
                                        ..s
                                    },
                                    e,
                                    name,
                                    SpecAttributeValue::Element(None),
                                )),
                            }
                        },
                    }
                } else if ty == "element_array"@ {
                    match kv_next_token(x.lines, c4) {
                        Err(err) => Err(err),
                        Ok((Some(KvToken::OpenBracket), c5)) => {
                            proof {
                                lemma_token_advances(x.lines, s.c);
                                crate::serializers::keyvalues2_values::lemma_value_advances(x, s.c, ty);
                                crate::serializers::keyvalues2_values::lemma_array_advances(x, c3, ty);
                                lemma_token_advances(x.lines, c4);
                            }
                            match kv_elem_items(x, at(s, c5), e, seq![], seq![]) {
                                Err(err) => Err(err),
                                Ok((s6, items, rs)) => {
                                    let s7 = if rs.len() > 0 {
                                        KvState {
                                            remaps: s6.remaps.push(KvRemap { element: e, name, kind: KvRemapKind::Array(rs) }),
                                            ..s6
                                        }
                                    } else {
                                        s6
                                    };
                                    Ok(kv_set(s7, e, name, SpecAttributeValue::ElementArray(items)))
                                },
                            }
                        },
                        Ok((_, c5)) => Err(KeyValues2SerializationError::ExpectedOpenBracket(c5.line as usize, c5.col as usize)),
                    }
                } else {
                    match kv_next_token(x.lines, c4) {
                        Err(err) => Err(err),
                        Ok((Some(KvToken::OpenBrace), c5)) => {
                            proof {
                                crate::serializers::keyvalues2_values::lemma_value_advances(x, s.c, ty);
                                crate::serializers::keyvalues2_values::lemma_array_advances(x, c3, ty);
                                lemma_token_advances(x.lines, c4);
                            }
                            match kv_create(x, at(s, c5), ty) {
                                Err(err) => Err(err),
                                Ok((s6, k)) => match kv_attrs(x, s6, k) {
                                    Err(err) => Err(err),
                                    Ok(s7) => Ok(kv_set(s7, e, name, SpecAttributeValue::Element(Some(k)))),
                                },
                            }
                        },
                        Ok((_, c5)) => Err(KeyValues2SerializationError::ExpectedOpenBrace(c5.line as usize, c5.col as usize)),
                    }
                },
            },
        }
    }
}

/// Reads the items of an element array up to its closing bracket: element
/// ids (`"element" "id"`, resolved later at their places `rs`) and elements
/// written in place.
pub open spec fn kv_elem_items(
    x: KvIn,
    s: KvState,
    e: usize,
    items: Seq<Option<usize>>,
    rs: Seq<(usize, [u8; 16])>,
) -> Result<(KvState, Seq<Option<usize>>, Seq<(usize, [u8; 16])>), KeyValues2SerializationError>
    decreases kv_measure(x.lines, s.c),
{
    if !(lines_ok(x.lines) && cursor_ok(x.lines, s.c)) {
        Ok((s, items, rs))
    } else {
        match kv_next_token(x.lines, s.c) {
            Err(err) => Err(err),
            Ok((None, _)) => Err(KeyValues2SerializationError::UnexpectedEndOfFile),
            Ok((Some(KvToken::CloseBracket), c1)) => Ok((at(s, c1), items, rs)),
            Ok((Some(KvToken::Text(t)), c1)) => {
                proof {
                    lemma_token_advances(x.lines, s.c);
                    lemma_token_advances(x.lines, c1);
                }
                match kv_next_token(x.lines, c1) {
                    Err(err) => Err(err),
                    Ok((None, _)) => Err(KeyValues2SerializationError::UnexpectedEndOfFile),
                    Ok((Some(KvToken::Text(v)), c2)) => if t != "element"@ {
                        Err(KeyValues2SerializationError::ExpectedOpenBrace(c2.line as usize, kv_adj(c2.col, t.len() as int) as usize))
                    } else if v.len() == 0 {
                        kv_elem_items(x, at(s, c2), e, items.push(None), rs)
                    } else {
                        match parsed_uuid(v) {
                            None => Err(KeyValues2SerializationError::ParseUUIDError(c2.line as usize, kv_adj(c2.col, t.len() as int) as usize)),
                            Some(id) => kv_elem_items(x, at(s, c2), e, items.push(None), rs.push((items.len() as usize, id))),
                        }
                    },
                    Ok((Some(KvToken::OpenBrace), c2)) => match kv_create(x, at(s, c2), t) {
                        Err(err) => Err(err),
                        Ok((s3, k)) => match kv_attrs(x, s3, k) {
                            Err(err) => Err(err),
                            Ok(s4) => if advanced(x, s4.c, s.c) {
                                kv_elem_items(x, s4, e, items.push(Some(k)), rs)
                            } else {
                                Err(KeyValues2SerializationError::UnexpectedEndOfFile)
                            },
                        },
                    },
                    Ok((Some(t2), c2)) => Err(unexpected(t2, c2)),
                }
            },
            Ok((Some(t), c1)) => Err(unexpected(t, c1)),
        }
    }
}

/// Reads one top-level element: `None` at the end of the text.
pub open spec fn kv_element(x: KvIn, s: KvState) -> Result<(KvState, Option<usize>), KeyValues2SerializationError> {
    match kv_next_token(x.lines, s.c) {
        Err(err) => Err(err),
        Ok((None, c1)) => Ok((at(s, c1), None)),
        Ok((Some(KvToken::Text(class)), c1)) => match kv_create(x, at(s, c1), class) {
            Err(err) => Err(err),
            Ok((s2, k)) => match kv_next_token(x.lines, c1) {
                Err(err) => Err(err),
                Ok((Some(KvToken::OpenBrace), c2)) => match kv_attrs(x, at(s2, c2), k) {
                    Err(err) => Err(err),
                    Ok(s3) => Ok((s3, Some(k))),
                },
                Ok((_, c2)) => Err(KeyValues2SerializationError::ExpectedOpenBrace(c2.line as usize, c2.col as usize)),
            },
        },
        Ok((Some(t), c1)) => Err(unexpected(t, c1)),
    }
}

/// Reads the top-level elements to the end of the text; the root is the
/// first of them whose class is not `$prefix_element$`.
pub open spec fn kv_elements(x: KvIn, s: KvState, root: Option<usize>) -> Result<(KvState, Option<usize>), KeyValues2SerializationError>
    decreases kv_measure(x.lines, s.c),
{
    if !(lines_ok(x.lines) && cursor_ok(x.lines, s.c)) {
        Ok((s, root))
    } else {
        match kv_element(x, s) {
            Err(err) => Err(err),
            Ok((s2, None)) => Ok((s2, root)),
            Ok((s2, Some(k))) => {
                let root2 = if root is None && s2.g[k as int].class != "$prefix_element$"@ {
                    Some(k)
                } else {
                    root
                };
                if advanced(x, s2.c, s.c) {
                    kv_elements(x, s2, root2)
                } else {
                    Err(KeyValues2SerializationError::UnexpectedEndOfFile)
                }
            },
        }
    }
}

// ---------------------------------------------------------------------------
// Resolving references
// ---------------------------------------------------------------------------

/// The value of the attribute `name` of an element, if it has one.
pub open spec fn attr_value(ev: ElementView, name: Seq<char>) -> Option<SpecAttributeValue> {
    match key_position(ev.attributes, name) {
        Some(i) => Some(ev.attributes[i].1),
        None => None,
    }
}

/// `arr` with each place of `rs` whose id names an element set to it.
pub open spec fn fill_refs(arr: Seq<Option<usize>>, rs: Seq<(usize, [u8; 16])>, ids: Seq<([u8; 16], usize)>) -> Seq<Option<usize>>
    decreases rs.len(),
{
    if rs.len() == 0 {
        arr
    } else {
        let i = rs[0].0;
        let arr2 = match id_lookup(ids, rs[0].1) {
            Some(t) => if i < arr.len() {
                arr.update(i as int, Some(t))
            } else {
                arr
            },
            None => arr,
        };
        fill_refs(arr2, rs.drop_first(), ids)
    }
}

/// Resolves one reference: ids that name no element leave the value as it is.
pub open spec fn kv_apply_one(g: Seq<ElementView>, ids: Seq<([u8; 16], usize)>, r: KvRemap) -> Seq<ElementView> {
    let e = r.element as int;
    if e >= g.len() {
        g
    } else {
        match r.kind {
            KvRemapKind::Single(u) => match id_lookup(ids, u) {
                Some(t) => g.update(e, with_attribute(g[e], r.name, SpecAttributeValue::Element(Some(t)))),
                None => g,
            },
            KvRemapKind::Array(rs) => match attr_value(g[e], r.name) {
                Some(SpecAttributeValue::ElementArray(arr)) => g.update(
                    e,
                    with_attribute(g[e], r.name, SpecAttributeValue::ElementArray(fill_refs(arr, rs, ids))),
                ),
                _ => g,
            },
        }
    }
}

/// Resolves the references in order.
pub open spec fn kv_apply(g: Seq<ElementView>, ids: Seq<([u8; 16], usize)>, remaps: Seq<KvRemap>) -> Seq<ElementView>
    decreases remaps.len(),
{
    if remaps.len() == 0 {
        g
    } else {
        kv_apply(kv_apply_one(g, ids, remaps[0]), ids, remaps.drop_first())
    }
}

/// What reading the text gives: the elements and the root's position.
pub open spec fn kv_read(x: KvIn) -> Result<(Seq<ElementView>, usize), KeyValues2SerializationError> {
    match kv_elements(x, kv_state_start(), None) {
        Err(e) => Err(e),
        Ok((s, root)) => match root {
            Some(r) => Ok((kv_apply(s.g, s.ids, s.remaps), r)),
            None => Err(KeyValues2SerializationError::NoElements),
        },
    }
}

/// What `KeyValues2Serializer::deserialize` gives for the text `d` after the
/// header, the header's encoding and version, the ids for new elements, and
/// the caller's number readers.
pub open spec fn decode_kv2(
    d: Seq<u8>,
    encoding: Seq<char>,
    version: i32,
    ids: Seq<[u8; 16]>,
    ft: spec_fn(Seq<char>) -> Option<u32>,
    tt: spec_fn(Seq<char>) -> ParsedTime,
) -> Result<(Seq<ElementView>, usize), KeyValues2SerializationError> {
    if encoding != keyvalues2_name() {
        Err(KeyValues2SerializationError::WrongEncoding)
    } else if version < 1 || version > KEYVALUES2_VERSION {
        Err(KeyValues2SerializationError::InvalidEncodingVersion)
    } else {
        kv_read(KvIn { lines: kv_lines(d), ids, ft, tt })
    }
}

/// What `KeyValues2FlatSerializer::deserialize` gives: the same reading as
/// the KeyValues2 encoding, once its own name and version are checked.
pub open spec fn decode_kv2_flat(
    d: Seq<u8>,
    encoding: Seq<char>,
    version: i32,
    ids: Seq<[u8; 16]>,
    ft: spec_fn(Seq<char>) -> Option<u32>,
    tt: spec_fn(Seq<char>) -> ParsedTime,
) -> Result<(Seq<ElementView>, usize), KeyValues2SerializationError> {
    if encoding != keyvalues2_flat_name() {
        Err(KeyValues2SerializationError::WrongEncoding)
    } else if version < 1 || version > KEYVALUES2_VERSION {
        Err(KeyValues2SerializationError::InvalidEncodingVersion)
    } else {
        decode_kv2(d, keyvalues2_name(), KEYVALUES2_VERSION, ids, ft, tt)
    }
}

} // verus!
