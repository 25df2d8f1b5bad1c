//! The KeyValues2 reader: builds the element graph that a text holds.

use vstd::prelude::*;
use indexmap::IndexMap;
use crate::attribute::{AttributeValue, SpecAttributeValue, UuidBytes};
use crate::collections::{
    id_map_entries, id_map_get, id_map_insert, id_map_new, id_map_shift_remove, key_position,
    lemma_key_position,
};
use crate::element::{entries_view, lemma_key_position_same_keys, Element, ElementGraph, ElementView};
use crate::ids::parse_uuid;
use crate::serializers::keyvalues2_error::KeyValues2SerializationError;
use crate::serializers::keyvalues2_parse::{
    advanced, at, attr_value, fill_refs, gen_id, id_key, id_lookup, kv_apply, kv_apply_one, kv_attr,
    kv_attrs, kv_create, kv_elem_items, kv_element, kv_elements, kv_read, kv_set, kv_set_id,
    kv_state_start, kv_text, KvRemap, KvRemapKind, KvState,
};
use crate::serializers::keyvalues2_token::{
    cursor_ok, kv_lines, kv_measure, lemma_token_advances, lines_ok, lines_view, split_lines, KvCursor,
    ReadToken, StringReader,
};
use crate::serializers::keyvalues2_values::{
    adj, f32_of, gives_f32, gives_time, lemma_array_advances, lemma_gives_f32, lemma_gives_time,
    lemma_value_advances, reads_f32, reads_time, time_of, unexpected, KvIn, ParsedTime,
};
use crate::text::{same_text, string_of};

verus! {

/// A reference that waits for the end of the text.
pub enum RemapKind {
    Single(UuidBytes),
    Array(Vec<(usize, UuidBytes)>),
}

/// A reference of the attribute `name` of the element at `element`.
pub struct Remap {
    pub element: usize,
    pub name: String,
    pub kind: RemapKind,
}

impl View for Remap {
    type V = KvRemap;

    open spec fn view(&self) -> KvRemap {
        KvRemap {
            element: self.element,
            name: self.name@,
            kind: match self.kind {
                RemapKind::Single(u) => KvRemapKind::Single(u),
                RemapKind::Array(v) => KvRemapKind::Array(v@),
            },
        }
    }
}

/// What the reader reads from: the lines of the text and the ids for new elements.
pub struct KvSource {
    pub lines: Vec<Option<Vec<char>>>,
    pub ids: Vec<UuidBytes>,
}

/// `src` holds what `x` names.
pub open spec fn source_ok(x: KvIn, src: &KvSource) -> bool {
    &&& x.lines == lines_view(src.lines@)
    &&& x.ids == src.ids@
    &&& lines_ok(x.lines)
    &&& src.ids@.len() > 0
}

/// The reader's state: where it stands, the elements met, the id table and
/// the waiting references.
pub struct KvParser {
    pub reader: StringReader,
    pub graph: ElementGraph,
    pub ids: IndexMap<UuidBytes, usize>,
    pub remaps: Vec<Remap>,
}

impl View for KvParser {
    type V = KvState;

    open spec fn view(&self) -> KvState {
        KvState {
            c: self.reader@,
            g: self.graph@,
            ids: id_map_entries(self.ids),
            remaps: self.remaps@.map_values(|r: Remap| r@),
        }
    }
}

/// Whether two ids are the same.
fn same_id(a: &UuidBytes, b: &UuidBytes) -> (r: bool)
    ensures
        r == (a@ == b@),
{
    let mut i: usize = 0;
    while i < 16
        invariant
            i <= 16,
            forall|k: int| 0 <= k < i ==> a@[k] == b@[k],
        decreases 16 - i,
    {
        if a[i] != b[i] {
            return false;
        }
        i = i + 1;
    }
    assert(a@ =~= b@);
    true
}

/// The error for a bracket token where none may stand, at the reader.
fn unexpected_at(t: &ReadToken, r: &StringReader) -> (e: KeyValues2SerializationError)
    ensures
        e == unexpected(t@, r@),
{
    match t {
        ReadToken::OpenBrace => KeyValues2SerializationError::UnexpectedOpenBrace(r.line, r.col),
        ReadToken::CloseBrace => KeyValues2SerializationError::UnexpectedCloseBrace(r.line, r.col),
        ReadToken::OpenBracket => KeyValues2SerializationError::UnexpectedOpenBracket(r.line, r.col),
        _ => KeyValues2SerializationError::UnexpectedCloseBracket(r.line, r.col),
    }
}

impl KvParser {
    /// A reader before the first element.
    pub fn new() -> (r: KvParser)
        ensures
            r@ == kv_state_start(),
    {
        let r = KvParser { reader: StringReader::new(), graph: ElementGraph::new(), ids: id_map_new(), remaps: Vec::new() };
        assert(r@.g =~= Seq::<ElementView>::empty());
        assert(r@.remaps =~= Seq::<KvRemap>::empty());
        r
    }

    /// Reads a quoted string token (`kv_text`).
    fn read_text(&mut self, src: &KvSource, Ghost(x): Ghost<KvIn>) -> (r: Result<Vec<char>, KeyValues2SerializationError>)
        requires
            source_ok(x, src),
            cursor_ok(x.lines, old(self)@.c),
        ensures
            match kv_text(x, old(self)@.c) {
                Ok((v, c)) => r matches Ok(w) && w@ == v && final(self)@ == at(old(self)@, c),
                Err(e) => r == Err::<Vec<char>, KeyValues2SerializationError>(e),
            },
            r is Ok ==> advanced(x, final(self)@.c, old(self)@.c),
    {
        proof {
            lemma_token_advances(x.lines, self@.c);
        }
        match self.reader.next_token(&src.lines) {
            Err(e) => Err(e),
            Ok(None) => Err(KeyValues2SerializationError::UnexpectedEndOfFile),
            Ok(Some(ReadToken::Text(v))) => Ok(v),
            Ok(Some(t)) => Err(unexpected_at(&t, &self.reader)),
        }
    }

    /// Meets a new element of class `class` (`kv_create`).
    fn create(&mut self, src: &KvSource, class: &Vec<char>, Ghost(x): Ghost<KvIn>) -> (r: Result<usize, KeyValues2SerializationError>)
        requires
            source_ok(x, src),
        ensures
            match kv_create(x, old(self)@, class@) {
                Ok((s, k)) => r == Ok::<usize, KeyValues2SerializationError>(k) && final(self)@ == s,
                Err(e) => r == Err::<usize, KeyValues2SerializationError>(e),
            },
    {
        let n = self.graph.len();
        let id = src.ids[n % src.ids.len()];
        assert(id == gen_id(x, n as int));
        if id_map_insert(&mut self.ids, id, n).is_some() {
            return Err(KeyValues2SerializationError::DuplicateGeneratedElementId);
        }
        let element = Element::full(string_of(class.as_slice()), id);
        assert(entries_view(element.entries()) =~= Seq::<(Seq<char>, SpecAttributeValue)>::empty());
        self.graph.add(element);
        Ok(n)
    }

    /// Gives element `e` the id `id` (`kv_set_id`).
    fn set_id(&mut self, e: usize, id: UuidBytes) -> (r: Result<(), KeyValues2SerializationError>)
        requires
            e < old(self)@.g.len(),
        ensures
            match kv_set_id(old(self)@, e, id) {
                Ok(s) => r is Ok && final(self)@ == s,
                Err(err) => r == Err::<(), KeyValues2SerializationError>(err),
            },
    {
        let own = self.graph.get(e).get_id();
        assert(own@ == self@.g[e as int].id);
        if same_id(&id, &own) {
            return Ok(());
        }
        if id_map_get(&self.ids, &id).is_some() {
            return Err(KeyValues2SerializationError::DuplicateElementId(id));
        }
        proof {
            let k = id_key(own@);
            assert(k@ == own@);
            assert(k =~= own);
        }
        id_map_shift_remove(&mut self.ids, &own);
        self.graph.set_id(e, id);
        id_map_insert(&mut self.ids, id, e);
        Ok(())
    }

    /// Sets the attribute `name` of element `e` (`kv_set`).
    fn set(&mut self, e: usize, name: &Vec<char>, v: AttributeValue)
        requires
            e < old(self)@.g.len(),
        ensures
            final(self)@ == kv_set(old(self)@, e, name@, v@),
    {
        self.graph.set_attribute(e, string_of(name.as_slice()), v);
    }

    /// Records a reference that waits for the end of the text.
    fn add_remap(&mut self, r: Remap)
        ensures
            final(self)@ == (KvState { remaps: old(self)@.remaps.push(r@), ..old(self)@ }),
    {
        let ghost before = self.remaps@;
        self.remaps.push(r);
        assert(self.remaps@.map_values(|q: Remap| q@) =~= before.map_values(|q: Remap| q@).push(r@));
    }

    /// Reads the attributes of element `e` up to its closing brace (`kv_attrs`).
    fn read_attributes<F: Fn(&str) -> Option<u32>, T: Fn(&str) -> ParsedTime>(
        &mut self,
        src: &KvSource,
        e: usize,
        pf: &F,
        pt: &T,
        Ghost(x): Ghost<KvIn>,
    ) -> (r: Result<(), KeyValues2SerializationError>)
        requires
            source_ok(x, src),
            gives_f32(*pf, x.ft),
            gives_time(*pt, x.tt),
            cursor_ok(x.lines, old(self)@.c),
            e < old(self)@.g.len(),
        ensures
            match kv_attrs(x, old(self)@, e) {
                Ok(s) => r is Ok && final(self)@ == s,
                Err(err) => r == Err::<(), KeyValues2SerializationError>(err),
            },
            r is Ok ==> advanced(x, final(self)@.c, old(self)@.c) && old(self)@.g.len() <= final(self)@.g.len(),
        decreases kv_measure(x.lines, old(self)@.c),
    {
        let ghost s0 = self@;
        loop
            invariant
                s0 == old(self)@,
                source_ok(x, src),
                gives_f32(*pf, x.ft),
                gives_time(*pt, x.tt),
                cursor_ok(x.lines, self@.c),
                kv_measure(x.lines, self@.c) <= kv_measure(x.lines, s0.c),
                e < self@.g.len(),
                s0.g.len() <= self@.g.len(),
                kv_attrs(x, s0, e) == kv_attrs(x, self@, e),
            decreases kv_measure(x.lines, self@.c),
        {
            let ghost s = self@;
            proof {
                lemma_token_advances(x.lines, s.c);
            }
            match self.reader.next_token(&src.lines) {
                Err(err) => {
                    return Err(err);
                },
                Ok(None) => {
                    return Err(KeyValues2SerializationError::UnexpectedEndOfFile);
                },
                Ok(Some(ReadToken::CloseBrace)) => {
                    return Ok(());
                },
                Ok(Some(ReadToken::Text(name))) => {
                    let ty = match self.read_text(src, Ghost(x)) {
                        Err(err) => {
                            return Err(err);
                        },
                        Ok(v) => v,
                    };
                    match self.read_attribute(src, e, &name, &ty, pf, pt, Ghost(x)) {
                        Err(err) => {
                            return Err(err);
                        },
                        Ok(()) => {},
                    }
                },
                Ok(Some(t)) => {
                    return Err(unexpected_at(&t, &self.reader));
                },
            }
        }
    }

    /// Reads the value of the attribute `name` of type `ty` of element `e` (`kv_attr`).
    fn read_attribute<F: Fn(&str) -> Option<u32>, T: Fn(&str) -> ParsedTime>(
        &mut self,
        src: &KvSource,
        e: usize,
        name: &Vec<char>,
        ty: &Vec<char>,
        pf: &F,
        pt: &T,
        Ghost(x): Ghost<KvIn>,
    ) -> (r: Result<(), KeyValues2SerializationError>)
        requires
            source_ok(x, src),
            gives_f32(*pf, x.ft),
            gives_time(*pt, x.tt),
            cursor_ok(x.lines, old(self)@.c),
            e < old(self)@.g.len(),
        ensures
            match kv_attr(x, old(self)@, e, name@, ty@) {
                Ok(s) => r is Ok && final(self)@ == s,
                Err(err) => r == Err::<(), KeyValues2SerializationError>(err),
            },
            r is Ok ==> cursor_ok(x.lines, final(self)@.c) && kv_measure(x.lines, final(self)@.c) <= kv_measure(
                x.lines,
                old(self)@.c,
            ) && old(self)@.g.len() <= final(self)@.g.len(),
        decreases kv_measure(x.lines, old(self)@.c),
    {
        let names = string_of(name.as_slice());
        let tys = string_of(ty.as_slice());
        if same_text(names.as_str(), "name") && !same_text(tys.as_str(), "string") {
            return Err(KeyValues2SerializationError::InvalidNameAttributeType(self.reader.line, adj(self.reader.col, ty.len())));
        }
        if same_text(names.as_str(), "id") && same_text(tys.as_str(), "elementid") {
            let v = match self.read_text(src, Ghost(x)) {
                Err(err) => {
                    return Err(err);
                },
                Ok(v) => v,
            };
            let vs = string_of(v.as_slice());
            match parse_uuid(vs.as_str()) {
                Err(_) => {
                    return Err(KeyValues2SerializationError::ParseUUIDError(self.reader.line, adj(self.reader.col, v.len())));
                },
                Ok(id) => {
                    return self.set_id(e, id);
                },
            }
        }
        proof {
            lemma_value_advances(x, self@.c, ty@);
        }
        match self.reader.read_value(&src.lines, tys.as_str(), pf, pt, Ghost(x)) {
            Err(err) => {
                return Err(err);
            },
            Ok(Some(v)) => {
                self.set(e, name, v);
                return Ok(());
            },
            Ok(None) => {},
        }
        proof {
            lemma_array_advances(x, self@.c, ty@);
        }
        match self.reader.read_array(&src.lines, tys.as_str(), pf, pt, Ghost(x)) {
            Err(err) => {
                return Err(err);
            },
            Ok(Some(a)) => {
                self.set(e, name, a);
                return Ok(());
            },
            Ok(None) => {},
        }
        proof {
            lemma_token_advances(x.lines, self@.c);
        }
        if same_text(tys.as_str(), "element") {
            let v = match self.read_text(src, Ghost(x)) {
                Err(err) => {
                    return Err(err);
                },
                Ok(v) => v,
            };
            if v.len() == 0 {
                self.set(e, name, AttributeValue::Element(None));
                return Ok(());
            }
            let vs = string_of(v.as_slice());
            match parse_uuid(vs.as_str()) {
                Err(_) => Err(KeyValues2SerializationError::ParseUUIDError(self.reader.line, adj(self.reader.col, v.len()))),
                Ok(id) => {
                    self.add_remap(Remap { element: e, name: string_of(name.as_slice()), kind: RemapKind::Single(id) });
                    self.set(e, name, AttributeValue::Element(None));
                    Ok(())
                },
            }
        } else if same_text(tys.as_str(), "element_array") {
            match self.reader.next_token(&src.lines) {
                Err(err) => {
                    return Err(err);
                },
                Ok(Some(ReadToken::OpenBracket)) => {},
                Ok(_) => {
                    return Err(KeyValues2SerializationError::ExpectedOpenBracket(self.reader.line, self.reader.col));
                },
            }
            let (items, rs) = match self.read_elem_items(src, e, pf, pt, Ghost(x)) {
                Err(err) => {
                    return Err(err);
                },
                Ok(p) => p,
            };
            if rs.len() > 0 {
                self.add_remap(Remap { element: e, name: string_of(name.as_slice()), kind: RemapKind::Array(rs) });
            }
            self.set(e, name, AttributeValue::ElementArray(items));
            Ok(())
        } else {
            match self.reader.next_token(&src.lines) {
                Err(err) => {
                    return Err(err);
                },
                Ok(Some(ReadToken::OpenBrace)) => {},
                Ok(_) => {
                    return Err(KeyValues2SerializationError::ExpectedOpenBrace(self.reader.line, self.reader.col));
                },
            }
            let k = match self.create(src, ty, Ghost(x)) {
                Err(err) => {
                    return Err(err);
                },
                Ok(k) => k,
            };
            match self.read_attributes(src, k, pf, pt, Ghost(x)) {
                Err(err) => {
                    return Err(err);
                },
                Ok(()) => {},
            }
            self.set(e, name, AttributeValue::Element(Some(k)));
            Ok(())
        }
    }

    /// Reads the items of an element array up to its closing bracket (`kv_elem_items`).
    fn read_elem_items<F: Fn(&str) -> Option<u32>, T: Fn(&str) -> ParsedTime>(
        &mut self,
        src: &KvSource,
        e: usize,
        pf: &F,
        pt: &T,
        Ghost(x): Ghost<KvIn>,
    ) -> (r: Result<(Vec<Option<usize>>, Vec<(usize, UuidBytes)>), KeyValues2SerializationError>)
        requires
            source_ok(x, src),
            gives_f32(*pf, x.ft),
            gives_time(*pt, x.tt),
            cursor_ok(x.lines, old(self)@.c),
            e < old(self)@.g.len(),
        ensures
            match kv_elem_items(x, old(self)@, e, seq![], seq![]) {
                Ok((s, items, rs)) => r matches Ok((a, b)) && a@ == items && b@ == rs && final(self)@ == s,
                Err(err) => r matches Err(err2) && err2 == err,
            },
            r is Ok ==> advanced(x, final(self)@.c, old(self)@.c) && old(self)@.g.len() <= final(self)@.g.len(),
        decreases kv_measure(x.lines, old(self)@.c),
    {
        let ghost s0 = self@;
        let mut items: Vec<Option<usize>> = Vec::new();
        let mut rs: Vec<(usize, UuidBytes)> = Vec::new();
        loop
            invariant
                s0 == old(self)@,
                source_ok(x, src),
                gives_f32(*pf, x.ft),
                gives_time(*pt, x.tt),
                cursor_ok(x.lines, self@.c),
                kv_measure(x.lines, self@.c) <= kv_measure(x.lines, s0.c),
                e < self@.g.len(),
                s0.g.len() <= self@.g.len(),
                kv_elem_items(x, s0, e, seq![], seq![]) == kv_elem_items(x, self@, e, items@, rs@),
            decreases kv_measure(x.lines, self@.c),
        {
            let ghost s = self@;
            proof {
                lemma_token_advances(x.lines, s.c);
            }
            match self.reader.next_token(&src.lines) {
                Err(err) => {
                    return Err(err);
                },
                Ok(None) => {
                    return Err(KeyValues2SerializationError::UnexpectedEndOfFile);
                },
                Ok(Some(ReadToken::CloseBracket)) => {
                    return Ok((items, rs));
                },
                Ok(Some(ReadToken::Text(t))) => {
                    proof {
                        lemma_token_advances(x.lines, self@.c);
                    }
                    match self.reader.next_token(&src.lines) {
                        Err(err) => {
                            return Err(err);
                        },
                        Ok(None) => {
                            return Err(KeyValues2SerializationError::UnexpectedEndOfFile);
                        },
                        Ok(Some(ReadToken::Text(v))) => {
                            let ts = string_of(t.as_slice());
                            if !same_text(ts.as_str(), "element") {
                                return Err(KeyValues2SerializationError::ExpectedOpenBrace(self.reader.line, adj(self.reader.col, t.len())));
                            }
                            if v.len() == 0 {
                                items.push(None);
                            } else {
                                let vs = string_of(v.as_slice());
                                match parse_uuid(vs.as_str()) {
                                    Err(_) => {
                                        return Err(KeyValues2SerializationError::ParseUUIDError(self.reader.line, adj(self.reader.col, t.len())));
                                    },
                                    Ok(id) => {
                                        let place = items.len();
                                        items.push(None);
                                        rs.push((place, id));
                                    },
                                }
                            }
                        },
                        Ok(Some(ReadToken::OpenBrace)) => {
                            let k = match self.create(src, &t, Ghost(x)) {
                                Err(err) => {
                                    return Err(err);
                                },
                                Ok(k) => k,
                            };
                            match self.read_attributes(src, k, pf, pt, Ghost(x)) {
                                Err(err) => {
                                    return Err(err);
                                },
                                Ok(()) => {},
                            }
                            items.push(Some(k));
                        },
                        Ok(Some(t2)) => {
                            return Err(unexpected_at(&t2, &self.reader));
                        },
                    }
                },
                Ok(Some(t)) => {
                    return Err(unexpected_at(&t, &self.reader));
                },
            }
        }
    }

    /// Reads one top-level element (`kv_element`).
    fn read_element<F: Fn(&str) -> Option<u32>, T: Fn(&str) -> ParsedTime>(
        &mut self,
        src: &KvSource,
        pf: &F,
        pt: &T,
        Ghost(x): Ghost<KvIn>,
    ) -> (r: Result<Option<usize>, KeyValues2SerializationError>)
        requires
            source_ok(x, src),
            gives_f32(*pf, x.ft),
            gives_time(*pt, x.tt),
            cursor_ok(x.lines, old(self)@.c),
        ensures
            match kv_element(x, old(self)@) {
                Ok((s, k)) => r == Ok::<Option<usize>, KeyValues2SerializationError>(k) && final(self)@ == s,
                Err(err) => r == Err::<Option<usize>, KeyValues2SerializationError>(err),
            },
            r matches Ok(Some(k)) ==> advanced(x, final(self)@.c, old(self)@.c) && k < final(self)@.g.len(),
    {
        proof {
            lemma_token_advances(x.lines, self@.c);
        }
        let class = match self.reader.next_token(&src.lines) {
            Err(err) => {
                return Err(err);
            },
            Ok(None) => {
                return Ok(None);
            },
            Ok(Some(ReadToken::Text(class))) => class,
            Ok(Some(t)) => {
                return Err(unexpected_at(&t, &self.reader));
            },
        };
        let k = match self.create(src, &class, Ghost(x)) {
            Err(err) => {
                return Err(err);
            },
            Ok(k) => k,
        };
        proof {
            lemma_token_advances(x.lines, self@.c);
        }
        match self.reader.next_token(&src.lines) {
            Err(err) => {
                return Err(err);
            },
            Ok(Some(ReadToken::OpenBrace)) => {},
            Ok(_) => {
                return Err(KeyValues2SerializationError::ExpectedOpenBrace(self.reader.line, self.reader.col));
            },
        }
        match self.read_attributes(src, k, pf, pt, Ghost(x)) {
            Err(err) => Err(err),
            Ok(()) => Ok(Some(k)),
        }
    }

    /// Reads the top-level elements to the end of the text (`kv_elements`):
    /// the position of the root, if there is one.
    fn read_elements<F: Fn(&str) -> Option<u32>, T: Fn(&str) -> ParsedTime>(
        &mut self,
        src: &KvSource,
        pf: &F,
        pt: &T,
        Ghost(x): Ghost<KvIn>,
    ) -> (r: Result<Option<usize>, KeyValues2SerializationError>)
        requires
            source_ok(x, src),
            gives_f32(*pf, x.ft),
            gives_time(*pt, x.tt),
            cursor_ok(x.lines, old(self)@.c),
        ensures
            match kv_elements(x, old(self)@, None) {
                Ok((s, root)) => r == Ok::<Option<usize>, KeyValues2SerializationError>(root) && final(self)@ == s,
                Err(err) => r == Err::<Option<usize>, KeyValues2SerializationError>(err),
            },
    {
        let ghost s0 = self@;
        let mut root: Option<usize> = None;
        loop
            invariant
                s0 == old(self)@,
                source_ok(x, src),
                gives_f32(*pf, x.ft),
                gives_time(*pt, x.tt),
                cursor_ok(x.lines, self@.c),
                kv_elements(x, s0, None) == kv_elements(x, self@, root),
            decreases kv_measure(x.lines, self@.c),
        {
            match self.read_element(src, pf, pt, Ghost(x)) {
                Err(err) => {
                    return Err(err);
                },
                Ok(None) => {
                    return Ok(root);
                },
                Ok(Some(k)) => {
                    if root.is_none() && !same_text(self.graph.get(k).get_class(), "$prefix_element$") {
                        root = Some(k);
                    }
                },
            }
        }
    }
}

/// The elements of the attribute value `v` if it is an element array.
fn element_array_of(v: Option<&AttributeValue>) -> (r: Option<Vec<Option<usize>>>)
    ensures
        match v {
            Some(AttributeValue::ElementArray(a)) => r matches Some(b) && b@ == a@,
            _ => r is None,
        },
{
    match v {
        Some(AttributeValue::ElementArray(a)) => {
            let mut b: Vec<Option<usize>> = Vec::new();
            let mut i: usize = 0;
            while i < a.len()
                invariant
                    i <= a@.len(),
                    b@ == a@.take(i as int),
                decreases a@.len() - i,
            {
                b.push(a[i]);
                i = i + 1;
                assert(b@ =~= a@.take(i as int));
            }
            assert(a@.take(a@.len() as int) =~= a@);
            Some(b)
        },
        _ => None,
    }
}

/// Sets the places of `rs` whose ids name elements (`fill_refs`).
fn fill_places(arr: &mut Vec<Option<usize>>, rs: &Vec<(usize, UuidBytes)>, ids: &IndexMap<UuidBytes, usize>)
    ensures
        final(arr)@ == fill_refs(old(arr)@, rs@, id_map_entries(*ids)),
{
    let mut k: usize = 0;
    assert(rs@.skip(0) =~= rs@);
    while k < rs.len()
        invariant
            k <= rs@.len(),
            fill_refs(old(arr)@, rs@, id_map_entries(*ids)) == fill_refs(arr@, rs@.skip(k as int), id_map_entries(*ids)),
        decreases rs@.len() - k,
    {
        let (i, u) = rs[k];
        assert(rs@.skip(k as int).drop_first() =~= rs@.skip(k + 1));
        match id_map_get(ids, &u) {
            Some(t) => {
                if i < arr.len() {
                    arr.set(i, Some(t));
                }
            },
            None => {},
        }
        k = k + 1;
    }
}

/// Resolves the waiting references in order (`kv_apply`).
fn apply_remaps(graph: &mut ElementGraph, ids: &IndexMap<UuidBytes, usize>, remaps: &Vec<Remap>)
    ensures
        final(graph)@ == kv_apply(old(graph)@, id_map_entries(*ids), remaps@.map_values(|r: Remap| r@)),
{
    let ghost rv = remaps@.map_values(|r: Remap| r@);
    let mut k: usize = 0;
    assert(rv.skip(0) =~= rv);
    while k < remaps.len()
        invariant
            k <= remaps@.len(),
            rv == remaps@.map_values(|r: Remap| r@),
            kv_apply(old(graph)@, id_map_entries(*ids), rv) == kv_apply(graph@, id_map_entries(*ids), rv.skip(k as int)),
        decreases remaps@.len() - k,
    {
        let r = &remaps[k];
        assert(rv.skip(k as int).drop_first() =~= rv.skip(k + 1));
        assert(rv.skip(k as int)[0] == r@);
        let e = r.element;
        if e < graph.len() {
            match &r.kind {
                RemapKind::Single(u) => {
                    match id_map_get(ids, u) {
                        Some(t) => {
                            graph.set_attribute(e, string_of_string(&r.name), AttributeValue::Element(Some(t)));
                        },
                        None => {},
                    }
                },
                RemapKind::Array(rs) => {
                    let found = element_array_of(graph.get(e).get_attribute(r.name.as_str()));
                    proof {
                        let el = graph.elements@[e as int];
                        lemma_key_position_same_keys(el.entries(), entries_view(el.entries()), r.name@);
                        lemma_key_position(el.entries(), r.name@);
                        assert(graph@[e as int] == el@);
                    }
                    match found {
                        Some(mut arr) => {
                            fill_places(&mut arr, rs, ids);
                            graph.set_attribute(e, string_of_string(&r.name), AttributeValue::ElementArray(arr));
                        },
                        None => {},
                    }
                },
            }
        }
        k = k + 1;
    }
    assert(rv.skip(remaps@.len() as int) =~= Seq::<KvRemap>::empty());
}

/// A copy of a string.
fn string_of_string(s: &String) -> (r: String)
    ensures
        r@ == s@,
{
    let c = crate::text::chars_of(s.as_str());
    string_of(c.as_slice())
}

/// Reads a KeyValues2 text (`kv_read`): the elements, and the root's
/// position. The `k`-th element met takes the id `ids[k % ids.len()]` until
/// the text gives it one.
pub fn read_kv2<F: Fn(&str) -> Option<u32>, T: Fn(&str) -> ParsedTime>(
    data: &[u8],
    ids: &[UuidBytes],
    parse_float: &F,
    parse_time: &T,
) -> (r: Result<(ElementGraph, usize), KeyValues2SerializationError>)
    requires
        data@.len() < usize::MAX,
        ids@.len() > 0,
        reads_f32(*parse_float),
        reads_time(*parse_time),
    ensures
        match kv_read(KvIn { lines: kv_lines(data@), ids: ids@, ft: f32_of(*parse_float), tt: time_of(*parse_time) }) {
            Ok((g, root)) => r matches Ok((graph, k)) && graph@ == g && k == root,
            Err(e) => r matches Err(e2) && e2 == e,
        },
{
    let ghost x = KvIn { lines: kv_lines(data@), ids: ids@, ft: f32_of(*parse_float), tt: time_of(*parse_time) };
    proof {
        lemma_gives_f32(*parse_float);
        lemma_gives_time(*parse_time);
    }
    let mut id_list: Vec<UuidBytes> = Vec::new();
    let mut i: usize = 0;
    while i < ids.len()
        invariant
            i <= ids@.len(),
            id_list@ == ids@.take(i as int),
        decreases ids@.len() - i,
    {
        id_list.push(ids[i]);
        i = i + 1;
        assert(id_list@ =~= ids@.take(i as int));
    }
    assert(ids@.take(ids@.len() as int) =~= ids@);
    let src = KvSource { lines: split_lines(data), ids: id_list };
    let mut parser = KvParser::new();
    let root = match parser.read_elements(&src, parse_float, parse_time, Ghost(x)) {
        Err(e) => {
            return Err(e);
        },
        Ok(root) => root,
    };
    let KvParser { reader: _, graph: mut graph, ids: table, remaps } = parser;
    apply_remaps(&mut graph, &table, &remaps);
    match root {
        Some(k) => Ok((graph, k)),
        None => Err(KeyValues2SerializationError::NoElements),
    }
}

} // verus!
