//! The binary encoding of element graphs.

use vstd::prelude::*;
use crate::attribute::{strings_view, AttributeValue};
use crate::element::{Element, ElementGraph, ElementView};
use crate::ids::parse_uuid;
use crate::serializers::binary_document::{
    external_element, item_header, name_key, p_body, p_body_entries, p_body_entry, p_body_value,
    p_bodies, p_header, p_prefix, p_prefix_entries, p_prefix_entry, p_ref, p_refs, p_table,
    table_element, decode_binary, p_document, p_elements, GRead, SPos, BINARY_VERSION,
};
use crate::serializers::binary_error::BinarySerializationError;
use crate::serializers::binary_format::{
    array_offset, is_element_array_type, p_many, p_versioned_string, SpecBinaryError,
    ATTRIBUTE_ELEMENT_ID, ATTRIBUTE_INITIAL_ARRAY_OFFSET, ATTRIBUTE_STRING_ID,
    ATTRIBUTE_UNSIGNED_INTEGERS_ARRAY_OFFSET, ELEMENT_INDEX_EXTERNAL, ELEMENT_INDEX_NULL,
    VERSION_DEPRECATE_LINK_TYPE, VERSION_GLOBAL_STRING_TABLE, VERSION_LARGE_STRING_INDEX,
    VERSION_LINK_TYPE, VERSION_PREFIX_ELEMENT, VERSION_STRING_TABLE, VERSION_UNSIGNED_INTEGERS,
};
use crate::serializers::binary_read::{
    array_size_check, get_string_table_index, lemma_p_many_err, step_view, Reader,
};
use crate::serializing::{binary_name, spec_create_header, Header};
use crate::collections::{string_set_items, string_set_len};
use crate::serializers::binary_encode::{enc_bodies, enc_headers, enc_table, encode_binary};
use crate::serializers::binary_format::{enc_i32, wrap_i32, MAX_ARRAY_SIZE, MAX_SHORT_ARRAY_SIZE};
use crate::serializers::binary_write::{count_i16, count_i32, Writer};
use crate::serializers::collect::{collect_elements, collect_strings, graph_refs_in};
use crate::text::{chars_eq, chars_of, string_of};

verus! {

/// A reading step that gives no value.
pub open spec fn pos_step(r: Result<(), BinarySerializationError>, pos: usize, s: SPos) -> bool {
    match s {
        Ok(q) => r is Ok && pos == q,
        Err(e) => r matches Err(x) && x@ == e,
    }
}

/// A reading step that may add elements to a graph.
pub open spec fn graph_step<T, V>(
    r: Result<T, BinarySerializationError>,
    pos: usize,
    g: Seq<ElementView>,
    s: GRead<V>,
    view: spec_fn(T) -> V,
) -> bool {
    match s {
        Ok((v, es, q)) => r matches Ok(x) && view(x) == v && g == es && pos == q,
        Err(e) => r matches Err(x) && x@ == e,
    }
}

/// A reading step that changes a graph and gives no value.
pub open spec fn graph_pos_step(
    r: Result<(), BinarySerializationError>,
    pos: usize,
    g: Seq<ElementView>,
    s: Result<(Seq<ElementView>, int), SpecBinaryError>,
) -> bool {
    match s {
        Ok((es, q)) => r is Ok && g == es && pos == q,
        Err(e) => r matches Err(x) && x@ == e,
    }
}

proof fn lemma_prefix_entries_err(d: Seq<u8>, p: int, version: i32, k: nat, n: nat)
    requires
        k <= n,
        p_prefix_entries(d, p, version, k) is Err,
    ensures
        p_prefix_entries(d, p, version, n) == p_prefix_entries(d, p, version, k),
    decreases n - k,
{
    if k < n {
        lemma_prefix_entries_err(d, p, version, k, (n - 1) as nat);
    }
}

proof fn lemma_refs_err(d: Seq<u8>, p: int, n: int, es: Seq<ElementView>, k: nat, m: nat)
    requires
        k <= m,
        p_refs(d, p, n, es, k) is Err,
    ensures
        p_refs(d, p, n, es, m) == p_refs(d, p, n, es, k),
    decreases m - k,
{
    if k < m {
        lemma_refs_err(d, p, n, es, k, (m - 1) as nat);
    }
}

proof fn lemma_body_entries_err(
    d: Seq<u8>,
    p: int,
    version: i32,
    table: Seq<Seq<char>>,
    n: int,
    es: Seq<ElementView>,
    idx: int,
    k: nat,
    m: nat,
)
    requires
        k <= m,
        p_body_entries(d, p, version, table, n, es, idx, k) is Err,
    ensures
        p_body_entries(d, p, version, table, n, es, idx, m) == p_body_entries(d, p, version, table, n, es, idx, k),
    decreases m - k,
{
    if k < m {
        lemma_body_entries_err(d, p, version, table, n, es, idx, k, (m - 1) as nat);
    }
}

proof fn lemma_bodies_err(
    d: Seq<u8>,
    p: int,
    version: i32,
    table: Seq<Seq<char>>,
    n: int,
    es: Seq<ElementView>,
    k: nat,
    m: nat,
)
    requires
        k <= m,
        p_bodies(d, p, version, table, n, es, k) is Err,
    ensures
        p_bodies(d, p, version, table, n, es, m) == p_bodies(d, p, version, table, n, es, k),
    decreases m - k,
{
    if k < m {
        lemma_bodies_err(d, p, version, table, n, es, k, (m - 1) as nat);
    }
}

/// The offset from single to array type ids in a version.
pub fn array_type_offset(version: i32) -> (r: i8)
    ensures
        r as int == array_offset(version),
{
    if version >= VERSION_UNSIGNED_INTEGERS {
        ATTRIBUTE_UNSIGNED_INTEGERS_ARRAY_OFFSET
    } else {
        ATTRIBUTE_INITIAL_ARRAY_OFFSET
    }
}

/// The class of elements that a document names only by id.
fn default_class() -> (r: String)
    ensures
        r@ == external_element(seq![]).class,
{
    let c = vec!['D', 'm', 'E', 'l', 'e', 'm', 'e', 'n', 't'];
    string_of(c.as_slice())
}

impl<'a> Reader<'a> {
    /// Reads a string that the version stores as a 32-bit table index from
    /// `wide_from`, as a 16-bit one from `short_from`, and inline before that.
    pub fn read_versioned_string(
        &mut self,
        version: i32,
        wide_from: i32,
        short_from: i32,
        table: &Vec<String>,
    ) -> (r: Result<String, BinarySerializationError>)
        ensures
            final(self).data@ == old(self).data@,
            step_view(
                r,
                final(self).pos,
                p_versioned_string(old(self).d(), old(self).pos as int, version, wide_from, short_from, strings_view(table@)),
                |s: String| s@,
            ),
    {
        if version >= wide_from {
            let i = self.read_integer()?;
            get_string_table_index(i, table)
        } else if version >= short_from {
            let i = self.read_short()?;
            get_string_table_index(i as i32, table)
        } else {
            Ok(self.read_string())
        }
    }

    /// Reads one attribute of the prefix element and drops it.
    fn read_prefix_entry(&mut self, version: i32) -> (r: Result<(), BinarySerializationError>)
        ensures
            final(self).data@ == old(self).data@,
            pos_step(r, final(self).pos, p_prefix_entry(old(self).d(), old(self).pos as int, version)),
    {
        reveal(p_prefix_entry);
        let _ = self.read_string();
        let ty = self.read_byte()?;
        let offset = array_type_offset(version);
        if ty == ATTRIBUTE_ELEMENT_ID || ty == ATTRIBUTE_ELEMENT_ID + offset {
            return Err(BinarySerializationError::InvalidPrefixElementAttribute);
        }
        if ty == ATTRIBUTE_STRING_ID {
            let _ = self.read_string();
            return Ok(());
        }
        let _ = self.read_attribute(version, ty)?;
        Ok(())
    }

    /// Reads the prefix element, if the version has one, and drops it.
    pub fn read_prefix(&mut self, version: i32) -> (r: Result<(), BinarySerializationError>)
        ensures
            final(self).data@ == old(self).data@,
            pos_step(r, final(self).pos, p_prefix(old(self).d(), old(self).pos as int, version)),
    {
        if version >= VERSION_PREFIX_ELEMENT {
            let flag = self.read_integer()?;
            if flag != 0 {
                let n = self.read_size()?;
                let ghost d0 = self.d();
                let ghost p0 = self.pos as int;
                let mut i: usize = 0;
                while i < n
                    invariant
                        self.d() == d0,
                        d0 == old(self).d(),
                        i <= n,
                        p_prefix(d0, old(self).pos as int, version) == p_prefix_entries(d0, p0, version, n as nat),
                        p_prefix_entries(d0, p0, version, i as nat) == Ok::<int, SpecBinaryError>(self.pos as int),
                    decreases n - i,
                {
                    match self.read_prefix_entry(version) {
                        Ok(()) => {},
                        Err(e) => {
                            proof {
                                lemma_prefix_entries_err(d0, p0, version, (i + 1) as nat, n as nat);
                            }
                            return Err(e);
                        },
                    }
                    i = i + 1;
                }
            }
        }
        Ok(())
    }

    /// Reads the string table.
    pub fn read_table(&mut self, version: i32) -> (r: Result<Vec<String>, BinarySerializationError>)
        ensures
            final(self).data@ == old(self).data@,
            step_view(r, final(self).pos, p_table(old(self).d(), old(self).pos as int, version), |t: Vec<String>| strings_view(t@)),
    {
        let n: usize = if version >= VERSION_GLOBAL_STRING_TABLE {
            self.read_size()?
        } else if version >= VERSION_STRING_TABLE {
            let s = self.read_short()?;
            array_size_check(s as i32)?
        } else {
            0
        };
        Ok(self.read_strings(n))
    }

    /// Reads one entry of the element table.
    pub fn read_header(&mut self, version: i32, table: &Vec<String>) -> (r: Result<Element, BinarySerializationError>)
        ensures
            final(self).data@ == old(self).data@,
            step_view(r, final(self).pos, p_header(old(self).d(), old(self).pos as int, version, strings_view(table@)), |e: Element| e@),
    {
        reveal(p_header);
        let class = self.read_versioned_string(version, VERSION_LARGE_STRING_INDEX, VERSION_STRING_TABLE, table)?;
        if VERSION_LINK_TYPE <= version && version < VERSION_DEPRECATE_LINK_TYPE {
            let _ = self.read_integer()?;
        }
        let name = self.read_versioned_string(version, VERSION_LARGE_STRING_INDEX, VERSION_GLOBAL_STRING_TABLE, table)?;
        let id = self.read_uuid()?;
        let ghost class_view = class@;
        let ghost name_view = name@;
        let mut e = Element::full(class, id);
        let key = vec!['n', 'a', 'm', 'e'];
        let key = string_of(key.as_slice());
        assert(key@ == name_key());
        e.set_attribute(key, AttributeValue::String(name));
        assert(e@ == table_element(class_view, name_view, id@)) by {
            assert(e@.attributes =~= seq![(name_key(), crate::attribute::SpecAttributeValue::String(name_view))]);
        }
        Ok(e)
    }

    /// Reads the `n` entries of the element table into a new graph.
    pub fn read_headers(&mut self, version: i32, table: &Vec<String>, n: usize) -> (r: Result<ElementGraph, BinarySerializationError>)
        ensures
            final(self).data@ == old(self).data@,
            step_view(
                r,
                final(self).pos,
                p_many(old(self).d(), old(self).pos as int, n as nat, item_header(version, strings_view(table@))),
                |g: ElementGraph| g@,
            ),
            r matches Ok(g) ==> g@.len() == n,
    {
        let ghost d0 = self.d();
        let ghost p0 = self.pos as int;
        let ghost t = strings_view(table@);
        let mut g = ElementGraph::new();
        assert(g@ =~= Seq::<ElementView>::empty());
        let mut i: usize = 0;
        while i < n
            invariant
                self.d() == d0,
                d0 == old(self).d(),
                p0 == old(self).pos,
                t == strings_view(table@),
                i <= n,
                g@.len() == i,
                p_many(d0, p0, i as nat, item_header(version, t)) == Ok::<_, SpecBinaryError>((g@, self.pos as int)),
            decreases n - i,
        {
            let e = match self.read_header(version, table) {
                Ok(e) => e,
                Err(err) => {
                    proof {
                        lemma_p_many_err(d0, p0, (i + 1) as nat, n as nat, item_header(version, t));
                    }
                    return Err(err);
                },
            };
            g.add(e);
            i = i + 1;
        }
        Ok(g)
    }
}

impl<'a> Reader<'a> {
    /// Reads a reference to an element of a table of `n` elements; an element
    /// named only by id is added to the graph.
    pub fn read_ref(&mut self, n: usize, graph: &mut ElementGraph) -> (r: Result<Option<usize>, BinarySerializationError>)
        ensures
            final(self).data@ == old(self).data@,
            final(graph)@.len() >= old(graph)@.len(),
            graph_step(r, final(self).pos, final(graph)@, p_ref(old(self).d(), old(self).pos as int, n as int, old(graph)@), |x: Option<usize>| x),
    {
        let index = self.read_integer()?;
        if index < ELEMENT_INDEX_EXTERNAL || (index >= 0 && index as usize >= n) {
            return Err(BinarySerializationError::InvalidElementTableIndex { index, size: n });
        }
        if index == ELEMENT_INDEX_NULL {
            return Ok(None);
        }
        if index == ELEMENT_INDEX_EXTERNAL {
            let text = self.read_string();
            return match parse_uuid(text.as_str()) {
                Ok(id) => {
                    let e = Element::full(default_class(), id);
                    assert(e@ == external_element(id@)) by {
                        assert(e@.attributes =~= Seq::<(Seq<char>, crate::attribute::SpecAttributeValue)>::empty());
                    }
                    let position = graph.add(e);
                    Ok(Some(position))
                },
                Err(e) => Err(BinarySerializationError::UUIDParseError(e)),
            };
        }
        Ok(Some(index as usize))
    }

    /// Reads `k` element references.
    pub fn read_refs(&mut self, n: usize, graph: &mut ElementGraph, k: usize) -> (r: Result<Vec<Option<usize>>, BinarySerializationError>)
        ensures
            final(self).data@ == old(self).data@,
            final(graph)@.len() >= old(graph)@.len(),
            graph_step(r, final(self).pos, final(graph)@, p_refs(old(self).d(), old(self).pos as int, n as int, old(graph)@, k as nat), |x: Vec<Option<usize>>| x@),
    {
        let ghost d0 = self.d();
        let ghost p0 = self.pos as int;
        let ghost g0 = graph@;
        let mut v: Vec<Option<usize>> = Vec::new();
        let mut i: usize = 0;
        while i < k
            invariant
                self.d() == d0,
                d0 == old(self).d(),
                p0 == old(self).pos,
                g0 == old(graph)@,
                graph@.len() >= g0.len(),
                i <= k,
                p_refs(d0, p0, n as int, g0, i as nat) == Ok::<_, SpecBinaryError>((v@, graph@, self.pos as int)),
            decreases k - i,
        {
            let x = match self.read_ref(n, graph) {
                Ok(x) => x,
                Err(e) => {
                    proof {
                        lemma_refs_err(d0, p0, n as int, g0, (i + 1) as nat, k as nat);
                    }
                    return Err(e);
                },
            };
            v.push(x);
            i = i + 1;
        }
        Ok(v)
    }

    /// Reads an attribute value of type id `ty` in the element bodies.
    pub fn read_body_value(
        &mut self,
        version: i32,
        table: &Vec<String>,
        n: usize,
        graph: &mut ElementGraph,
        ty: i8,
    ) -> (r: Result<AttributeValue, BinarySerializationError>)
        ensures
            final(self).data@ == old(self).data@,
            final(graph)@.len() >= old(graph)@.len(),
            graph_step(
                r,
                final(self).pos,
                final(graph)@,
                p_body_value(old(self).d(), old(self).pos as int, version, strings_view(table@), n as int, old(graph)@, ty),
                |v: AttributeValue| v@,
            ),
    {
        reveal(p_body_value);
        let offset = array_type_offset(version);
        if ty == ATTRIBUTE_ELEMENT_ID {
            let x = self.read_ref(n, graph)?;
            Ok(AttributeValue::Element(x))
        } else if ty == ATTRIBUTE_ELEMENT_ID + offset {
            let k = self.read_size()?;
            let xs = self.read_refs(n, graph, k)?;
            Ok(AttributeValue::ElementArray(xs))
        } else if ty == ATTRIBUTE_STRING_ID {
            let s = self.read_versioned_string(version, VERSION_LARGE_STRING_INDEX, VERSION_GLOBAL_STRING_TABLE, table)?;
            Ok(AttributeValue::String(s))
        } else {
            self.read_attribute(version, ty)
        }
    }

    /// Reads one attribute of element `idx` and sets it on the element.
    pub fn read_body_entry(
        &mut self,
        version: i32,
        table: &Vec<String>,
        n: usize,
        graph: &mut ElementGraph,
        idx: usize,
    ) -> (r: Result<(), BinarySerializationError>)
        requires
            idx < n <= old(graph)@.len(),
        ensures
            final(self).data@ == old(self).data@,
            final(graph)@.len() >= old(graph)@.len(),
            graph_pos_step(
                r,
                final(self).pos,
                final(graph)@,
                p_body_entry(old(self).d(), old(self).pos as int, version, strings_view(table@), n as int, old(graph)@, idx as int),
            ),
    {
        let name = self.read_versioned_string(version, VERSION_LARGE_STRING_INDEX, VERSION_STRING_TABLE, table)?;
        let ty = self.read_byte()?;
        let v = self.read_body_value(version, table, n, graph, ty)?;
        graph.set_attribute(idx, name, v);
        Ok(())
    }

    /// Reads the attributes of element `idx`.
    pub fn read_body(
        &mut self,
        version: i32,
        table: &Vec<String>,
        n: usize,
        graph: &mut ElementGraph,
        idx: usize,
    ) -> (r: Result<(), BinarySerializationError>)
        requires
            idx < n <= old(graph)@.len(),
        ensures
            final(self).data@ == old(self).data@,
            final(graph)@.len() >= old(graph)@.len(),
            graph_pos_step(
                r,
                final(self).pos,
                final(graph)@,
                p_body(old(self).d(), old(self).pos as int, version, strings_view(table@), n as int, old(graph)@, idx as int),
            ),
    {
        let k = self.read_size()?;
        let ghost d0 = self.d();
        let ghost p0 = self.pos as int;
        let ghost g0 = graph@;
        let ghost t = strings_view(table@);
        let mut i: usize = 0;
        while i < k
            invariant
                self.d() == d0,
                d0 == old(self).d(),
                g0 == old(graph)@,
                t == strings_view(table@),
                idx < n <= g0.len() <= graph@.len(),
                i <= k,
                p_body(d0, old(self).pos as int, version, t, n as int, g0, idx as int)
                    == p_body_entries(d0, p0, version, t, n as int, g0, idx as int, k as nat),
                p_body_entries(d0, p0, version, t, n as int, g0, idx as int, i as nat)
                    == Ok::<_, SpecBinaryError>((graph@, self.pos as int)),
            decreases k - i,
        {
            match self.read_body_entry(version, table, n, graph, idx) {
                Ok(()) => {},
                Err(e) => {
                    proof {
                        lemma_body_entries_err(d0, p0, version, t, n as int, g0, idx as int, (i + 1) as nat, k as nat);
                    }
                    return Err(e);
                },
            }
            i = i + 1;
        }
        Ok(())
    }

    /// Reads the attributes of all `n` table elements in order.
    pub fn read_bodies(
        &mut self,
        version: i32,
        table: &Vec<String>,
        n: usize,
        graph: &mut ElementGraph,
    ) -> (r: Result<(), BinarySerializationError>)
        requires
            n <= old(graph)@.len(),
        ensures
            final(self).data@ == old(self).data@,
            graph_pos_step(
                r,
                final(self).pos,
                final(graph)@,
                p_bodies(old(self).d(), old(self).pos as int, version, strings_view(table@), n as int, old(graph)@, n as nat),
            ),
    {
        let ghost d0 = self.d();
        let ghost p0 = self.pos as int;
        let ghost g0 = graph@;
        let ghost t = strings_view(table@);
        let mut i: usize = 0;
        while i < n
            invariant
                self.d() == d0,
                d0 == old(self).d(),
                p0 == old(self).pos,
                g0 == old(graph)@,
                t == strings_view(table@),
                n <= g0.len() <= graph@.len(),
                i <= n,
                p_bodies(d0, p0, version, t, n as int, g0, i as nat) == Ok::<_, SpecBinaryError>((graph@, self.pos as int)),
            decreases n - i,
        {
            match self.read_body(version, table, n, graph, i) {
                Ok(()) => {},
                Err(e) => {
                    proof {
                        lemma_bodies_err(d0, p0, version, t, n as int, g0, (i + 1) as nat, n as nat);
                    }
                    return Err(e);
                },
            }
            i = i + 1;
        }
        Ok(())
    }
}

impl<'a> Reader<'a> {
    /// Reads the string table, the element table and the element attributes.
    pub fn read_elements(&mut self, version: i32) -> (r: Result<ElementGraph, BinarySerializationError>)
        ensures
            match p_elements(old(self).d(), old(self).pos as int, version) {
                Ok(es) => r matches Ok(g) && g@ == es,
                Err(e) => r matches Err(x) && x@ == e,
            },
    {
        let ghost d = self.d();
        let table = match self.read_table(version) {
            Ok(t) => t,
            Err(e) => return Err(e),
        };
        let ghost t = strings_view(table@);
        let ghost p3 = self.pos as int;
        let n = match self.read_size() {
            Ok(n) => n,
            Err(e) => return Err(e),
        };
        let ghost p4 = self.pos as int;
        let mut graph = match self.read_headers(version, &table, n) {
            Ok(g) => g,
            Err(e) => return Err(e),
        };
        let ghost es = graph@;
        let ghost p5 = self.pos as int;
        match self.read_bodies(version, &table, n, &mut graph) {
            Ok(()) => {},
            Err(e) => return Err(e),
        }
        proof {
            assert(p_bodies(d, p5, version, t, n as int, es, n as nat) matches Ok((es1, _)) && es1 == graph@);
        }
        if n == 0 {
            return Err(BinarySerializationError::NoElements);
        }
        Ok(graph)
    }
}

/// The binary encoding.
pub struct BinarySerializer;

impl BinarySerializer {
    /// The name of the encoding in file headers.
    pub fn name() -> (r: &'static str)
        ensures
            r@ == binary_name(),
    {
        let r = "binary";
        proof {
            reveal_strlit("binary");
        }
        r
    }

    /// The newest version of the encoding.
    pub fn version() -> (r: i32)
        ensures
            r == BINARY_VERSION,
    {
        BINARY_VERSION
    }

    /// Writes the elements that `root` reaches as a binary document of the
    /// given version, starting with the header line.
    pub fn serialize_version(header: &Header, graph: &ElementGraph, root: usize, version: i32) -> (r: Result<Vec<u8>, BinarySerializationError>)
        requires
            root < graph@.len(),
            graph_refs_in(graph@),
        ensures
            match encode_binary(
                spec_create_header(header.format@, header.format_version, binary_name(), version),
                graph@,
                root,
                version,
            ) {
                Ok(b) => r matches Ok(x) && x@ == b,
                Err(e) => r matches Err(x) && x@ == e,
            },
    {
        if version < 1 || version > BINARY_VERSION {
            return Err(BinarySerializationError::InvalidVersion { version });
        }
        let mut writer = Writer::new();
        let text = header.create_header(Self::name(), version);
        writer.write_string(text.as_str());
        if version >= VERSION_PREFIX_ELEMENT {
            writer.write_integer(0);
        }
        let ghost head = writer.buffer@;
        let (order, ids) = collect_elements(graph, root);
        let table = collect_strings(graph, &order, version);
        let max = if version >= VERSION_GLOBAL_STRING_TABLE {
            MAX_ARRAY_SIZE
        } else {
            MAX_SHORT_ARRAY_SIZE
        };
        let string_count = string_set_len(&table);
        if string_count > max {
            return Err(BinarySerializationError::TooManyStrings { count: string_count, max });
        }
        if version >= VERSION_STRING_TABLE {
            if version >= VERSION_GLOBAL_STRING_TABLE {
                writer.write_integer(count_i32(string_count));
            } else {
                writer.write_short(count_i16(string_count));
            }
            writer.write_table_strings(&table);
        }
        let ghost with_table = writer.buffer@;
        assert(with_table =~= head + enc_table(version, string_set_items(table)));
        if order.len() > MAX_ARRAY_SIZE {
            return Err(BinarySerializationError::TooManyElements { count: order.len() });
        }
        writer.write_integer(count_i32(order.len()));
        writer.write_headers(graph, &order, &ids, version, &table)?;
        let ghost with_headers = writer.buffer@;
        writer.write_bodies(graph, &order, &ids, version, &table)?;
        proof {
            let g = graph@;
            let t = string_set_items(table);
            let hb = enc_headers(g, order@, version, t, order@.len())->Ok_0;
            let bb = enc_bodies(g, order@, version, t, order@.len())->Ok_0;
            assert(writer.buffer@ =~= head + enc_table(version, t) + enc_i32(wrap_i32(order@.len() as int)) + hb + bb);
        }
        Ok(writer.buffer)
    }

    /// Writes the elements that `root` reaches as a binary document of the
    /// newest version.
    pub fn serialize(header: &Header, graph: &ElementGraph, root: usize) -> (r: Result<Vec<u8>, BinarySerializationError>)
        requires
            root < graph@.len(),
            graph_refs_in(graph@),
        ensures
            match encode_binary(
                spec_create_header(header.format@, header.format_version, binary_name(), BINARY_VERSION),
                graph@,
                root,
                BINARY_VERSION,
            ) {
                Ok(b) => r matches Ok(x) && x@ == b,
                Err(e) => r matches Err(x) && x@ == e,
            },
    {
        Self::serialize_version(header, graph, root, Self::version())
    }

    /// Reads the elements of a binary document whose header line has been
    /// read: `data` starts with the rest of that line. The root element is at
    /// position 0 of the graph.
    pub fn deserialize(data: &[u8], encoding: String, version: i32) -> (r: Result<ElementGraph, BinarySerializationError>)
        ensures
            match decode_binary(data@, encoding@, version) {
                Ok(es) => r matches Ok(g) && g@ == es,
                Err(e) => r matches Err(x) && x@ == e,
            },
    {
        if version < 1 || version > BINARY_VERSION {
            return Err(BinarySerializationError::InvalidVersion { version });
        }
        let name = vec!['b', 'i', 'n', 'a', 'r', 'y'];
        assert(name@ == binary_name());
        let encoding_chars = chars_of(encoding.as_str());
        if !chars_eq(encoding_chars.as_slice(), name.as_slice()) {
            return Err(BinarySerializationError::WrongEncoding);
        }
        let mut reader = Reader::new(data);
        let _ = reader.read_string();
        reader.read_prefix(version)?;
        reader.read_elements(version)
    }
}

} // verus!
