//! Valve's KeyValues2 text encodings of element graphs.
//!
//! Numbers with a fractional part are written by functions that the caller
//! passes: the text of an `f32` given by its bit pattern, and the text of a
//! time given in ten-thousandths of a second.

use vstd::prelude::*;
use indexmap::IndexMap;
use crate::attribute::UuidBytes;
use crate::element::ElementGraph;
use crate::serializers::collect::graph_refs_in;
use crate::serializers::keyvalues2_collect::{kv_collect_all, kv_collect_elements};
use crate::serializers::keyvalues2_encode::{encode_kv2, kv_block, kv_tops, KvText, KEYVALUES2_VERSION};
use crate::serializers::keyvalues2_error::KeyValues2SerializationError;
use crate::serializers::keyvalues2_text::{escape, line, quoted, StringWriter};
use crate::serializers::keyvalues2_write::{gives_i32, gives_u32, kv_write_ctx, push_escaped, push_quoted};
use crate::serializing::{keyvalues2_flat_name, keyvalues2_name, spec_create_header, Header};
use crate::text::{chars_of, same_text, string_of};
use crate::ids::new_v4;
use crate::serializers::keyvalues2_parse::{decode_kv2, decode_kv2_flat};
use crate::serializers::keyvalues2_read::read_kv2;
use crate::serializers::keyvalues2_values::{f32_of, reads_f32, reads_time, time_of, ParsedTime};

verus! {

/// A function that gives one text for each argument.
pub open spec fn one_text_u32<F: Fn(u32) -> String>(f: F) -> bool {
    &&& forall|b: u32| call_requires(f, (b,))
    &&& forall|b: u32, s1: String, s2: String| call_ensures(f, (b,), s1) && call_ensures(f, (b,), s2) ==> s1@ == s2@
}

/// A function that gives one text for each argument.
pub open spec fn one_text_i32<T: Fn(i32) -> String>(f: T) -> bool {
    &&& forall|v: i32| call_requires(f, (v,))
    &&& forall|v: i32, s1: String, s2: String| call_ensures(f, (v,), s1) && call_ensures(f, (v,), s2) ==> s1@ == s2@
}

/// The text that `f` gives for each bit pattern.
pub open spec fn text_of_u32<F: Fn(u32) -> String>(f: F) -> spec_fn(u32) -> Seq<char> {
    |b: u32| (choose|s: String| call_ensures(f, (b,), s))@
}

/// The text that `f` gives for each time.
pub open spec fn text_of_i32<T: Fn(i32) -> String>(f: T) -> spec_fn(i32) -> Seq<char> {
    |v: i32| (choose|s: String| call_ensures(f, (v,), s))@
}

proof fn lemma_gives_u32<F: Fn(u32) -> String>(f: F)
    requires
        one_text_u32(f),
    ensures
        gives_u32(f, text_of_u32(f)),
{
    assert forall|b: u32, s: String| call_ensures(f, (b,), s) implies s@ == text_of_u32(f)(b) by {
        let c = choose|c: String| call_ensures(f, (b,), c);
        assert(call_ensures(f, (b,), c));
    }
}

proof fn lemma_gives_i32<T: Fn(i32) -> String>(f: T)
    requires
        one_text_i32(f),
    ensures
        gives_i32(f, text_of_i32(f)),
{
    assert forall|v: i32, s: String| call_ensures(f, (v,), s) implies s@ == text_of_i32(f)(v) by {
        let c = choose|c: String| call_ensures(f, (v,), c);
        assert(call_ensures(f, (v,), c));
    }
}

/// An error among the first `k` top-level elements is the error of all of them.
proof fn lemma_kv_tops_err(x: KvText, fuel: nat, k: nat, m: nat)
    requires
        k <= m,
        kv_tops(x, fuel, k) is Err,
    ensures
        kv_tops(x, fuel, m) == kv_tops(x, fuel, k),
    decreases m - k,
{
    if k < m {
        lemma_kv_tops_err(x, fuel, k, (m - 1) as nat);
    }
}

/// Writes the elements that `root` reaches as KeyValues2 text, flat or not.
fn write_kv2<F: Fn(u32) -> String, T: Fn(i32) -> String>(
    header: &Header,
    graph: &ElementGraph,
    root: usize,
    version: i32,
    flat: bool,
    name: &str,
    float_text: &F,
    time_text: &T,
) -> (r: Result<String, KeyValues2SerializationError>)
    requires
        root < graph@.len(),
        graph_refs_in(graph@),
        graph@.len() < usize::MAX / 4,
        one_text_u32(*float_text),
        one_text_i32(*time_text),
    ensures
        match encode_kv2(
            spec_create_header(header.format@, header.format_version, name@, version),
            graph@,
            root,
            version,
            flat,
            text_of_u32(*float_text),
            text_of_i32(*time_text),
        ) {
            Ok(t) => r matches Ok(s) && s@ == t,
            Err(e) => r == Err::<String, KeyValues2SerializationError>(e),
        },
{
    if version < 1 || version > KEYVALUES2_VERSION {
        return Err(KeyValues2SerializationError::InvalidEncodingVersion);
    }
    proof {
        lemma_gives_u32(*float_text);
        lemma_gives_i32(*time_text);
    }
    let ghost g = graph@;
    let mut writer = StringWriter::new();
    let text = header.create_header(name, version);
    writer.write_header(text.as_str());
    let ghost head = writer.out@;
    assert(head =~= spec_create_header(header.format@, header.format_version, name@, version));
    let (order, top, ids) = kv_collect_elements(graph, root, flat);
    let ghost x = KvText { g, c: order@, top: top@, ft: text_of_u32(*float_text), tt: text_of_i32(*time_text) };
    let fuel = graph.elements.len();
    let n = order.len();
    let mut k: usize = 0;
    while k < n
        invariant
            g == graph@,
            kv_write_ctx(x, g, order@, top@, crate::collections::id_map_entries(ids)),
            gives_u32(*float_text, x.ft),
            gives_i32(*time_text, x.tt),
            fuel == g.len(),
            fuel < usize::MAX / 4,
            n == order@.len(),
            k <= n,
            writer.tab_index == 0,
            kv_tops(x, fuel as nat, k as nat) matches Ok(a) && writer.out@ == head + a,
            crate::serializers::keyvalues2_collect::kv_state(order@, top@) == kv_collect_all(g, root, flat),
            x == (KvText { g, c: order@, top: top@, ft: text_of_u32(*float_text), tt: text_of_i32(*time_text) }),
            head == spec_create_header(header.format@, header.format_version, name@, version),
            1 <= version <= KEYVALUES2_VERSION,
        decreases n - k,
    {
        let ghost prev = kv_tops(x, fuel as nat, k as nat)->Ok_0;
        if top[k] {
            let r = order[k];
            let mut class: Vec<char> = Vec::new();
            push_escaped(&mut class, graph.elements[r].class.as_str());
            let mut qc: Vec<char> = Vec::new();
            push_quoted(&mut qc, class.as_slice());
            writer.write_line(qc.as_slice());
            match writer.write_block(graph, &order, &top, &ids, float_text, time_text, Ghost(x), r, fuel) {
                Ok(()) => {},
                Err(e) => {
                    proof {
                        assert(kv_tops(x, fuel as nat, (k + 1) as nat) == Err::<Seq<char>, KeyValues2SerializationError>(e));
                        lemma_kv_tops_err(x, fuel as nat, (k + 1) as nat, n as nat);
                    }
                    return Err(e);
                },
            }
            writer.write_close_brace();
            let empty: Vec<char> = Vec::new();
            writer.write_line(empty.as_slice());
            proof {
                let b = kv_block(x, r, 0, fuel as nat)->Ok_0;
                assert(empty@ =~= Seq::<char>::empty());
                assert(writer.out@ =~= head + (prev + line(0, quoted(escape(g[r as int].class))) + b + line(0, seq!['}']) + line(0, seq![])));
            }
        }
        k = k + 1;
    }
    Ok(string_of(writer.out.as_slice()))
}

/// The number of opening braces among some bytes.
pub open spec fn brace_count(d: Seq<u8>) -> nat
    decreases d.len(),
{
    if d.len() == 0 {
        0
    } else {
        brace_count(d.drop_last()) + if d.last() == 123 {
            1nat
        } else {
            0nat
        }
    }
}

/// One new random id for each element that the text `data` can hold (each
/// element is followed by an opening brace), and one more.
pub fn new_ids(data: &[u8]) -> (r: Vec<UuidBytes>)
    requires
        data@.len() < usize::MAX,
    ensures
        r@.len() == brace_count(data@) + 1,
{
    let mut n: usize = 1;
    let mut i: usize = 0;
    while i < data.len()
        invariant
            i <= data@.len() < usize::MAX,
            n == brace_count(data@.take(i as int)) + 1,
            brace_count(data@.take(i as int)) <= i,
        decreases data@.len() - i,
    {
        assert(data@.take(i + 1).drop_last() =~= data@.take(i as int));
        if data[i] == 123 {
            n = n + 1;
        }
        i = i + 1;
    }
    assert(data@.take(data@.len() as int) =~= data@);
    let mut ids: Vec<UuidBytes> = Vec::new();
    while ids.len() < n
        invariant
            ids@.len() <= n,
        decreases n - ids@.len(),
    {
        ids.push(new_v4());
    }
    ids
}

/// Valve's KeyValues2 encoding: ASCII text in which each element is written
/// inside the attribute that first refers to it, unless it is referred to again.
pub struct KeyValues2Serializer;

impl KeyValues2Serializer {
    /// The name of the encoding in file headers.
    pub fn name() -> (r: &'static str)
        ensures
            r@ == keyvalues2_name(),
    {
        let r = "keyvalues2";
        proof {
            reveal_strlit("keyvalues2");
        }
        r
    }

    /// The newest version of the encoding.
    pub fn version() -> (r: i32)
        ensures
            r == KEYVALUES2_VERSION,
    {
        KEYVALUES2_VERSION
    }

    /// Writes the elements that `root` reaches as text of the given version,
    /// starting with the header line.
    pub fn serialize_version<F: Fn(u32) -> String, T: Fn(i32) -> String>(
        header: &Header,
        graph: &ElementGraph,
        root: usize,
        version: i32,
        float_text: &F,
        time_text: &T,
    ) -> (r: Result<String, KeyValues2SerializationError>)
        requires
            root < graph@.len(),
            graph_refs_in(graph@),
            graph@.len() < usize::MAX / 4,
            one_text_u32(*float_text),
            one_text_i32(*time_text),
        ensures
            match encode_kv2(
                spec_create_header(header.format@, header.format_version, keyvalues2_name(), version),
                graph@,
                root,
                version,
                false,
                text_of_u32(*float_text),
                text_of_i32(*time_text),
            ) {
                Ok(t) => r matches Ok(s) && s@ == t,
                Err(e) => r == Err::<String, KeyValues2SerializationError>(e),
            },
    {
        write_kv2(header, graph, root, version, false, Self::name(), float_text, time_text)
    }

    /// Writes the elements that `root` reaches as text of the newest version.
    pub fn serialize<F: Fn(u32) -> String, T: Fn(i32) -> String>(
        header: &Header,
        graph: &ElementGraph,
        root: usize,
        float_text: &F,
        time_text: &T,
    ) -> (r: Result<String, KeyValues2SerializationError>)
        requires
            root < graph@.len(),
            graph_refs_in(graph@),
            graph@.len() < usize::MAX / 4,
            one_text_u32(*float_text),
            one_text_i32(*time_text),
        ensures
            match encode_kv2(
                spec_create_header(header.format@, header.format_version, keyvalues2_name(), KEYVALUES2_VERSION),
                graph@,
                root,
                KEYVALUES2_VERSION,
                false,
                text_of_u32(*float_text),
                text_of_i32(*time_text),
            ) {
                Ok(t) => r matches Ok(s) && s@ == t,
                Err(e) => r == Err::<String, KeyValues2SerializationError>(e),
            },
    {
        Self::serialize_version(header, graph, root, Self::version(), float_text, time_text)
    }
    /// Decodes the KeyValues2 text `data` that follows a file header whose
    /// encoding is `encoding`, version `version`. The `k`-th element that the
    /// text holds takes the id `ids[k % ids.len()]` until the text gives it
    /// one. Gives the elements and the position of the root.
    pub fn deserialize_with_ids<F: Fn(&str) -> Option<u32>, T: Fn(&str) -> ParsedTime>(
        data: &[u8],
        encoding: String,
        version: i32,
        ids: &[UuidBytes],
        parse_float: &F,
        parse_time: &T,
    ) -> (r: Result<(ElementGraph, usize), KeyValues2SerializationError>)
        requires
            data@.len() < usize::MAX,
            ids@.len() > 0,
            reads_f32(*parse_float),
            reads_time(*parse_time),
        ensures
            match decode_kv2(data@, encoding@, version, ids@, f32_of(*parse_float), time_of(*parse_time)) {
                Ok((g, root)) => r matches Ok((graph, k)) && graph@ == g && k == root,
                Err(e) => r matches Err(e2) && e2 == e,
            },
    {
        if !same_text(encoding.as_str(), Self::name()) {
            return Err(KeyValues2SerializationError::WrongEncoding);
        }
        if version < 1 || version > Self::version() {
            return Err(KeyValues2SerializationError::InvalidEncodingVersion);
        }
        read_kv2(data, ids, parse_float, parse_time)
    }

    /// Decodes the KeyValues2 text `data` that follows a file header whose
    /// encoding is `encoding`, version `version`, giving each element that
    /// it holds a new random id until the text gives it one. Gives the
    /// elements and the position of the root.
    pub fn deserialize<F: Fn(&str) -> Option<u32>, T: Fn(&str) -> ParsedTime>(
        data: &[u8],
        encoding: String,
        version: i32,
        parse_float: &F,
        parse_time: &T,
    ) -> (r: Result<(ElementGraph, usize), KeyValues2SerializationError>)
        requires
            data@.len() < usize::MAX,
            reads_f32(*parse_float),
            reads_time(*parse_time),
        ensures
            exists|ids: Seq<UuidBytes>| #![trigger decode_kv2(data@, encoding@, version, ids, f32_of(*parse_float), time_of(*parse_time))]
                ids.len() == brace_count(data@) + 1 && match decode_kv2(data@, encoding@, version, ids, f32_of(*parse_float), time_of(*parse_time)) {
                    Ok((g, root)) => r matches Ok((graph, k)) && graph@ == g && k == root,
                    Err(e) => r matches Err(e2) && e2 == e,
                },
    {
        let ids = new_ids(data);
        Self::deserialize_with_ids(data, encoding, version, ids.as_slice(), parse_float, parse_time)
    }
}

/// Valve's KeyValues2 flat encoding: the same text, with every element
/// written at the top level and referred to by id.
pub struct KeyValues2FlatSerializer;

impl KeyValues2FlatSerializer {
    /// The name of the encoding in file headers.
    pub fn name() -> (r: &'static str)
        ensures
            r@ == keyvalues2_flat_name(),
    {
        let r = "keyvalues2_flat";
        proof {
            reveal_strlit("keyvalues2_flat");
        }
        r
    }

    /// The newest version of the encoding.
    pub fn version() -> (r: i32)
        ensures
            r == KEYVALUES2_VERSION,
    {
        KEYVALUES2_VERSION
    }

    /// Writes the elements that `root` reaches as flat text of the given
    /// version, starting with the header line.
    pub fn serialize_version<F: Fn(u32) -> String, T: Fn(i32) -> String>(
        header: &Header,
        graph: &ElementGraph,
        root: usize,
        version: i32,
        float_text: &F,
        time_text: &T,
    ) -> (r: Result<String, KeyValues2SerializationError>)
        requires
            root < graph@.len(),
            graph_refs_in(graph@),
            graph@.len() < usize::MAX / 4,
            one_text_u32(*float_text),
            one_text_i32(*time_text),
        ensures
            match encode_kv2(
                spec_create_header(header.format@, header.format_version, keyvalues2_flat_name(), version),
                graph@,
                root,
                version,
                true,
                text_of_u32(*float_text),
                text_of_i32(*time_text),
            ) {
                Ok(t) => r matches Ok(s) && s@ == t,
                Err(e) => r == Err::<String, KeyValues2SerializationError>(e),
            },
    {
        write_kv2(header, graph, root, version, true, Self::name(), float_text, time_text)
    }

    /// Writes the elements that `root` reaches as flat text of the newest version.
    pub fn serialize<F: Fn(u32) -> String, T: Fn(i32) -> String>(
        header: &Header,
        graph: &ElementGraph,
        root: usize,
        float_text: &F,
        time_text: &T,
    ) -> (r: Result<String, KeyValues2SerializationError>)
        requires
            root < graph@.len(),
            graph_refs_in(graph@),
            graph@.len() < usize::MAX / 4,
            one_text_u32(*float_text),
            one_text_i32(*time_text),
        ensures
            match encode_kv2(
                spec_create_header(header.format@, header.format_version, keyvalues2_flat_name(), KEYVALUES2_VERSION),
                graph@,
                root,
                KEYVALUES2_VERSION,
                true,
                text_of_u32(*float_text),
                text_of_i32(*time_text),
            ) {
                Ok(t) => r matches Ok(s) && s@ == t,
                Err(e) => r == Err::<String, KeyValues2SerializationError>(e),
            },
    {
        Self::serialize_version(header, graph, root, Self::version(), float_text, time_text)
    }
    /// Decodes the KeyValues2 text `data` that follows a file header whose
    /// encoding is `encoding`, version `version`: the same text as the
    /// KeyValues2 encoding reads, with the same ids for new elements.
    pub fn deserialize_with_ids<F: Fn(&str) -> Option<u32>, T: Fn(&str) -> ParsedTime>(
        data: &[u8],
        encoding: String,
        version: i32,
        ids: &[UuidBytes],
        parse_float: &F,
        parse_time: &T,
    ) -> (r: Result<(ElementGraph, usize), KeyValues2SerializationError>)
        requires
            data@.len() < usize::MAX,
            ids@.len() > 0,
            reads_f32(*parse_float),
            reads_time(*parse_time),
        ensures
            match decode_kv2_flat(data@, encoding@, version, ids@, f32_of(*parse_float), time_of(*parse_time)) {
                Ok((g, root)) => r matches Ok((graph, k)) && graph@ == g && k == root,
                Err(e) => r matches Err(e2) && e2 == e,
            },
    {
        if !same_text(encoding.as_str(), Self::name()) {
            return Err(KeyValues2SerializationError::WrongEncoding);
        }
        if version < 1 || version > Self::version() {
            return Err(KeyValues2SerializationError::InvalidEncodingVersion);
        }
        let name = string_of(chars_of(KeyValues2Serializer::name()).as_slice());
        KeyValues2Serializer::deserialize_with_ids(data, name, KeyValues2Serializer::version(), ids, parse_float, parse_time)
    }

    /// Decodes the KeyValues2 text `data` that follows a file header whose
    /// encoding is `encoding`, version `version`: the same text as the
    /// KeyValues2 encoding reads, giving each element a new random id until
    /// the text gives it one.
    pub fn deserialize<F: Fn(&str) -> Option<u32>, T: Fn(&str) -> ParsedTime>(
        data: &[u8],
        encoding: String,
        version: i32,
        parse_float: &F,
        parse_time: &T,
    ) -> (r: Result<(ElementGraph, usize), KeyValues2SerializationError>)
        requires
            data@.len() < usize::MAX,
            reads_f32(*parse_float),
            reads_time(*parse_time),
        ensures
            exists|ids: Seq<UuidBytes>| #![trigger decode_kv2_flat(data@, encoding@, version, ids, f32_of(*parse_float), time_of(*parse_time))]
                ids.len() == brace_count(data@) + 1 && match decode_kv2_flat(data@, encoding@, version, ids, f32_of(*parse_float), time_of(*parse_time)) {
                    Ok((g, root)) => r matches Ok((graph, k)) && graph@ == g && k == root,
                    Err(e) => r matches Err(e2) && e2 == e,
                },
    {
        let ids = new_ids(data);
        Self::deserialize_with_ids(data, encoding, version, ids.as_slice(), parse_float, parse_time)
    }
}

} // verus!
