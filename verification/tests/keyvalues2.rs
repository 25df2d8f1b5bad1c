use datamodel::attribute::{Angle, AttributeValue, BinaryBlock, Color, Quaternion, Time, Vector2, Vector3, Vector4};
use datamodel::{
    deserialize_with_ids, Element, ElementGraph, Header, KeyValues2FlatSerializer, KeyValues2SerializationError,
    KeyValues2Serializer, ParsedTime, SerializationError,
};

fn id(n: u8) -> [u8; 16] {
    let mut b = [0u8; 16];
    b[15] = n;
    b[6] = 0x40;
    b[8] = 0x80;
    b
}

fn id_text(n: u8) -> String {
    format!("00000000-0000-4000-8000-0000000000{:02x}", n)
}

fn float_bits(s: &str) -> Option<u32> {
    s.parse::<f32>().ok().map(|f| f.to_bits())
}

fn time_value(s: &str) -> ParsedTime {
    match s.parse::<f32>() {
        Ok(seconds) => {
            let ticks = seconds * 10000.0;
            if ticks > i32::MAX as f32 || ticks < i32::MIN as f32 {
                ParsedTime::OutOfRange
            } else {
                ParsedTime::Value((seconds + 0.5).floor() as i32)
            }
        }
        Err(_) => ParsedTime::Invalid,
    }
}

fn generated() -> Vec<[u8; 16]> {
    (100u8..120).map(id).collect()
}

fn read(text: &str) -> Result<(ElementGraph, usize), KeyValues2SerializationError> {
    KeyValues2Serializer::deserialize_with_ids(
        text.as_bytes(),
        String::from("keyvalues2"),
        4,
        &generated(),
        &float_bits,
        &time_value,
    )
}

fn sample_text() -> String {
    let mut t = String::new();
    t.push_str("\"DmElement\"\n{\n");
    t.push_str(&format!("\t\"id\" \"elementid\" \"{}\"\n", id_text(1)));
    t.push_str("\t\"name\" \"string\" \"root\"\n");
    t.push_str("\t\"count\" \"int\" \"-7\"\n");
    t.push_str("\t\"flag\" \"bool\" \"1\"\n");
    t.push_str("\t\"ratio\" \"float\" \"0.5\"\n");
    t.push_str("\t\"tint\" \"color\" \"1 2 3 4\"\n");
    t.push_str("\t\"bytes\" \"binary\" \"0A0b 1\"\n");
    t.push_str("\t\"big\" \"uint64\" \"0xff\"\n");
    t.push_str("\t\"small\" \"uint8\" \"200\"\n");
    t.push_str("\t\"nums\" \"int_array\" [ \"1\", \"2\", \"3\" ]\n");
    t.push_str(&format!(
        "\t\"child\" \"DmeChild\" {{ \"id\" \"elementid\" \"{}\" \"back\" \"element\" \"{}\" }}\n",
        id_text(2),
        id_text(1)
    ));
    t.push_str(&format!(
        "\t\"list\" \"element_array\" [ \"element\" \"{}\", \"element\" \"\", \"DmeOther\" {{ }} ]\n",
        id_text(2)
    ));
    t.push_str("}\n");
    t
}

#[test]
fn reads_elements_attributes_and_references() {
    let (graph, root) = read(&sample_text()).unwrap();
    assert_eq!(root, 0);
    assert_eq!(graph.len(), 3);
    let e = graph.get(0);
    assert_eq!(e.get_class(), "DmElement");
    assert_eq!(e.get_id(), id(1));
    assert!(matches!(e.get_attribute("name"), Some(AttributeValue::String(s)) if s == "root"));
    assert!(matches!(e.get_attribute("count"), Some(AttributeValue::Integer(-7))));
    assert!(matches!(e.get_attribute("flag"), Some(AttributeValue::Boolean(true))));
    assert!(matches!(e.get_attribute("ratio"), Some(AttributeValue::Float(b)) if *b == 0.5f32.to_bits()));
    assert!(matches!(
        e.get_attribute("tint"),
        Some(AttributeValue::Color(Color { red: 1, green: 2, blue: 3, alpha: 4 }))
    ));
    assert!(matches!(e.get_attribute("bytes"), Some(AttributeValue::Binary(BinaryBlock(b))) if *b == vec![10u8, 11, 1]));
    assert!(matches!(e.get_attribute("big"), Some(AttributeValue::ULong(255))));
    assert!(matches!(e.get_attribute("small"), Some(AttributeValue::UByte(200))));
    assert!(matches!(e.get_attribute("nums"), Some(AttributeValue::IntegerArray(v)) if *v == vec![1, 2, 3]));
    assert!(matches!(e.get_attribute("child"), Some(AttributeValue::Element(Some(1)))));
    assert!(matches!(
        e.get_attribute("list"),
        Some(AttributeValue::ElementArray(v)) if *v == vec![Some(1), None, Some(2)]
    ));
    let child = graph.get(1);
    assert_eq!(child.get_class(), "DmeChild");
    assert_eq!(child.get_id(), id(2));
    assert!(matches!(child.get_attribute("back"), Some(AttributeValue::Element(Some(0)))));
    let other = graph.get(2);
    assert_eq!(other.get_class(), "DmeOther");
    assert_eq!(other.get_id(), id(102));
}

#[test]
fn new_elements_take_the_given_ids_in_turn() {
    let (graph, root) = read("\"A\" { \"inner\" \"B\" { } }\n\"C\" { }\n").unwrap();
    assert_eq!(root, 0);
    assert_eq!(graph.get(0).get_id(), id(100));
    assert_eq!(graph.get(1).get_id(), id(101));
    assert_eq!(graph.get(2).get_id(), id(102));
    assert_eq!(graph.get(2).get_class(), "C");
}

#[test]
fn prefix_element_is_not_the_root() {
    let (graph, root) = read("\"$prefix_element$\" { }\n\"Root\" { }\n").unwrap();
    assert_eq!(root, 1);
    assert_eq!(graph.get(root).get_class(), "Root");
}

#[test]
fn comments_commas_and_escapes() {
    let text = "// a comment line\n\"E\" { \"s\" \"string\" \"a\\tb\\\"c\\\\d\\n\", }\n";
    let (graph, _) = read(text).unwrap();
    assert!(matches!(graph.get(0).get_attribute("s"), Some(AttributeValue::String(s)) if s == "a\tb\"c\\d\n"));
}

#[test]
fn quoted_string_spans_lines() {
    let (graph, _) = read("\"E\" { \"s\" \"string\" \"one\ntwo\" }\n").unwrap();
    assert!(matches!(graph.get(0).get_attribute("s"), Some(AttributeValue::String(s)) if s == "one\ntwo"));
}

#[test]
fn time_values_use_the_callers_reading() {
    let (graph, _) = read("\"E\" { \"t\" \"time\" \"2.4\" \"ts\" \"time_array\" [ \"1\" ] }\n").unwrap();
    assert!(matches!(graph.get(0).get_attribute("t"), Some(AttributeValue::Time(Time(2)))));
    assert!(matches!(graph.get(0).get_attribute("ts"), Some(AttributeValue::TimeArray(v)) if v.len() == 1));
}

#[test]
fn unknown_reference_stays_empty() {
    let text = format!("\"E\" {{ \"r\" \"element\" \"{}\" }}\n", id_text(9));
    let (graph, _) = read(&text).unwrap();
    assert!(matches!(graph.get(0).get_attribute("r"), Some(AttributeValue::Element(None))));
}

#[test]
fn error_unknown_token() {
    assert_eq!(read("abc").unwrap_err(), KeyValues2SerializationError::UnknownToken('a', 2, 1));
}

#[test]
fn error_single_slash() {
    assert_eq!(read("/x").unwrap_err(), KeyValues2SerializationError::UnknownToken('/', 2, 1));
}

#[test]
fn error_unknown_escape() {
    assert_eq!(
        read("\"E\" { \"s\" \"string\" \"\\q\" }").unwrap_err(),
        KeyValues2SerializationError::UnknownEscapeCharacter('q', 2, 21)
    );
}

#[test]
fn error_unfinished_escape() {
    assert_eq!(read("\"ab\\ c\"").unwrap_err(), KeyValues2SerializationError::UnfinishedEscapeCharacter(2, 4));
}

#[test]
fn error_unfinished_quote() {
    assert_eq!(read("\"abc").unwrap_err(), KeyValues2SerializationError::UnfinishedQuoteString(2, 5));
}

#[test]
fn error_expected_open_brace() {
    assert_eq!(read("\"E\" [").unwrap_err(), KeyValues2SerializationError::ExpectedOpenBrace(2, 5));
}

#[test]
fn error_unexpected_brackets() {
    assert_eq!(read("{").unwrap_err(), KeyValues2SerializationError::UnexpectedOpenBrace(2, 1));
    assert_eq!(read("}").unwrap_err(), KeyValues2SerializationError::UnexpectedCloseBrace(2, 1));
    assert_eq!(read("[").unwrap_err(), KeyValues2SerializationError::UnexpectedOpenBracket(2, 1));
    assert_eq!(read("]").unwrap_err(), KeyValues2SerializationError::UnexpectedCloseBracket(2, 1));
}

#[test]
fn error_expected_open_bracket() {
    assert_eq!(
        read("\"E\" { \"a\" \"int_array\" \"1\" }").unwrap_err(),
        KeyValues2SerializationError::ExpectedOpenBracket(2, 25)
    );
}

#[test]
fn error_end_of_file() {
    assert_eq!(read("\"E\" { \"a\"").unwrap_err(), KeyValues2SerializationError::UnexpectedEndOfFile);
}

#[test]
fn error_parse_integer() {
    assert_eq!(
        read("\"E\" { \"a\" \"int\" \"12x\" }").unwrap_err(),
        KeyValues2SerializationError::ParseIntegerError(2, 19)
    );
}

#[test]
fn error_parse_float() {
    assert_eq!(
        read("\"E\" { \"a\" \"float\" \"zz\" }").unwrap_err(),
        KeyValues2SerializationError::ParseFloatError(2, 21)
    );
}

#[test]
fn error_parse_boolean() {
    assert_eq!(
        read("\"E\" { \"a\" \"bool\" \"yes\" }").unwrap_err(),
        KeyValues2SerializationError::ParseBooleanError(2, 20)
    );
}

#[test]
fn error_parse_uuid() {
    assert_eq!(
        read("\"E\" { \"a\" \"elementid\" \"nope\" }").unwrap_err(),
        KeyValues2SerializationError::ParseUUIDError(2, 25)
    );
}

#[test]
fn error_time_out_of_range() {
    assert_eq!(
        read("\"E\" { \"a\" \"time\" \"1e30\" }").unwrap_err(),
        KeyValues2SerializationError::TimeAttributeOutOFRange(2, 23)
    );
}

#[test]
fn error_name_must_be_a_string() {
    assert_eq!(
        read("\"E\" { \"name\" \"int\" \"1\" }").unwrap_err(),
        KeyValues2SerializationError::InvalidNameAttributeType(2, 16)
    );
}

#[test]
fn error_duplicate_element_id() {
    let text = format!(
        "\"A\" {{ \"id\" \"elementid\" \"{}\" }}\n\"B\" {{ \"id\" \"elementid\" \"{}\" }}\n",
        id_text(5),
        id_text(5)
    );
    assert_eq!(read(&text).unwrap_err(), KeyValues2SerializationError::DuplicateElementId(id(5)));
}

#[test]
fn error_duplicate_generated_id() {
    let r = KeyValues2Serializer::deserialize_with_ids(
        "\"A\" { }\n\"B\" { }\n".as_bytes(),
        String::from("keyvalues2"),
        4,
        &[id(1)],
        &float_bits,
        &time_value,
    );
    assert_eq!(r.unwrap_err(), KeyValues2SerializationError::DuplicateGeneratedElementId);
}

#[test]
fn error_invalid_attribute_value() {
    assert_eq!(
        read("\"E\" { \"a\" \"vector2\" \"1\" }").unwrap_err(),
        KeyValues2SerializationError::InvalidAttributeValue(2, 23)
    );
}

#[test]
fn error_no_elements() {
    assert_eq!(read("// nothing\n").unwrap_err(), KeyValues2SerializationError::NoElements);
}

#[test]
fn error_invalid_utf8_line() {
    let r = KeyValues2Serializer::deserialize_with_ids(
        &[0x22, 0x45, 0x22, 0x0a, 0xff, 0x0a],
        String::from("keyvalues2"),
        4,
        &generated(),
        &float_bits,
        &time_value,
    );
    assert_eq!(r.unwrap_err(), KeyValues2SerializationError::Io);
}

#[test]
fn error_wrong_encoding_and_version() {
    let r = KeyValues2Serializer::deserialize(b"\"E\" { }", String::from("binary"), 4, &float_bits, &time_value);
    assert_eq!(r.unwrap_err(), KeyValues2SerializationError::WrongEncoding);
    let r = KeyValues2Serializer::deserialize(b"\"E\" { }", String::from("keyvalues2"), 5, &float_bits, &time_value);
    assert_eq!(r.unwrap_err(), KeyValues2SerializationError::InvalidEncodingVersion);
    let r = KeyValues2FlatSerializer::deserialize(b"\"E\" { }", String::from("keyvalues2"), 1, &float_bits, &time_value);
    assert_eq!(r.unwrap_err(), KeyValues2SerializationError::WrongEncoding);
}

#[test]
fn flat_reads_like_keyvalues2() {
    let (graph, root) =
        KeyValues2FlatSerializer::deserialize(b"\"E\" { \"n\" \"int\" \"3\" }", String::from("keyvalues2_flat"), 2, &float_bits, &time_value)
            .unwrap();
    assert_eq!(root, 0);
    assert!(matches!(graph.get(0).get_attribute("n"), Some(AttributeValue::Integer(3))));
}

fn sample_graph() -> ElementGraph {
    let mut graph = ElementGraph::new();
    let mut root = Element::full(String::from("DmElement"), id(1));
    root.set_attribute(String::from("name"), AttributeValue::String(String::from("root \"q\"")));
    root.set_attribute(String::from("count"), AttributeValue::Integer(-7));
    root.set_attribute(String::from("child"), AttributeValue::Element(Some(1)));
    root.set_attribute(String::from("bytes"), AttributeValue::Binary(BinaryBlock(vec![1, 2, 255])));
    root.set_attribute(String::from("big"), AttributeValue::ULong(0x1234));
    graph.add(root);
    let mut child = Element::full(String::from("DmeChild"), id(2));
    child.set_attribute(String::from("back"), AttributeValue::ElementArray(vec![Some(0), None]));
    child.set_attribute(String::from("flag"), AttributeValue::Boolean(true));
    child.set_attribute(String::from("ratio"), AttributeValue::Float(1.5f32.to_bits()));
    graph.add(child);
    graph
}

fn float_text(b: u32) -> String {
    format!("{}", f32::from_bits(b))
}

fn time_text(t: i32) -> String {
    format!("{:.4}", t as f32 / 10000.0)
}

fn check_sample(graph: &ElementGraph, root: usize) {
    let e = graph.get(root);
    assert_eq!(e.get_class(), "DmElement");
    assert_eq!(e.get_id(), id(1));
    assert!(matches!(e.get_attribute("name"), Some(AttributeValue::String(s)) if s == "root \"q\""));
    assert!(matches!(e.get_attribute("count"), Some(AttributeValue::Integer(-7))));
    assert!(matches!(e.get_attribute("bytes"), Some(AttributeValue::Binary(BinaryBlock(b))) if *b == vec![1u8, 2, 255]));
    assert!(matches!(e.get_attribute("big"), Some(AttributeValue::ULong(0x1234))));
    let child = match e.get_attribute("child") {
        Some(AttributeValue::Element(Some(k))) => *k,
        _ => panic!("child missing"),
    };
    let c = graph.get(child);
    assert_eq!(c.get_class(), "DmeChild");
    assert_eq!(c.get_id(), id(2));
    assert!(matches!(c.get_attribute("back"), Some(AttributeValue::ElementArray(v)) if *v == vec![Some(root), None]));
    assert!(matches!(c.get_attribute("flag"), Some(AttributeValue::Boolean(true))));
    assert!(matches!(c.get_attribute("ratio"), Some(AttributeValue::Float(b)) if *b == 1.5f32.to_bits()));
}

#[test]
fn keyvalues2_text_reads_back() {
    let graph = sample_graph();
    let header = Header::new(String::from("model"), 18);
    let text = KeyValues2Serializer::serialize(&header, &graph, 0, &float_text, &time_text).unwrap();
    let (back, header2, root) = match deserialize_with_ids(text.as_bytes(), &generated(), &float_bits, &time_value) {
        Ok((h, g, r)) => (g, h, r),
        Err(_) => panic!("the written text did not read back"),
    };
    assert_eq!(header2.format, "model");
    assert_eq!(header2.format_version, 18);
    check_sample(&back, root);
}

#[test]
fn keyvalues2_flat_text_reads_back() {
    let graph = sample_graph();
    let header = Header::new(String::from("model"), 18);
    let text = KeyValues2FlatSerializer::serialize(&header, &graph, 0, &float_text, &time_text).unwrap();
    let (back, root) = match deserialize_with_ids(text.as_bytes(), &generated(), &float_bits, &time_value) {
        Ok((_, g, r)) => (g, r),
        Err(_) => panic!("the written text did not read back"),
    };
    check_sample(&back, root);
}

#[test]
fn unknown_encoding_in_header() {
    let r = deserialize_with_ids(b"<!-- dmx encoding xml 1 format model 1 -->\n", &generated(), &float_bits, &time_value);
    assert!(matches!(r, Err(SerializationError::UnknownEncoding)));
}

#[test]
fn bad_header_is_reported() {
    let r = deserialize_with_ids(b"hello\n", &generated(), &float_bits, &time_value);
    assert!(matches!(r, Err(SerializationError::Header(_))));
}

#[test]
fn new_ids_one_per_brace_and_one_more() {
    let ids = datamodel::serializers::keyvalues2::new_ids(b"\"A\" { \"B\" { } }");
    assert_eq!(ids.len(), 3);
    assert_ne!(ids[0], ids[1]);
    assert_eq!(datamodel::serializers::keyvalues2::new_ids(b"").len(), 1);
}

fn lone_graph() -> ElementGraph {
    let mut graph = ElementGraph::new();
    let mut e = Element::full(String::from("DmeLone"), id(7));
    e.set_attribute(String::from("name"), AttributeValue::String(String::from("it's \"here\"")));
    e.set_attribute(String::from("count"), AttributeValue::Integer(-42));
    e.set_attribute(String::from("ratio"), AttributeValue::Float(0.25f32.to_bits()));
    e.set_attribute(String::from("flag"), AttributeValue::Boolean(false));
    e.set_attribute(String::from("tint"), AttributeValue::Color(Color { red: 9, green: 80, blue: 255, alpha: 0 }));
    e.set_attribute(String::from("uv"), AttributeValue::Vector2(Vector2 { x: 1.0f32.to_bits(), y: 2.5f32.to_bits() }));
    e.set_attribute(
        String::from("pos"),
        AttributeValue::Vector3(Vector3 { x: 0.5f32.to_bits(), y: (-3.0f32).to_bits(), z: 7.0f32.to_bits() }),
    );
    e.set_attribute(
        String::from("plane"),
        AttributeValue::Vector4(Vector4 { x: 1.0f32.to_bits(), y: 0.0f32.to_bits(), z: 0.0f32.to_bits(), w: 4.0f32.to_bits() }),
    );
    e.set_attribute(
        String::from("turn"),
        AttributeValue::Angle(Angle { pitch: 90.0f32.to_bits(), yaw: 0.0f32.to_bits(), roll: 45.0f32.to_bits() }),
    );
    e.set_attribute(
        String::from("spin"),
        AttributeValue::Quaternion(Quaternion { x: 0.0f32.to_bits(), y: 0.0f32.to_bits(), z: 0.0f32.to_bits(), w: 1.0f32.to_bits() }),
    );
    e.set_attribute(String::from("big"), AttributeValue::ULong(0xABCDEF0123));
    e.set_attribute(String::from("small"), AttributeValue::UByte(200));
    e.set_attribute(String::from("counts"), AttributeValue::IntegerArray(vec![3, -1, 0]));
    e.set_attribute(String::from("weights"), AttributeValue::FloatArray(vec![0.5f32.to_bits(), 2.0f32.to_bits()]));
    e.set_attribute(
        String::from("labels"),
        AttributeValue::StringArray(vec![String::from("a,b"), String::from("say \"hi\""), String::new()]),
    );
    e.set_attribute(String::from("none"), AttributeValue::BooleanArray(vec![]));
    e.set_attribute(
        String::from("tints"),
        AttributeValue::ColorArray(vec![Color { red: 1, green: 2, blue: 3, alpha: 4 }]),
    );
    e.set_attribute(String::from("bytes8"), AttributeValue::UByteArray(vec![0, 255]));
    e.set_attribute(String::from("other"), AttributeValue::ObjectId(id(9)));
    e.set_attribute(String::from("others"), AttributeValue::ObjectIdArray(vec![id(10), id(11)]));
    e.set_attribute(String::from("nothing"), AttributeValue::Element(None));
    graph.add(e);
    graph
}

fn after_header(text: &str) -> &str {
    match text.find('\n') {
        Some(i) => &text[i + 1..],
        None => panic!("no header line"),
    }
}

#[test]
fn lone_element_document_reads_back() {
    let graph = lone_graph();
    let header = Header::new(String::from("model"), 3);
    let text = KeyValues2Serializer::serialize(&header, &graph, 0, &float_text, &time_text).unwrap();
    let (back, root) = KeyValues2Serializer::deserialize_with_ids(
        after_header(&text).as_bytes(),
        String::from("keyvalues2"),
        4,
        &generated(),
        &float_bits,
        &time_value,
    )
    .unwrap();
    assert_eq!(root, 0);
    assert_eq!(back.len(), 1);
    assert_eq!(back.get(0).get_class(), "DmeLone");
    assert_eq!(back.get(0).get_id(), id(7));
    assert_eq!(format!("{:?}", back.get(0).get_attributes()), format!("{:?}", graph.get(0).get_attributes()));
}

#[test]
fn lone_element_flat_document_reads_back() {
    let graph = lone_graph();
    let header = Header::new(String::from("model"), 3);
    let text = KeyValues2FlatSerializer::serialize(&header, &graph, 0, &float_text, &time_text).unwrap();
    let (back, root) = KeyValues2FlatSerializer::deserialize_with_ids(
        after_header(&text).as_bytes(),
        String::from("keyvalues2_flat"),
        4,
        &generated(),
        &float_bits,
        &time_value,
    )
    .unwrap();
    assert_eq!(root, 0);
    assert_eq!(back.len(), 1);
    assert_eq!(back.get(0).get_id(), id(7));
    assert_eq!(format!("{:?}", back.get(0).get_attributes()), format!("{:?}", graph.get(0).get_attributes()));
}
