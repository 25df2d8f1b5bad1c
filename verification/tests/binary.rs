use datamodel::attribute::{AttributeValue, Color, Time};
use datamodel::serializers::binary::BinarySerializer;
use datamodel::{Element, ElementGraph, Header};

fn id(n: u8) -> [u8; 16] {
    let mut b = [0u8; 16];
    b[15] = n;
    b[6] = 0x40;
    b[8] = 0x80;
    b
}

fn sample_graph() -> ElementGraph {
    let mut graph = ElementGraph::new();
    let mut root = Element::full(String::from("DmElement"), id(1));
    root.set_attribute(String::from("name"), AttributeValue::String(String::from("root")));
    root.set_attribute(String::from("count"), AttributeValue::Integer(-7));
    root.set_attribute(String::from("child"), AttributeValue::Element(Some(1)));
    root.set_attribute(String::from("color"), AttributeValue::Color(Color { red: 1, green: 2, blue: 3, alpha: 4 }));
    root.set_attribute(String::from("when"), AttributeValue::Time(Time(1234)));
    graph.add(root);
    let mut child = Element::full(String::from("DmeChild"), id(2));
    child.set_attribute(String::from("back"), AttributeValue::ElementArray(vec![Some(0), None]));
    child.set_attribute(String::from("flag"), AttributeValue::Boolean(true));
    graph.add(child);
    graph
}

#[test]
fn binary_round_trip_keeps_elements() {
    let graph = sample_graph();
    let header = Header::new(String::from("model"), 18);
    let bytes = BinarySerializer::serialize(&header, &graph, 0).unwrap();
    let (parsed, encoding, version) = Header::from_buffer(&bytes).unwrap();
    assert_eq!(parsed.format, "model");
    assert_eq!(parsed.format_version, 18);
    assert_eq!(encoding, "binary");
    assert_eq!(version, 9);
    let line = datamodel::serializing::header_line_end(&bytes);
    let back = BinarySerializer::deserialize(&bytes[line..], encoding, version).unwrap();
    assert_eq!(back.len(), 2);
    let root = back.get(0);
    assert_eq!(root.get_class(), "DmElement");
    assert_eq!(root.get_id(), id(1));
    assert!(matches!(root.get_attribute("count"), Some(AttributeValue::Integer(-7))));
    assert!(matches!(root.get_attribute("child"), Some(AttributeValue::Element(Some(1)))));
    let child = back.get(1);
    assert_eq!(child.get_class(), "DmeChild");
    assert!(matches!(child.get_attribute("flag"), Some(AttributeValue::Boolean(true))));
}

#[test]
fn binary_round_trip_puts_the_name_first_and_renumbers() {
    let mut graph = ElementGraph::new();
    // position 0 is not reached from the root
    graph.add(Element::full(String::from("Unused"), id(9)));
    let mut root = Element::full(String::from("Root"), id(1));
    root.set_attribute(String::from("first"), AttributeValue::Integer(1));
    root.set_attribute(String::from("name"), AttributeValue::String(String::from("top")));
    root.set_attribute(String::from("child"), AttributeValue::Element(Some(2)));
    graph.add(root);
    graph.add(Element::full(String::from("Child"), id(2)));
    let header = Header::new(String::from("model"), 18);
    for version in 1..=9 {
        let bytes = BinarySerializer::serialize_version(&header, &graph, 1, version).unwrap();
        let back = BinarySerializer::deserialize(&bytes, String::from("binary"), version).unwrap();
        assert_eq!(back.len(), 2);
        let names: Vec<&String> = back.get(0).get_attributes().keys().collect();
        assert_eq!(names, vec!["name", "first", "child"]);
        assert!(matches!(back.get(0).get_attribute("name"), Some(AttributeValue::String(s)) if s == "top"));
        assert!(matches!(back.get(0).get_attribute("child"), Some(AttributeValue::Element(Some(1)))));
        assert_eq!(back.get(1).get_class(), "Child");
        assert!(matches!(back.get(1).get_attribute("name"), Some(AttributeValue::String(s)) if s.is_empty()));
    }
}

#[test]
fn binary_file_reads_back_through_deserialize() {
    let graph = sample_graph();
    let header = Header::new(String::from("model"), 18);
    let bytes = BinarySerializer::serialize_version(&header, &graph, 0, 5).unwrap();
    let parse_float = |s: &str| s.parse::<f32>().ok().map(f32::to_bits);
    let parse_time = |_: &str| datamodel::ParsedTime::Invalid;
    let (back_header, back, root) = datamodel::deserialize(&bytes, &parse_float, &parse_time).unwrap();
    assert_eq!(back_header.format, "model");
    assert_eq!(back_header.format_version, 18);
    assert_eq!(root, 0);
    assert_eq!(back.len(), 2);
    assert_eq!(back.get(0).get_class(), "DmElement");
    assert!(matches!(back.get(0).get_attribute("when"), Some(AttributeValue::Time(Time(1234)))));
    assert!(matches!(back.get(1).get_attribute("back"), Some(AttributeValue::ElementArray(v)) if v == &vec![Some(0), None]));
}
