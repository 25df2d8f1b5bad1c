use datamodel::attribute::{AttributeValue, Time};
use datamodel::serializers::binary::BinarySerializer;
use datamodel::serializers::binary_error::BinarySerializationError;
use datamodel::{Element, ElementGraph, Header};

fn id(n: u8) -> [u8; 16] {
    let mut b = [0u8; 16];
    b[0] = 0x10;
    b[1] = 0x20;
    b[15] = n;
    b
}

fn one_element(class: &str) -> ElementGraph {
    let mut graph = ElementGraph::new();
    graph.add(Element::full(String::from(class), id(1)));
    graph
}

fn binary(data: &[u8], version: i32) -> Result<ElementGraph, BinarySerializationError> {
    BinarySerializer::deserialize(data, String::from("binary"), version)
}

fn le_id(b: [u8; 16]) -> Vec<u8> {
    let mut v = vec![b[3], b[2], b[1], b[0], b[5], b[4], b[7], b[6]];
    v.extend_from_slice(&b[8..]);
    v
}

/// A version 1 document with one element of class "C" named "N" whose
/// attributes are `body` (after their count).
fn version1_document(count: i32, body: &[u8]) -> Vec<u8> {
    let mut d = vec![0u8];
    d.extend_from_slice(&1i32.to_le_bytes());
    d.extend_from_slice(b"C\0N\0");
    d.extend_from_slice(&le_id(id(1)));
    d.extend_from_slice(&count.to_le_bytes());
    d.extend_from_slice(body);
    d
}

#[test]
fn version1_bytes_are_exact() {
    let graph = one_element("C");
    let header = Header::new(String::from("model"), 18);
    let bytes = BinarySerializer::serialize_version(&header, &graph, 0, 1).unwrap();
    let mut expected: Vec<u8> = header.create_header("binary", 1).into_bytes();
    expected.push(0);
    expected.extend_from_slice(&1i32.to_le_bytes());
    expected.extend_from_slice(b"C\0\0");
    expected.extend_from_slice(&le_id(id(1)));
    expected.extend_from_slice(&0i32.to_le_bytes());
    assert_eq!(bytes, expected);
}

#[test]
fn version9_bytes_have_prefix_and_table() {
    let mut graph = one_element("C");
    graph.set_attribute(0, String::from("name"), AttributeValue::String(String::from("N")));
    graph.set_attribute(0, String::from("n"), AttributeValue::Integer(5));
    let header = Header::new(String::from("model"), 18);
    let bytes = BinarySerializer::serialize_version(&header, &graph, 0, 9).unwrap();
    let mut expected: Vec<u8> = header.create_header("binary", 9).into_bytes();
    expected.push(0);
    // the prefix element flag
    expected.extend_from_slice(&0i32.to_le_bytes());
    // the string table: the class, then each attribute's name and string value
    expected.extend_from_slice(&4i32.to_le_bytes());
    expected.extend_from_slice(b"C\0name\0N\0n\0");
    // one element: class index, name index, id
    expected.extend_from_slice(&1i32.to_le_bytes());
    expected.extend_from_slice(&0i32.to_le_bytes());
    expected.extend_from_slice(&2i32.to_le_bytes());
    expected.extend_from_slice(&le_id(id(1)));
    // one stored attribute: name index, integer type id, value
    expected.extend_from_slice(&1i32.to_le_bytes());
    expected.extend_from_slice(&3i32.to_le_bytes());
    expected.push(2);
    expected.extend_from_slice(&5i32.to_le_bytes());
    assert_eq!(bytes, expected);
}

#[test]
fn version1_document_reads() {
    let mut body: Vec<u8> = b"n\0".to_vec();
    body.push(2);
    body.extend_from_slice(&(-3i32).to_le_bytes());
    let graph = binary(&version1_document(1, &body), 1).unwrap();
    assert_eq!(graph.len(), 1);
    let e = graph.get(0);
    assert_eq!(e.get_class(), "C");
    assert_eq!(e.get_id(), id(1));
    assert!(matches!(e.get_attribute("name"), Some(AttributeValue::String(s)) if s == "N"));
    assert!(matches!(e.get_attribute("n"), Some(AttributeValue::Integer(-3))));
}

#[test]
fn external_reference_adds_an_element() {
    let text = "10203040-5060-7080-90a0-b0c0d0e0f000";
    let mut body: Vec<u8> = b"r\0".to_vec();
    body.push(1);
    body.extend_from_slice(&(-2i32).to_le_bytes());
    body.extend_from_slice(text.as_bytes());
    body.push(0);
    let graph = binary(&version1_document(1, &body), 1).unwrap();
    assert_eq!(graph.len(), 2);
    assert!(matches!(graph.get(0).get_attribute("r"), Some(AttributeValue::Element(Some(1)))));
    assert_eq!(graph.get(1).get_class(), "DmElement");
    assert_eq!(
        graph.get(1).get_id(),
        [0x10, 0x20, 0x30, 0x40, 0x50, 0x60, 0x70, 0x80, 0x90, 0xa0, 0xb0, 0xc0, 0xd0, 0xe0, 0xf0, 0x00]
    );
}

#[test]
fn serialize_error_invalid_version() {
    let graph = one_element("C");
    let header = Header::new(String::from("model"), 1);
    let r = BinarySerializer::serialize_version(&header, &graph, 0, 0);
    assert!(matches!(r, Err(BinarySerializationError::InvalidVersion { version: 0 })));
    let r = BinarySerializer::serialize_version(&header, &graph, 0, 10);
    assert!(matches!(r, Err(BinarySerializationError::InvalidVersion { version: 10 })));
}

#[test]
fn serialize_error_invalid_name_attribute() {
    let mut graph = one_element("C");
    graph.set_attribute(0, String::from("name"), AttributeValue::Integer(3));
    let header = Header::new(String::from("model"), 1);
    let r = BinarySerializer::serialize(&header, &graph, 0);
    assert!(matches!(r, Err(BinarySerializationError::InvalidNameAttribute { element: 0 })));
}

#[test]
fn serialize_error_invalid_id_attribute() {
    let mut graph = one_element("C");
    graph.set_attribute(0, String::from("id"), AttributeValue::ObjectId(id(7)));
    let header = Header::new(String::from("model"), 1);
    let r = BinarySerializer::serialize_version(&header, &graph, 0, 2);
    assert!(matches!(r, Err(BinarySerializationError::InvalidIdAttribute { element: 0 })));
}

#[test]
fn serialize_error_invalid_version_for_attribute() {
    let mut graph = one_element("C");
    graph.set_attribute(0, String::from("when"), AttributeValue::Time(Time(5)));
    let header = Header::new(String::from("model"), 1);
    let r = BinarySerializer::serialize_version(&header, &graph, 0, 1);
    match r {
        Err(BinarySerializationError::InvalidVersionForAttribute { attribute, element, min, max }) => {
            assert_eq!(attribute, "when");
            assert_eq!(element, 0);
            assert_eq!(min, 3);
            assert_eq!(max, 9);
        }
        other => panic!("unexpected result {:?}", other),
    }
    let mut graph = one_element("C");
    graph.set_attribute(0, String::from("big"), AttributeValue::ULong(5));
    let r = BinarySerializer::serialize_version(&header, &graph, 0, 8);
    assert!(matches!(r, Err(BinarySerializationError::InvalidVersionForAttribute { min: 9, max: 9, .. })));
    let mut graph = one_element("C");
    graph.set_attribute(0, String::from("other"), AttributeValue::ObjectId(id(3)));
    let r = BinarySerializer::serialize_version(&header, &graph, 0, 3);
    assert!(matches!(r, Err(BinarySerializationError::InvalidVersionForAttribute { min: 1, max: 2, .. })));
}

#[test]
fn serialize_error_too_many_strings() {
    let mut element = Element::full(String::from("C"), id(1));
    for k in 0..32768 {
        element.set_attribute(format!("a{}", k), AttributeValue::Integer(k));
    }
    let mut graph = ElementGraph::new();
    graph.add(element);
    let header = Header::new(String::from("model"), 1);
    let r = BinarySerializer::serialize_version(&header, &graph, 0, 2);
    assert!(matches!(r, Err(BinarySerializationError::TooManyStrings { count: 32769, max: 32768 })));
    assert!(BinarySerializer::serialize_version(&header, &graph, 0, 4).is_ok());
}

#[test]
fn deserialize_error_wrong_encoding() {
    let r = BinarySerializer::deserialize(&[0u8], String::from("keyvalues2"), 1);
    assert!(matches!(r, Err(BinarySerializationError::WrongEncoding)));
}

#[test]
fn deserialize_error_invalid_version() {
    assert!(matches!(binary(&[0u8], 0), Err(BinarySerializationError::InvalidVersion { version: 0 })));
    assert!(matches!(binary(&[0u8], 10), Err(BinarySerializationError::InvalidVersion { version: 10 })));
}

#[test]
fn deserialize_error_buffer() {
    assert!(matches!(binary(&[0u8, 1, 0], 1), Err(BinarySerializationError::BufferError)));
    let d = version1_document(1, &[]);
    assert!(matches!(binary(&d[..d.len() - 2], 1), Err(BinarySerializationError::BufferError)));
}

#[test]
fn deserialize_error_invalid_array_size() {
    let mut d = vec![0u8];
    d.extend_from_slice(&(-1i32).to_le_bytes());
    assert!(matches!(binary(&d, 1), Err(BinarySerializationError::InvalidArraySize)));
}

#[test]
fn deserialize_error_no_elements() {
    let mut d = vec![0u8];
    d.extend_from_slice(&0i32.to_le_bytes());
    assert!(matches!(binary(&d, 1), Err(BinarySerializationError::NoElements)));
}

#[test]
fn deserialize_error_invalid_string_table_index() {
    // version 2: a 16-bit table size, then 16-bit class indices
    let mut d = vec![0u8];
    d.extend_from_slice(&0i16.to_le_bytes());
    d.extend_from_slice(&1i32.to_le_bytes());
    d.extend_from_slice(&5i16.to_le_bytes());
    assert!(matches!(binary(&d, 2), Err(BinarySerializationError::InvalidStringTableIndex)));
}

#[test]
fn deserialize_error_unknown_attribute() {
    let mut body: Vec<u8> = b"a\0".to_vec();
    body.push(0);
    let r = binary(&version1_document(1, &body), 1);
    assert!(matches!(r, Err(BinarySerializationError::UnknownAttribute { attribute_id: 0 })));
    // an unknown array type is named without the array offset
    let mut body: Vec<u8> = b"a\0".to_vec();
    body.push(99);
    body.extend_from_slice(&0i32.to_le_bytes());
    let r = binary(&version1_document(1, &body), 1);
    assert!(matches!(r, Err(BinarySerializationError::UnknownAttribute { attribute_id: 85 })));
}

#[test]
fn deserialize_error_invalid_element_table_index() {
    let mut body: Vec<u8> = b"r\0".to_vec();
    body.push(1);
    body.extend_from_slice(&5i32.to_le_bytes());
    let r = binary(&version1_document(1, &body), 1);
    assert!(matches!(r, Err(BinarySerializationError::InvalidElementTableIndex { index: 5, size: 1 })));
    let mut body: Vec<u8> = b"r\0".to_vec();
    body.push(1);
    body.extend_from_slice(&(-3i32).to_le_bytes());
    let r = binary(&version1_document(1, &body), 1);
    assert!(matches!(r, Err(BinarySerializationError::InvalidElementTableIndex { index: -3, size: 1 })));
}

#[test]
fn deserialize_error_uuid_parse() {
    let mut body: Vec<u8> = b"r\0".to_vec();
    body.push(1);
    body.extend_from_slice(&(-2i32).to_le_bytes());
    body.extend_from_slice(b"not an id\0");
    let r = binary(&version1_document(1, &body), 1);
    assert!(matches!(r, Err(BinarySerializationError::UUIDParseError(_))));
}

#[test]
fn deserialize_error_invalid_prefix_element_attribute() {
    let mut d = vec![0u8];
    d.extend_from_slice(&1i32.to_le_bytes());
    d.extend_from_slice(&1i32.to_le_bytes());
    d.extend_from_slice(b"a\0");
    d.push(1);
    assert!(matches!(binary(&d, 7), Err(BinarySerializationError::InvalidPrefixElementAttribute)));
}
