use datamodel::attribute::AttributeValue;
use datamodel::serializers::keyvalues2_text::format_escape_characters;
use datamodel::text::{parse_i32, IntParseError};
use datamodel::{Element, Header, KeyValues2Serializer, ParsedTime};

fn chars(s: &str) -> Vec<char> {
    s.chars().collect()
}

#[test]
fn written_header_parses_back() {
    let header = Header::new(String::from("sfm_session"), 22);
    let line = header.create_header("keyvalues2_flat", 3);
    assert_eq!(line, "<!-- dmx encoding keyvalues2_flat 3 format sfm_session 22 -->\n");
    let (back, encoding, version) = Header::from_string(line).unwrap();
    assert_eq!(back.format, "sfm_session");
    assert_eq!(back.format_version, 22);
    assert_eq!(encoding, "keyvalues2_flat");
    assert_eq!(version, 3);
}

#[test]
fn written_header_with_negative_versions_parses_back() {
    let header = Header::new(String::from("model"), -5);
    let (back, _, version) = Header::from_string(header.create_header("binary", -2147483648)).unwrap();
    assert_eq!(back.format_version, -5);
    assert_eq!(version, i32::MIN);
}

#[test]
fn decimal_text_parses_back() {
    assert_eq!(parse_i32(&chars(&i32::MIN.to_string())), Ok(i32::MIN));
    assert_eq!(parse_i32(&chars(&i32::MAX.to_string())), Ok(i32::MAX));
    assert_eq!(parse_i32(&chars("0")), Ok(0));
    assert_eq!(parse_i32(&chars("2147483648")), Err(IntParseError::PosOverflow));
    assert_eq!(parse_i32(&chars("-2147483649")), Err(IntParseError::NegOverflow));
    assert_eq!(parse_i32(&chars("")), Err(IntParseError::Empty));
    assert_eq!(parse_i32(&chars("+")), Err(IntParseError::InvalidDigit));
    assert_eq!(parse_i32(&chars("+17")), Ok(17));
}

#[test]
fn attribute_set_then_get() {
    let mut e = Element::full(String::from("DmElement"), [7u8; 16]);
    assert!(e.set_attribute(String::from("a"), AttributeValue::Integer(1)).is_none());
    e.set_attribute(String::from("b"), AttributeValue::Integer(2));
    let old = e.set_attribute(String::from("a"), AttributeValue::Integer(3));
    assert!(matches!(old, Some(AttributeValue::Integer(1))));
    assert!(matches!(e.get_attribute("a"), Some(AttributeValue::Integer(3))));
    assert!(matches!(e.get_attribute("b"), Some(AttributeValue::Integer(2))));
    let names: Vec<&String> = e.get_attributes().keys().collect();
    assert_eq!(names, vec!["a", "b"]);
    assert!(e.remove_attribute("a").is_some());
    assert!(e.get_attribute("a").is_none());
}

#[test]
fn escaped_string_reads_back() {
    let plain = "say \"hi\", it's a \\path";
    let escaped = format_escape_characters(plain);
    assert_eq!(escaped, "say \\\"hi\\\", it\\'s a \\\\path");
    let text = format!("\"E\" {{ \"s\" \"string\" \"{}\" }}\n", escaped);
    let parse_float = |s: &str| s.parse::<f32>().ok().map(f32::to_bits);
    let parse_time = |_: &str| ParsedTime::Invalid;
    let (graph, root) = KeyValues2Serializer::deserialize_with_ids(
        text.as_bytes(),
        String::from("keyvalues2"),
        4,
        &[[1u8; 16]],
        &parse_float,
        &parse_time,
    )
    .unwrap();
    assert!(matches!(graph.get(root).get_attribute("s"), Some(AttributeValue::String(s)) if s == plain));
}

#[test]
fn backslash_before_quote_is_kept_as_escape() {
    assert_eq!(format_escape_characters("a\\\"b"), "a\\\"b");
}

#[test]
fn escaped_string_with_line_feeds_reads_back() {
    let plain = "first line\nsecond \"line\"\n\nlast";
    let escaped = format_escape_characters(plain);
    let text = format!("\"E\" {{ \"s\" \"string\" \"{}\" }}\n", escaped);
    let parse_float = |s: &str| s.parse::<f32>().ok().map(f32::to_bits);
    let parse_time = |_: &str| ParsedTime::Invalid;
    let (graph, root) = KeyValues2Serializer::deserialize_with_ids(
        text.as_bytes(),
        String::from("keyvalues2"),
        4,
        &[[1u8; 16]],
        &parse_float,
        &parse_time,
    )
    .unwrap();
    assert!(matches!(graph.get(root).get_attribute("s"), Some(AttributeValue::String(s)) if s == plain));
}
