use datamodel::text::IntParseError;
use datamodel::{FileHeaderError, Header};

fn parse(s: &str) -> Result<(Header, String, i32), FileHeaderError> {
    Header::from_string(String::from(s))
}

#[test]
fn header_line_parses() {
    let (header, encoding, version) = parse("  <!-- dmx encoding keyvalues2 4 format model 18 -->\n").unwrap();
    assert_eq!(header.format, "model");
    assert_eq!(header.format_version, 18);
    assert_eq!(encoding, "keyvalues2");
    assert_eq!(version, 4);
}

#[test]
fn created_header_text_is_exact() {
    let header = Header::new(String::from("model"), 18);
    assert_eq!(header.create_header("binary", 5), "<!-- dmx encoding binary 5 format model 18 -->\n");
    let current = Header::current();
    assert_eq!(current.format, "dmx");
    assert_eq!(current.format_version, 22);
}

#[test]
fn header_error_invalid_file_header() {
    assert!(matches!(parse("<!-- dmx encoding binary 2 format model -->"), Err(FileHeaderError::InvalidFileHeader)));
    assert!(matches!(parse("<!-- dmx encoding binary 2 format model 18"), Err(FileHeaderError::InvalidFileHeader)));
    assert!(matches!(parse("<!-- DMXVersion binary_v2 extra -->"), Err(FileHeaderError::InvalidFileHeader)));
    assert!(matches!(parse("plain text"), Err(FileHeaderError::InvalidFileHeader)));
}

#[test]
fn header_error_parse_int() {
    assert!(matches!(
        parse("<!-- dmx encoding binary x format model 18 -->"),
        Err(FileHeaderError::ParseInt(IntParseError::InvalidDigit))
    ));
    assert!(matches!(
        parse("<!-- dmx encoding binary 2 format model 99999999999 -->"),
        Err(FileHeaderError::ParseInt(IntParseError::PosOverflow))
    ));
    assert!(matches!(
        parse("<!-- dmx encoding binary -99999999999 format model 1 -->"),
        Err(FileHeaderError::ParseInt(IntParseError::NegOverflow))
    ));
}

#[test]
fn legacy_headers() {
    let (header, encoding, version) = parse("<!-- DMXVersion binary_v2 -->").unwrap();
    assert_eq!((header.format.as_str(), header.format_version), ("dmx", 22));
    assert_eq!((encoding.as_str(), version), ("binary", 1));
    let (header, encoding, version) = parse("<!-- DMXVersion sfm_v3 -->").unwrap();
    assert_eq!((header.format.as_str(), header.format_version), ("sfm_v3", 1));
    assert_eq!((encoding.as_str(), version), ("binary", 1));
    let (_, encoding, _) = parse("<!-- DMXVersion keyvalues2_v1 -->").unwrap();
    assert_eq!(encoding, "keyvalues2");
    let (_, encoding, _) = parse("<!-- DMXVersion keyvalues2_flat_v1 -->").unwrap();
    assert_eq!(encoding, "keyvalues2_flat");
}

#[test]
fn header_error_unknown_legacy_encoding() {
    match parse("<!-- DMXVersion xml_v1 -->") {
        Err(FileHeaderError::UnknownLegacyEncoding(s)) => assert_eq!(s, "xml_v1"),
        other => panic!("unexpected result {:?}", other.map(|(h, e, v)| (h.format, e, v))),
    }
}

#[test]
fn header_from_buffer_reads_first_line() {
    let (header, encoding, version) = Header::from_buffer(b"<!-- dmx encoding binary 9 format dmx 22 -->\nrest").unwrap();
    assert_eq!(header.format, "dmx");
    assert_eq!(encoding, "binary");
    assert_eq!(version, 9);
}

#[test]
fn set_format_keeps_at_most_64_characters() {
    let mut header = Header::new(String::from("a"), 3);
    header.set_format("x".repeat(70));
    assert_eq!(header.get_format(), "x".repeat(64));
    assert_eq!(header.format_version, 3);
    header.set_format("\u{e9}".repeat(66));
    assert_eq!(header.get_format(), "\u{e9}".repeat(64));
    header.set_format("\u{e9}".repeat(33));
    assert_eq!(header.get_format(), "\u{e9}".repeat(33));
    header.set_format(String::from("short"));
    assert_eq!(header.get_format(), "short");
}
