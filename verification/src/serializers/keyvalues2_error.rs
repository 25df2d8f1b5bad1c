//! The errors of the KeyValues2 encodings.

use vstd::prelude::*;
use crate::attribute::UuidBytes;

verus! {

/// An error of [crate::serializers::keyvalues2::KeyValues2Serializer] and
/// [crate::serializers::keyvalues2::KeyValues2FlatSerializer]. Positions are
/// a line and a column of the text; elements are named by their graph position.
#[derive(Debug, Clone, Copy, PartialEq, Eq)]
pub enum KeyValues2SerializationError {
    /// A line of the text is not valid UTF-8.
    Io,
    /// The encoding named in the header is not this one.
    WrongEncoding,
    /// The version is not between 1 and the newest one.
    InvalidEncodingVersion,
    /// A character that starts no token.
    UnknownToken(char, usize, usize),
    /// A backslash before a character that is no escape.
    UnknownEscapeCharacter(char, usize, usize),
    /// A backslash at the end of a line or before white space.
    UnfinishedEscapeCharacter(usize, usize),
    /// The text ended inside a quoted string.
    UnfinishedQuoteString(usize, usize),
    /// An opening brace was expected.
    ExpectedOpenBrace(usize, usize),
    /// An opening brace where none may stand.
    UnexpectedOpenBrace(usize, usize),
    /// A closing brace where none may stand.
    UnexpectedCloseBrace(usize, usize),
    /// An opening bracket was expected.
    ExpectedOpenBracket(usize, usize),
    /// An opening bracket where none may stand.
    UnexpectedOpenBracket(usize, usize),
    /// A closing bracket where none may stand.
    UnexpectedCloseBracket(usize, usize),
    /// The text ended inside an element.
    UnexpectedEndOfFile,
    /// An integer value did not parse.
    ParseIntegerError(usize, usize),
    /// A floating-point value did not parse.
    ParseFloatError(usize, usize),
    /// A boolean value did not parse.
    ParseBooleanError(usize, usize),
    /// An id did not parse.
    ParseUUIDError(usize, usize),
    /// A time value is out of the range of a time.
    TimeAttributeOutOFRange(usize, usize),
    /// A "name" attribute whose type is not string.
    InvalidNameAttributeType(usize, usize),
    /// An element's "name" attribute is not a string.
    InvalidNameAttribute { element: usize },
    /// An element's "id" attribute is an object id.
    InvalidIdAttribute { element: usize },
    /// A newly generated element id was already in use.
    DuplicateGeneratedElementId,
    /// Two elements of the text have the same id.
    DuplicateElementId(UuidBytes),
    /// A value has too few parts.
    InvalidAttributeValue(usize, usize),
    /// The text holds no elements.
    NoElements,
}

} // verus!
