//! The errors of the binary encoding.

use vstd::prelude::*;
use crate::serializers::binary_format::SpecBinaryError;

verus! {

/// An error of [crate::serializers::binary::BinarySerializer]. Elements are
/// named by their position in the graph being written.
#[derive(Debug)]
pub enum BinarySerializationError {
    /// The data ended before a value was complete.
    BufferError,
    /// The version is not between 1 and the newest binary version.
    InvalidVersion { version: i32 },
    /// The string table would be longer than the version allows.
    TooManyStrings { count: usize, max: usize },
    /// There are more elements than a table can hold.
    TooManyElements { count: usize },
    /// An element's "name" attribute is not a string.
    InvalidNameAttribute { element: usize },
    /// An element has more attributes than a table can hold.
    TooManyAttributes { element: usize, count: usize },
    /// An element's "id" attribute is an object id.
    InvalidIdAttribute { element: usize },
    /// Binary data is longer than an array can be.
    BinaryDataTooLong { attribute: String, element: usize, count: usize },
    /// An attribute has a type that the version does not support.
    InvalidVersionForAttribute { attribute: String, element: usize, min: i32, max: i32 },
    /// An array attribute is longer than an array can be.
    AttributeArrayTooLong { attribute: String, element: usize, count: usize },
    /// The encoding named in the header is not binary.
    WrongEncoding,
    /// A size read from the data is negative.
    InvalidArraySize,
    /// A string table index read from the data is out of range.
    InvalidStringTableIndex,
    /// The prefix element has an element attribute.
    InvalidPrefixElementAttribute,
    /// An attribute type id is not known.
    UnknownAttribute { attribute_id: i8 },
    /// An element index read from the data is out of range.
    InvalidElementTableIndex { index: i32, size: usize },
    /// An external element's id did not parse.
    UUIDParseError(uuid::Error),
    /// The data holds no elements.
    NoElements,
}

impl View for BinarySerializationError {
    type V = SpecBinaryError;

    open spec fn view(&self) -> SpecBinaryError {
        match self {
            BinarySerializationError::BufferError => SpecBinaryError::BufferError,
            BinarySerializationError::InvalidVersion { version } => SpecBinaryError::InvalidVersion { version: *version },
            BinarySerializationError::TooManyStrings { count, max } => SpecBinaryError::TooManyStrings { count: *count as int, max: *max as int },
            BinarySerializationError::TooManyElements { count } => SpecBinaryError::TooManyElements { count: *count as int },
            BinarySerializationError::InvalidNameAttribute { element } => SpecBinaryError::InvalidNameAttribute { element: *element as int },
            BinarySerializationError::TooManyAttributes { element, count } => SpecBinaryError::TooManyAttributes { element: *element as int, count: *count as int },
            BinarySerializationError::InvalidIdAttribute { element } => SpecBinaryError::InvalidIdAttribute { element: *element as int },
            BinarySerializationError::BinaryDataTooLong { attribute, element, count } => SpecBinaryError::BinaryDataTooLong { attribute: attribute@, element: *element as int, count: *count as int },
            BinarySerializationError::InvalidVersionForAttribute { attribute, element, min, max } => SpecBinaryError::InvalidVersionForAttribute { attribute: attribute@, element: *element as int, min: *min, max: *max },
            BinarySerializationError::AttributeArrayTooLong { attribute, element, count } => SpecBinaryError::AttributeArrayTooLong { attribute: attribute@, element: *element as int, count: *count as int },
            BinarySerializationError::WrongEncoding => SpecBinaryError::WrongEncoding,
            BinarySerializationError::InvalidArraySize => SpecBinaryError::InvalidArraySize,
            BinarySerializationError::InvalidStringTableIndex => SpecBinaryError::InvalidStringTableIndex,
            BinarySerializationError::InvalidPrefixElementAttribute => SpecBinaryError::InvalidPrefixElementAttribute,
            BinarySerializationError::UnknownAttribute { attribute_id } => SpecBinaryError::UnknownAttribute { attribute_id: *attribute_id },
            BinarySerializationError::InvalidElementTableIndex { index, size } => SpecBinaryError::InvalidElementTableIndex { index: *index, size: *size as int },
            BinarySerializationError::UUIDParseError(_) => SpecBinaryError::UUIDParseError,
            BinarySerializationError::NoElements => SpecBinaryError::NoElements,
        }
    }
}

} // verus!
