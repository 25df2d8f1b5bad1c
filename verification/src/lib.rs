//! # Data Model
//!
//! A way to interface with Valve's datamodel formats: elements that carry
//! typed attributes, and the DMX file encodings that store them.
//!
//! Elements live in an [`ElementGraph`], an arena in which element
//! attributes refer to other elements by their position, and floating-point
//! values are held by their IEEE-754 bit patterns, so that every encoding
//! step is stated over plain values.

pub mod text;
pub mod collections;
pub mod ids;
pub mod attribute;
pub mod element;
pub mod serializing;
pub mod serializers;

pub use element::{Element, ElementGraph};
pub use serializing::{deserialize, deserialize_with_ids, FileHeaderError, Header, SerializationError};
pub use serializers::binary::BinarySerializer;
pub use serializers::binary_error::BinarySerializationError;
pub use serializers::keyvalues2::{KeyValues2FlatSerializer, KeyValues2Serializer};
pub use serializers::keyvalues2_error::KeyValues2SerializationError;
pub use serializers::keyvalues2_values::ParsedTime;
