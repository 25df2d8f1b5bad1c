//! The encodings that elements are stored in.

pub mod binary_format;
pub mod binary_error;
pub mod binary_read;
pub mod binary_document;
pub mod binary;
pub mod collect;
pub mod binary_encode;
pub mod binary_write;
pub mod binary_laws;
pub mod keyvalues2_text;
pub mod keyvalues2_collect;
pub mod keyvalues2_error;
pub mod keyvalues2_encode;
pub mod keyvalues2_write;
pub mod keyvalues2_token;
pub mod keyvalues2_values;
pub mod keyvalues2_parse;
pub mod keyvalues2_read;
pub mod binary_round_trip;
pub mod keyvalues2_laws;
pub mod keyvalues2;
pub mod keyvalues2_round_trip;
