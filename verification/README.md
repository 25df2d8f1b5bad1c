# datamodel

A library for Valve's DMX data model files, written in Verus and verified.

Elements carry typed attributes and live in an `ElementGraph`, where element
attributes refer to other elements by their position in the graph. Floating-point
values are held by their IEEE-754 bit patterns.

Supported encodings:

- `binary`, versions 1 to 9;
- `keyvalues2` and `keyvalues2_flat`, versions 1 to 4.

Layout:

- `src/` — the verified library: the file header, the element model, the binary
  reader and writer, and the KeyValues2 reader and writer. Each encoding is
  specified by functions over plain values (`decode_binary`, `encode_binary`,
  `decode_kv2`, `encode_kv2`), and the executable code is proved to compute them.
  What reading gives back of writing is proved in `serializers::binary_round_trip`
  (whole binary documents and files), `serializers::binary_format` and
  `serializers::binary_laws` (binary integers, strings and values), and for
  KeyValues2 in `serializers::keyvalues2_round_trip` (whole documents of one
  element whose attributes hold one-line values, arrays of them or empty
  element references), `serializers::keyvalues2_laws`
  (the value texts and attribute lines) and `serializers::keyvalues2_token`
  (escaped strings). KeyValues2 documents whose elements refer to other
  elements have no such law.
- The KeyValues2 reader counts columns in characters, so lines with
  non-ASCII text are read character by character.
- `app/` — what needs floating point or the file system: the texts of `f32`
  values, reading and writing files, and error types with messages.
- `tests/` — tests of the library.
