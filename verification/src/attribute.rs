//! The supported types that data model uses.
//!
//! Floating-point components are held by their IEEE-754 bit patterns
//! (`f32::to_bits`), which is exactly what the binary encoding stores.

use vstd::prelude::*;

verus! {

/// The bytes of a UUID, most significant first (the order of `Uuid::as_bytes`).
pub type UuidBytes = [u8; 16];

/// Binary data.
#[derive(Debug, Clone)]
pub struct BinaryBlock(pub Vec<u8>);

/// A time value in ten-thousandths of a second.
#[derive(Debug, Clone, Copy, PartialEq, Eq, Structural)]
pub struct Time(pub i32);

/// RGBA color values.
#[derive(Debug, Clone, Copy, PartialEq, Eq, Structural)]
pub struct Color {
    pub red: u8,
    pub green: u8,
    pub blue: u8,
    pub alpha: u8,
}

/// A two component vector; components are `f32` bit patterns.
#[derive(Debug, Clone, Copy, PartialEq, Eq, Structural)]
pub struct Vector2 {
    pub x: u32,
    pub y: u32,
}

/// A three component vector; components are `f32` bit patterns.
#[derive(Debug, Clone, Copy, PartialEq, Eq, Structural)]
pub struct Vector3 {
    pub x: u32,
    pub y: u32,
    pub z: u32,
}

/// A four component vector; components are `f32` bit patterns.
#[derive(Debug, Clone, Copy, PartialEq, Eq, Structural)]
pub struct Vector4 {
    pub x: u32,
    pub y: u32,
    pub z: u32,
    pub w: u32,
}

/// Euler angles in degrees; components are `f32` bit patterns.
#[derive(Debug, Clone, Copy, PartialEq, Eq, Structural)]
pub struct Angle {
    pub pitch: u32,
    pub yaw: u32,
    pub roll: u32,
}

/// A rotation quaternion; components are `f32` bit patterns.
#[derive(Debug, Clone, Copy, PartialEq, Eq, Structural)]
pub struct Quaternion {
    pub x: u32,
    pub y: u32,
    pub z: u32,
    pub w: u32,
}

/// A row-major 4x4 matrix; entries are `f32` bit patterns.
#[derive(Debug, Clone, Copy)]
pub struct Matrix(pub [[u32; 4]; 4]);

/// The bit pattern of `1.0f32`.
pub const F32_ONE_BITS: u32 = 0x3F80_0000;

impl Default for BinaryBlock {
    fn default() -> (r: Self)
        ensures
            r.0@ == Seq::<u8>::empty(),
    {
        BinaryBlock(Vec::new())
    }
}

impl Default for Time {
    fn default() -> (r: Self)
        ensures
            r.0 == 0,
    {
        Time(0)
    }
}

impl Default for Color {
    fn default() -> (r: Self)
        ensures
            r == (Color { red: 0, green: 0, blue: 0, alpha: 0 }),
    {
        Color { red: 0, green: 0, blue: 0, alpha: 0 }
    }
}

impl Default for Vector2 {
    fn default() -> (r: Self)
        ensures
            r == (Vector2 { x: 0, y: 0 }),
    {
        Vector2 { x: 0, y: 0 }
    }
}

impl Default for Vector3 {
    fn default() -> (r: Self)
        ensures
            r == (Vector3 { x: 0, y: 0, z: 0 }),
    {
        Vector3 { x: 0, y: 0, z: 0 }
    }
}

impl Default for Vector4 {
    fn default() -> (r: Self)
        ensures
            r == (Vector4 { x: 0, y: 0, z: 0, w: 0 }),
    {
        Vector4 { x: 0, y: 0, z: 0, w: 0 }
    }
}

impl Default for Angle {
    fn default() -> (r: Self)
        ensures
            r == (Angle { pitch: 0, yaw: 0, roll: 0 }),
    {
        Angle { pitch: 0, yaw: 0, roll: 0 }
    }
}

impl Default for Quaternion {
    /// The identity rotation: `(0, 0, 0, 1)`.
    fn default() -> (r: Self)
        ensures
            r == (Quaternion { x: 0, y: 0, z: 0, w: F32_ONE_BITS }),
    {
        Quaternion { x: 0, y: 0, z: 0, w: F32_ONE_BITS }
    }
}

impl Default for Matrix {
    fn default() -> (r: Self)
        ensures
            forall|i: int, j: int| 0 <= i < 4 && 0 <= j < 4 ==> r.0@[i]@[j] == 0,
    {
        Matrix([[0u32; 4]; 4])
    }
}

/// The kind of value an attribute holds.
#[derive(Clone, Copy, Debug, Eq, PartialEq, Structural)]
pub enum AttributeType {
    Element,
    Integer,
    Float,
    Boolean,
    String,
    Binary,
    ObjectId,
    Time,
    Color,
    Vector2,
    Vector3,
    Vector4,
    Angle,
    Quaternion,
    Matrix,
    ULong,
    UByte,
    ElementArray,
    IntegerArray,
    FloatArray,
    BooleanArray,
    StringArray,
    BinaryArray,
    ObjectIdArray,
    TimeArray,
    ColorArray,
    Vector2Array,
    Vector3Array,
    Vector4Array,
    AngleArray,
    QuaternionArray,
    MatrixArray,
    ULongArray,
    UByteArray,
}

/// The value of an attribute. An element value refers to an element of an
/// [crate::ElementGraph] by its position in the graph.
#[derive(Clone, Debug)]
pub enum AttributeValue {
    Element(Option<usize>),
    Integer(i32),
    Float(u32),
    Boolean(bool),
    String(String),
    Binary(BinaryBlock),
    ObjectId(UuidBytes),
    Time(Time),
    Color(Color),
    Vector2(Vector2),
    Vector3(Vector3),
    Vector4(Vector4),
    Angle(Angle),
    Quaternion(Quaternion),
    Matrix(Matrix),
    ULong(u64),
    UByte(u8),
    ElementArray(Vec<Option<usize>>),
    IntegerArray(Vec<i32>),
    FloatArray(Vec<u32>),
    BooleanArray(Vec<bool>),
    StringArray(Vec<String>),
    BinaryArray(Vec<BinaryBlock>),
    ObjectIdArray(Vec<UuidBytes>),
    TimeArray(Vec<Time>),
    ColorArray(Vec<Color>),
    Vector2Array(Vec<Vector2>),
    Vector3Array(Vec<Vector3>),
    Vector4Array(Vec<Vector4>),
    AngleArray(Vec<Angle>),
    QuaternionArray(Vec<Quaternion>),
    MatrixArray(Vec<Matrix>),
    ULongArray(Vec<u64>),
    UByteArray(Vec<u8>),
}

/// An attribute value as a value of specifications.
pub enum SpecAttributeValue {
    Element(Option<usize>),
    Integer(i32),
    Float(u32),
    Boolean(bool),
    String(Seq<char>),
    Binary(Seq<u8>),
    ObjectId(Seq<u8>),
    Time(Time),
    Color(Color),
    Vector2(Vector2),
    Vector3(Vector3),
    Vector4(Vector4),
    Angle(Angle),
    Quaternion(Quaternion),
    Matrix(Seq<u32>),
    ULong(u64),
    UByte(u8),
    ElementArray(Seq<Option<usize>>),
    IntegerArray(Seq<i32>),
    FloatArray(Seq<u32>),
    BooleanArray(Seq<bool>),
    StringArray(Seq<Seq<char>>),
    BinaryArray(Seq<Seq<u8>>),
    ObjectIdArray(Seq<Seq<u8>>),
    TimeArray(Seq<Time>),
    ColorArray(Seq<Color>),
    Vector2Array(Seq<Vector2>),
    Vector3Array(Seq<Vector3>),
    Vector4Array(Seq<Vector4>),
    AngleArray(Seq<Angle>),
    QuaternionArray(Seq<Quaternion>),
    MatrixArray(Seq<Seq<u32>>),
    ULongArray(Seq<u64>),
    UByteArray(Seq<u8>),
}

/// The sixteen entries of a matrix, row by row.
pub open spec fn matrix_entries(m: Matrix) -> Seq<u32> {
    Seq::new(16, |k: int| m.0@[k / 4]@[k % 4])
}

pub open spec fn matrices_view(v: Seq<Matrix>) -> Seq<Seq<u32>> {
    v.map_values(|m: Matrix| matrix_entries(m))
}

pub open spec fn strings_view(v: Seq<String>) -> Seq<Seq<char>> {
    v.map_values(|s: String| s@)
}

pub open spec fn uuids_view(v: Seq<UuidBytes>) -> Seq<Seq<u8>> {
    v.map_values(|b: UuidBytes| b@)
}

pub open spec fn blocks_view(v: Seq<BinaryBlock>) -> Seq<Seq<u8>> {
    v.map_values(|b: BinaryBlock| b.0@)
}

impl View for AttributeValue {
    type V = SpecAttributeValue;

    open spec fn view(&self) -> SpecAttributeValue {
        match self {
            AttributeValue::Element(v) => SpecAttributeValue::Element(*v),
            AttributeValue::Integer(v) => SpecAttributeValue::Integer(*v),
            AttributeValue::Float(v) => SpecAttributeValue::Float(*v),
            AttributeValue::Boolean(v) => SpecAttributeValue::Boolean(*v),
            AttributeValue::String(v) => SpecAttributeValue::String(v@),
            AttributeValue::Binary(v) => SpecAttributeValue::Binary(v.0@),
            AttributeValue::ObjectId(v) => SpecAttributeValue::ObjectId(v@),
            AttributeValue::Time(v) => SpecAttributeValue::Time(*v),
            AttributeValue::Color(v) => SpecAttributeValue::Color(*v),
            AttributeValue::Vector2(v) => SpecAttributeValue::Vector2(*v),
            AttributeValue::Vector3(v) => SpecAttributeValue::Vector3(*v),
            AttributeValue::Vector4(v) => SpecAttributeValue::Vector4(*v),
            AttributeValue::Angle(v) => SpecAttributeValue::Angle(*v),
            AttributeValue::Quaternion(v) => SpecAttributeValue::Quaternion(*v),
            AttributeValue::Matrix(v) => SpecAttributeValue::Matrix(matrix_entries(*v)),
            AttributeValue::ULong(v) => SpecAttributeValue::ULong(*v),
            AttributeValue::UByte(v) => SpecAttributeValue::UByte(*v),
            AttributeValue::ElementArray(v) => SpecAttributeValue::ElementArray(v@),
            AttributeValue::IntegerArray(v) => SpecAttributeValue::IntegerArray(v@),
            AttributeValue::FloatArray(v) => SpecAttributeValue::FloatArray(v@),
            AttributeValue::BooleanArray(v) => SpecAttributeValue::BooleanArray(v@),
            AttributeValue::StringArray(v) => SpecAttributeValue::StringArray(strings_view(v@)),
            AttributeValue::BinaryArray(v) => SpecAttributeValue::BinaryArray(blocks_view(v@)),
            AttributeValue::ObjectIdArray(v) => SpecAttributeValue::ObjectIdArray(uuids_view(v@)),
            AttributeValue::TimeArray(v) => SpecAttributeValue::TimeArray(v@),
            AttributeValue::ColorArray(v) => SpecAttributeValue::ColorArray(v@),
            AttributeValue::Vector2Array(v) => SpecAttributeValue::Vector2Array(v@),
            AttributeValue::Vector3Array(v) => SpecAttributeValue::Vector3Array(v@),
            AttributeValue::Vector4Array(v) => SpecAttributeValue::Vector4Array(v@),
            AttributeValue::AngleArray(v) => SpecAttributeValue::AngleArray(v@),
            AttributeValue::QuaternionArray(v) => SpecAttributeValue::QuaternionArray(v@),
            AttributeValue::MatrixArray(v) => SpecAttributeValue::MatrixArray(matrices_view(v@)),
            AttributeValue::ULongArray(v) => SpecAttributeValue::ULongArray(v@),
            AttributeValue::UByteArray(v) => SpecAttributeValue::UByteArray(v@),
        }
    }
}

/// The type of a specification value.
pub open spec fn spec_type_of(v: SpecAttributeValue) -> AttributeType {
    match v {
        SpecAttributeValue::Element(_) => AttributeType::Element,
        SpecAttributeValue::Integer(_) => AttributeType::Integer,
        SpecAttributeValue::Float(_) => AttributeType::Float,
        SpecAttributeValue::Boolean(_) => AttributeType::Boolean,
        SpecAttributeValue::String(_) => AttributeType::String,
        SpecAttributeValue::Binary(_) => AttributeType::Binary,
        SpecAttributeValue::ObjectId(_) => AttributeType::ObjectId,
        SpecAttributeValue::Time(_) => AttributeType::Time,
        SpecAttributeValue::Color(_) => AttributeType::Color,
        SpecAttributeValue::Vector2(_) => AttributeType::Vector2,
        SpecAttributeValue::Vector3(_) => AttributeType::Vector3,
        SpecAttributeValue::Vector4(_) => AttributeType::Vector4,
        SpecAttributeValue::Angle(_) => AttributeType::Angle,
        SpecAttributeValue::Quaternion(_) => AttributeType::Quaternion,
        SpecAttributeValue::Matrix(_) => AttributeType::Matrix,
        SpecAttributeValue::ULong(_) => AttributeType::ULong,
        SpecAttributeValue::UByte(_) => AttributeType::UByte,
        SpecAttributeValue::ElementArray(_) => AttributeType::ElementArray,
        SpecAttributeValue::IntegerArray(_) => AttributeType::IntegerArray,
        SpecAttributeValue::FloatArray(_) => AttributeType::FloatArray,
        SpecAttributeValue::BooleanArray(_) => AttributeType::BooleanArray,
        SpecAttributeValue::StringArray(_) => AttributeType::StringArray,
        SpecAttributeValue::BinaryArray(_) => AttributeType::BinaryArray,
        SpecAttributeValue::ObjectIdArray(_) => AttributeType::ObjectIdArray,
        SpecAttributeValue::TimeArray(_) => AttributeType::TimeArray,
        SpecAttributeValue::ColorArray(_) => AttributeType::ColorArray,
        SpecAttributeValue::Vector2Array(_) => AttributeType::Vector2Array,
        SpecAttributeValue::Vector3Array(_) => AttributeType::Vector3Array,
        SpecAttributeValue::Vector4Array(_) => AttributeType::Vector4Array,
        SpecAttributeValue::AngleArray(_) => AttributeType::AngleArray,
        SpecAttributeValue::QuaternionArray(_) => AttributeType::QuaternionArray,
        SpecAttributeValue::MatrixArray(_) => AttributeType::MatrixArray,
        SpecAttributeValue::ULongArray(_) => AttributeType::ULongArray,
        SpecAttributeValue::UByteArray(_) => AttributeType::UByteArray,
    }
}

impl AttributeValue {
    /// The type of the value.
    pub fn attribute_type(&self) -> (r: AttributeType)
        ensures
            r == spec_type_of(self@),
    {
        match self {
            AttributeValue::Element(_) => AttributeType::Element,
            AttributeValue::Integer(_) => AttributeType::Integer,
            AttributeValue::Float(_) => AttributeType::Float,
            AttributeValue::Boolean(_) => AttributeType::Boolean,
            AttributeValue::String(_) => AttributeType::String,
            AttributeValue::Binary(_) => AttributeType::Binary,
            AttributeValue::ObjectId(_) => AttributeType::ObjectId,
            AttributeValue::Time(_) => AttributeType::Time,
            AttributeValue::Color(_) => AttributeType::Color,
            AttributeValue::Vector2(_) => AttributeType::Vector2,
            AttributeValue::Vector3(_) => AttributeType::Vector3,
            AttributeValue::Vector4(_) => AttributeType::Vector4,
            AttributeValue::Angle(_) => AttributeType::Angle,
            AttributeValue::Quaternion(_) => AttributeType::Quaternion,
            AttributeValue::Matrix(_) => AttributeType::Matrix,
            AttributeValue::ULong(_) => AttributeType::ULong,
            AttributeValue::UByte(_) => AttributeType::UByte,
            AttributeValue::ElementArray(_) => AttributeType::ElementArray,
            AttributeValue::IntegerArray(_) => AttributeType::IntegerArray,
            AttributeValue::FloatArray(_) => AttributeType::FloatArray,
            AttributeValue::BooleanArray(_) => AttributeType::BooleanArray,
            AttributeValue::StringArray(_) => AttributeType::StringArray,
            AttributeValue::BinaryArray(_) => AttributeType::BinaryArray,
            AttributeValue::ObjectIdArray(_) => AttributeType::ObjectIdArray,
            AttributeValue::TimeArray(_) => AttributeType::TimeArray,
            AttributeValue::ColorArray(_) => AttributeType::ColorArray,
            AttributeValue::Vector2Array(_) => AttributeType::Vector2Array,
            AttributeValue::Vector3Array(_) => AttributeType::Vector3Array,
            AttributeValue::Vector4Array(_) => AttributeType::Vector4Array,
            AttributeValue::AngleArray(_) => AttributeType::AngleArray,
            AttributeValue::QuaternionArray(_) => AttributeType::QuaternionArray,
            AttributeValue::MatrixArray(_) => AttributeType::MatrixArray,
            AttributeValue::ULongArray(_) => AttributeType::ULongArray,
            AttributeValue::UByteArray(_) => AttributeType::UByteArray,
        }
    }
}

} // verus!
