//! Reading values of the binary encoding from bytes.

use vstd::prelude::*;
use crate::attribute::{
    blocks_view, matrices_view, matrix_entries, strings_view, uuids_view, Angle, AttributeValue,
    BinaryBlock, Color, Matrix, Quaternion, SpecAttributeValue, Time, UuidBytes, Vector2, Vector3,
    Vector4,
};
use crate::ids::from_bytes_le;
use crate::serializers::binary_format::{
    array_offset, available, dec_u32, item_angle, item_block, item_bool, item_color, item_i32,
    item_matrix, item_quaternion, item_string, item_time, item_u32, item_u64, item_uuid,
    item_vector2, item_vector3, item_vector4, matrix_at, p_array, p_attribute, p_block, p_bytes,
    p_i16, p_i32, p_i8, p_many, p_single, p_size, p_string, p_string_bytes, p_u32, p_u64, p_u8,
    p_uuid, table_string, u32_at, zero_at, SRead, SpecBinaryError, ATTRIBUTE_ANGLE_ID,
    ATTRIBUTE_BINARY_ID, ATTRIBUTE_BOOLEAN_ID, ATTRIBUTE_COLOR_ID, ATTRIBUTE_FLOAT_ID,
    ATTRIBUTE_INITIAL_ARRAY_OFFSET, ATTRIBUTE_INTEGER_ID, ATTRIBUTE_MATRIX_ID,
    ATTRIBUTE_OBJECTID_ID, ATTRIBUTE_QUATERNION_ID, ATTRIBUTE_STRING_ID, ATTRIBUTE_TIME_ID,
    ATTRIBUTE_UBYTE_ID, ATTRIBUTE_ULONG_ID, ATTRIBUTE_UNSIGNED_INTEGERS_ARRAY_OFFSET,
    ATTRIBUTE_VECTOR2_ID, ATTRIBUTE_VECTOR3_ID, ATTRIBUTE_VECTOR4_ID, VERSION_DEPRECATE_OBJECT_ID,
    VERSION_UNSIGNED_INTEGERS,
};
use crate::serializers::binary_error::BinarySerializationError;
use crate::text::from_utf8_lossy;

verus! {

/// A reading step in exec code matches a specification step.
pub open spec fn step<T>(r: Result<T, BinarySerializationError>, pos: usize, s: SRead<T>) -> bool {
    match s {
        Ok((v, q)) => r == Ok::<T, BinarySerializationError>(v) && pos == q,
        Err(e) => r matches Err(x) && x@ == e,
    }
}

/// A reading step whose exec value is seen through `view`.
pub open spec fn step_view<T, V>(r: Result<T, BinarySerializationError>, pos: usize, s: SRead<V>, view: spec_fn(T) -> V) -> bool {
    match s {
        Ok((v, q)) => r matches Ok(x) && view(x) == v && pos == q,
        Err(e) => r matches Err(x) && x@ == e,
    }
}

/// Errors of `p_many` carry over to longer runs.
pub proof fn lemma_p_many_err<T>(d: Seq<u8>, p: int, k: nat, n: nat, item: spec_fn(Seq<u8>, int) -> SRead<T>)
    requires
        k <= n,
        p_many(d, p, k, item) is Err,
    ensures
        p_many(d, p, n, item) == p_many(d, p, k, item),
    decreases n - k,
{
    if k < n {
        lemma_p_many_err(d, p, k, (n - 1) as nat, item);
    }
}

proof fn lemma_zero_at(d: Seq<u8>, p: int, j: int)
    requires
        0 <= p <= j <= d.len(),
        forall|k: int| p <= k < j ==> d[k] != 0,
    ensures
        j < d.len() && d[j] == 0 ==> zero_at(d, p) == Some(j),
        j == d.len() ==> zero_at(d, p) is None,
    decreases j - p,
{
    if p < j {
        lemma_zero_at(d, p + 1, j);
    }
}

/// A position in bytes being read.
pub struct Reader<'a> {
    pub data: &'a [u8],
    pub pos: usize,
}

/// Copies `d[from..to]`.
pub fn copy_bytes(d: &[u8], from: usize, to: usize) -> (r: Vec<u8>)
    requires
        from <= to <= d@.len(),
    ensures
        r@ == d@.subrange(from as int, to as int),
{
    let mut r: Vec<u8> = Vec::new();
    let mut i = from;
    while i < to
        invariant
            from <= i <= to <= d@.len(),
            r@ == d@.subrange(from as int, i as int),
        decreases to - i,
    {
        r.push(d[i]);
        i = i + 1;
    }
    r
}

/// The `u32` stored at `p`, little endian.
pub fn u32_at_exec(d: &[u8], p: usize) -> (r: u32)
    requires
        available(d@, p as int, 4),
    ensures
        r == u32_at(d@, p as int),
        r as int == dec_u32(d@, p as int),
{
    let b0 = d[p] as u32;
    let b1 = d[p + 1] as u32;
    let b2 = d[p + 2] as u32;
    let b3 = d[p + 3] as u32;
    b0 + 256 * b1 + 65536 * b2 + 16777216 * b3
}

impl<'a> Reader<'a> {
    pub open spec fn d(&self) -> Seq<u8> {
        self.data@
    }

    pub fn new(data: &'a [u8]) -> (r: Self)
        ensures
            r.data@ == data@,
            r.pos == 0,
    {
        Reader { data, pos: 0 }
    }

    /// Whether `n` more bytes can be read.
    fn has(&self, n: usize) -> (r: bool)
        ensures
            r == available(self.d(), self.pos as int, n as int),
            self.data@.len() <= usize::MAX,
    {
        let len = self.data.len();
        self.pos <= len && len - self.pos >= n
    }

    /// Reads a zero-terminated string.
    pub fn read_string(&mut self) -> (r: String)
        ensures
            final(self).data@ == old(self).data@,
            (r@, final(self).pos as int) == p_string(old(self).d(), old(self).pos as int),
    {
        let n = self.data.len();
        let start = self.pos;
        if start >= n {
            let e: Vec<u8> = Vec::new();
            proof {
                assert(e@ == p_string_bytes(self.d(), start as int).0);
            }
            return from_utf8_lossy(e.as_slice());
        }
        let mut j = start;
        while j < n && self.data[j] != 0
            invariant
                start <= j <= n,
                n == self.data@.len(),
                forall|k: int| start <= k < j ==> self.data@[k] != 0,
            decreases n - j,
        {
            j = j + 1;
        }
        proof {
            lemma_zero_at(self.d(), start as int, j as int);
        }
        if j < n {
            let b = copy_bytes(self.data, start, j);
            self.pos = j + 1;
            from_utf8_lossy(b.as_slice())
        } else {
            let b = copy_bytes(self.data, start, n - 1);
            self.pos = n;
            from_utf8_lossy(b.as_slice())
        }
    }

    pub fn read_byte(&mut self) -> (r: Result<i8, BinarySerializationError>)
        ensures
            final(self).data@ == old(self).data@,
            step(r, final(self).pos, p_i8(old(self).d(), old(self).pos as int)),
            r is Err ==> final(self).pos == old(self).pos,
    {
        if !self.has(1) {
            return Err(BinarySerializationError::BufferError);
        }
        let b = self.data[self.pos];
        self.pos = self.pos + 1;
        if b >= 128 {
            Ok((b as i16 - 256) as i8)
        } else {
            Ok(b as i8)
        }
    }

    pub fn read_unsigned_byte(&mut self) -> (r: Result<u8, BinarySerializationError>)
        ensures
            final(self).data@ == old(self).data@,
            step(r, final(self).pos, p_u8(old(self).d(), old(self).pos as int)),
            r is Err ==> final(self).pos == old(self).pos,
    {
        if !self.has(1) {
            return Err(BinarySerializationError::BufferError);
        }
        let b = self.data[self.pos];
        self.pos = self.pos + 1;
        Ok(b)
    }

    /// Reads `size` raw bytes.
    pub fn read_unsigned_bytes(&mut self, size: usize) -> (r: Result<Vec<u8>, BinarySerializationError>)
        ensures
            final(self).data@ == old(self).data@,
            step_view(r, final(self).pos, p_bytes(old(self).d(), old(self).pos as int, size as int), |v: Vec<u8>| v@),
            r is Err ==> final(self).pos == old(self).pos,
    {
        if !self.has(size) {
            return Err(BinarySerializationError::BufferError);
        }
        let b = copy_bytes(self.data, self.pos, self.pos + size);
        self.pos = self.pos + size;
        Ok(b)
    }

    pub fn read_short(&mut self) -> (r: Result<i16, BinarySerializationError>)
        ensures
            final(self).data@ == old(self).data@,
            step(r, final(self).pos, p_i16(old(self).d(), old(self).pos as int)),
            r is Err ==> final(self).pos == old(self).pos,
    {
        if !self.has(2) {
            return Err(BinarySerializationError::BufferError);
        }
        let p = self.pos;
        let u: u32 = self.data[p] as u32 + 256 * (self.data[p + 1] as u32);
        self.pos = p + 2;
        if u >= 32768 {
            Ok((u as i32 - 65536) as i16)
        } else {
            Ok(u as i16)
        }
    }

    pub fn read_integer(&mut self) -> (r: Result<i32, BinarySerializationError>)
        ensures
            final(self).data@ == old(self).data@,
            step(r, final(self).pos, p_i32(old(self).d(), old(self).pos as int)),
            r is Err ==> final(self).pos == old(self).pos,
    {
        if !self.has(4) {
            return Err(BinarySerializationError::BufferError);
        }
        let p = self.pos;
        let u = u32_at_exec(self.data, p);
        self.pos = p + 4;
        if u >= 2147483648 {
            Ok((u as i64 - 4294967296) as i32)
        } else {
            Ok(u as i32)
        }
    }

    /// Reads a `u32`: an `f32` by its bit pattern.
    pub fn read_float(&mut self) -> (r: Result<u32, BinarySerializationError>)
        ensures
            final(self).data@ == old(self).data@,
            step(r, final(self).pos, p_u32(old(self).d(), old(self).pos as int)),
            r is Err ==> final(self).pos == old(self).pos,
    {
        if !self.has(4) {
            return Err(BinarySerializationError::BufferError);
        }
        let p = self.pos;
        let u = u32_at_exec(self.data, p);
        self.pos = p + 4;
        Ok(u)
    }

    pub fn read_unsigned_long(&mut self) -> (r: Result<u64, BinarySerializationError>)
        ensures
            final(self).data@ == old(self).data@,
            step(r, final(self).pos, p_u64(old(self).d(), old(self).pos as int)),
            r is Err ==> final(self).pos == old(self).pos,
    {
        if !self.has(8) {
            return Err(BinarySerializationError::BufferError);
        }
        let p = self.pos;
        let lo = u32_at_exec(self.data, p) as u64;
        let hi = u32_at_exec(self.data, p + 4) as u64;
        self.pos = p + 8;
        Ok(lo + 4294967296 * hi)
    }

    pub fn read_uuid(&mut self) -> (r: Result<UuidBytes, BinarySerializationError>)
        ensures
            final(self).data@ == old(self).data@,
            step_view(r, final(self).pos, p_uuid(old(self).d(), old(self).pos as int), |b: UuidBytes| b@),
            r is Err ==> final(self).pos == old(self).pos,
    {
        if !self.has(16) {
            return Err(BinarySerializationError::BufferError);
        }
        let p = self.pos;
        let d = self.data;
        let b: [u8; 16] = [
            d[p], d[p + 1], d[p + 2], d[p + 3], d[p + 4], d[p + 5], d[p + 6], d[p + 7], d[p + 8],
            d[p + 9], d[p + 10], d[p + 11], d[p + 12], d[p + 13], d[p + 14], d[p + 15],
        ];
        assert(b@ == d@.subrange(p as int, p + 16));
        self.pos = p + 16;
        Ok(from_bytes_le(&b))
    }

    /// Reads an array or table size: an `i32` that must not be negative.
    pub fn read_size(&mut self) -> (r: Result<usize, BinarySerializationError>)
        ensures
            final(self).data@ == old(self).data@,
            step_view(r, final(self).pos, p_size(old(self).d(), old(self).pos as int), |n: usize| n as int),
            r matches Ok(n) ==> n < 2147483648,
    {
        let n = self.read_integer()?;
        array_size_check(n)
    }

    /// Reads `size` values one after the other.
    fn read_integers(&mut self, size: usize) -> (r: Result<Vec<i32>, BinarySerializationError>)
        ensures
            final(self).data@ == old(self).data@,
            step_view(r, final(self).pos, p_many(old(self).d(), old(self).pos as int, size as nat, item_i32()), |x: Vec<i32>| x@),
    {
        let ghost d0 = self.d();
        let ghost p0 = self.pos as int;
        let mut v: Vec<i32> = Vec::new();
        let mut i: usize = 0;
        while i < size
            invariant
                self.d() == d0,
                d0 == old(self).d(),
                p0 == old(self).pos,
                i <= size,
                p_many(d0, p0, i as nat, item_i32()) == Ok::<_, SpecBinaryError>((v@, self.pos as int)),
            decreases size - i,
        {
            let x = match self.read_integer() {
                Ok(x) => x,
                Err(e) => {
                    proof {
                        lemma_p_many_err(d0, p0, (i + 1) as nat, size as nat, item_i32());
                    }
                    return Err(e);
                },
            };
            let ghost before = v@;
            v.push(x);
            proof {
                assert(v@ == before.push(x));
            }
            i = i + 1;
        }
        Ok(v)
    }

    /// Reads `size` values one after the other.
    fn read_floats(&mut self, size: usize) -> (r: Result<Vec<u32>, BinarySerializationError>)
        ensures
            final(self).data@ == old(self).data@,
            step_view(r, final(self).pos, p_many(old(self).d(), old(self).pos as int, size as nat, item_u32()), |x: Vec<u32>| x@),
    {
        let ghost d0 = self.d();
        let ghost p0 = self.pos as int;
        let mut v: Vec<u32> = Vec::new();
        let mut i: usize = 0;
        while i < size
            invariant
                self.d() == d0,
                d0 == old(self).d(),
                p0 == old(self).pos,
                i <= size,
                p_many(d0, p0, i as nat, item_u32()) == Ok::<_, SpecBinaryError>((v@, self.pos as int)),
            decreases size - i,
        {
            let x = match self.read_float() {
                Ok(x) => x,
                Err(e) => {
                    proof {
                        lemma_p_many_err(d0, p0, (i + 1) as nat, size as nat, item_u32());
                    }
                    return Err(e);
                },
            };
            let ghost before = v@;
            v.push(x);
            proof {
                assert(v@ == before.push(x));
            }
            i = i + 1;
        }
        Ok(v)
    }

    /// Reads `size` values one after the other.
    fn read_booleans(&mut self, size: usize) -> (r: Result<Vec<bool>, BinarySerializationError>)
        ensures
            final(self).data@ == old(self).data@,
            step_view(r, final(self).pos, p_many(old(self).d(), old(self).pos as int, size as nat, item_bool()), |x: Vec<bool>| x@),
    {
        let ghost d0 = self.d();
        let ghost p0 = self.pos as int;
        let mut v: Vec<bool> = Vec::new();
        let mut i: usize = 0;
        while i < size
            invariant
                self.d() == d0,
                d0 == old(self).d(),
                p0 == old(self).pos,
                i <= size,
                p_many(d0, p0, i as nat, item_bool()) == Ok::<_, SpecBinaryError>((v@, self.pos as int)),
            decreases size - i,
        {
            let x = match self.read_bool() {
                Ok(x) => x,
                Err(e) => {
                    proof {
                        lemma_p_many_err(d0, p0, (i + 1) as nat, size as nat, item_bool());
                    }
                    return Err(e);
                },
            };
            let ghost before = v@;
            v.push(x);
            proof {
                assert(v@ == before.push(x));
            }
            i = i + 1;
        }
        Ok(v)
    }

    /// Reads `size` values one after the other.
    fn read_blocks(&mut self, size: usize) -> (r: Result<Vec<BinaryBlock>, BinarySerializationError>)
        ensures
            final(self).data@ == old(self).data@,
            step_view(r, final(self).pos, p_many(old(self).d(), old(self).pos as int, size as nat, item_block()), |x: Vec<BinaryBlock>| blocks_view(x@)),
    {
        let ghost d0 = self.d();
        let ghost p0 = self.pos as int;
        let mut v: Vec<BinaryBlock> = Vec::new();
        assert(blocks_view(v@) =~= Seq::empty());
        let mut i: usize = 0;
        while i < size
            invariant
                self.d() == d0,
                d0 == old(self).d(),
                p0 == old(self).pos,
                i <= size,
                p_many(d0, p0, i as nat, item_block()) == Ok::<_, SpecBinaryError>((blocks_view(v@), self.pos as int)),
            decreases size - i,
        {
            let x = match self.read_block() {
                Ok(x) => x,
                Err(e) => {
                    proof {
                        lemma_p_many_err(d0, p0, (i + 1) as nat, size as nat, item_block());
                    }
                    return Err(e);
                },
            };
            let ghost before = blocks_view(v@);
            v.push(x);
            proof {
                assert(blocks_view(v@) =~= before.push(x.0@));
            }
            i = i + 1;
        }
        Ok(v)
    }

    /// Reads `size` values one after the other.
    fn read_uuids(&mut self, size: usize) -> (r: Result<Vec<UuidBytes>, BinarySerializationError>)
        ensures
            final(self).data@ == old(self).data@,
            step_view(r, final(self).pos, p_many(old(self).d(), old(self).pos as int, size as nat, item_uuid()), |x: Vec<UuidBytes>| uuids_view(x@)),
    {
        let ghost d0 = self.d();
        let ghost p0 = self.pos as int;
        let mut v: Vec<UuidBytes> = Vec::new();
        assert(uuids_view(v@) =~= Seq::empty());
        let mut i: usize = 0;
        while i < size
            invariant
                self.d() == d0,
                d0 == old(self).d(),
                p0 == old(self).pos,
                i <= size,
                p_many(d0, p0, i as nat, item_uuid()) == Ok::<_, SpecBinaryError>((uuids_view(v@), self.pos as int)),
            decreases size - i,
        {
            let x = match self.read_uuid() {
                Ok(x) => x,
                Err(e) => {
                    proof {
                        lemma_p_many_err(d0, p0, (i + 1) as nat, size as nat, item_uuid());
                    }
                    return Err(e);
                },
            };
            let ghost before = uuids_view(v@);
            v.push(x);
            proof {
                assert(uuids_view(v@) =~= before.push(x@));
            }
            i = i + 1;
        }
        Ok(v)
    }

    /// Reads `size` values one after the other.
    fn read_times(&mut self, size: usize) -> (r: Result<Vec<Time>, BinarySerializationError>)
        ensures
            final(self).data@ == old(self).data@,
            step_view(r, final(self).pos, p_many(old(self).d(), old(self).pos as int, size as nat, item_time()), |x: Vec<Time>| x@),
    {
        let ghost d0 = self.d();
        let ghost p0 = self.pos as int;
        let mut v: Vec<Time> = Vec::new();
        let mut i: usize = 0;
        while i < size
            invariant
                self.d() == d0,
                d0 == old(self).d(),
                p0 == old(self).pos,
                i <= size,
                p_many(d0, p0, i as nat, item_time()) == Ok::<_, SpecBinaryError>((v@, self.pos as int)),
            decreases size - i,
        {
            let x = match self.read_time() {
                Ok(x) => x,
                Err(e) => {
                    proof {
                        lemma_p_many_err(d0, p0, (i + 1) as nat, size as nat, item_time());
                    }
                    return Err(e);
                },
            };
            let ghost before = v@;
            v.push(x);
            proof {
                assert(v@ == before.push(x));
            }
            i = i + 1;
        }
        Ok(v)
    }

    /// Reads `size` values one after the other.
    fn read_colors(&mut self, size: usize) -> (r: Result<Vec<Color>, BinarySerializationError>)
        ensures
            final(self).data@ == old(self).data@,
            step_view(r, final(self).pos, p_many(old(self).d(), old(self).pos as int, size as nat, item_color()), |x: Vec<Color>| x@),
    {
        let ghost d0 = self.d();
        let ghost p0 = self.pos as int;
        let mut v: Vec<Color> = Vec::new();
        let mut i: usize = 0;
        while i < size
            invariant
                self.d() == d0,
                d0 == old(self).d(),
                p0 == old(self).pos,
                i <= size,
                p_many(d0, p0, i as nat, item_color()) == Ok::<_, SpecBinaryError>((v@, self.pos as int)),
            decreases size - i,
        {
            let x = match self.read_color() {
                Ok(x) => x,
                Err(e) => {
                    proof {
                        lemma_p_many_err(d0, p0, (i + 1) as nat, size as nat, item_color());
                    }
                    return Err(e);
                },
            };
            let ghost before = v@;
            v.push(x);
            proof {
                assert(v@ == before.push(x));
            }
            i = i + 1;
        }
        Ok(v)
    }

    /// Reads `size` values one after the other.
    fn read_vector2s(&mut self, size: usize) -> (r: Result<Vec<Vector2>, BinarySerializationError>)
        ensures
            final(self).data@ == old(self).data@,
            step_view(r, final(self).pos, p_many(old(self).d(), old(self).pos as int, size as nat, item_vector2()), |x: Vec<Vector2>| x@),
    {
        let ghost d0 = self.d();
        let ghost p0 = self.pos as int;
        let mut v: Vec<Vector2> = Vec::new();
        let mut i: usize = 0;
        while i < size
            invariant
                self.d() == d0,
                d0 == old(self).d(),
                p0 == old(self).pos,
                i <= size,
                p_many(d0, p0, i as nat, item_vector2()) == Ok::<_, SpecBinaryError>((v@, self.pos as int)),
            decreases size - i,
        {
            let x = match self.read_vector2() {
                Ok(x) => x,
                Err(e) => {
                    proof {
                        lemma_p_many_err(d0, p0, (i + 1) as nat, size as nat, item_vector2());
                    }
                    return Err(e);
                },
            };
            let ghost before = v@;
            v.push(x);
            proof {
                assert(v@ == before.push(x));
            }
            i = i + 1;
        }
        Ok(v)
    }

    /// Reads `size` values one after the other.
    fn read_vector3s(&mut self, size: usize) -> (r: Result<Vec<Vector3>, BinarySerializationError>)
        ensures
            final(self).data@ == old(self).data@,
            step_view(r, final(self).pos, p_many(old(self).d(), old(self).pos as int, size as nat, item_vector3()), |x: Vec<Vector3>| x@),
    {
        let ghost d0 = self.d();
        let ghost p0 = self.pos as int;
        let mut v: Vec<Vector3> = Vec::new();
        let mut i: usize = 0;
        while i < size
            invariant
                self.d() == d0,
                d0 == old(self).d(),
                p0 == old(self).pos,
                i <= size,
                p_many(d0, p0, i as nat, item_vector3()) == Ok::<_, SpecBinaryError>((v@, self.pos as int)),
            decreases size - i,
        {
            let x = match self.read_vector3() {
                Ok(x) => x,
                Err(e) => {
                    proof {
                        lemma_p_many_err(d0, p0, (i + 1) as nat, size as nat, item_vector3());
                    }
                    return Err(e);
                },
            };
            let ghost before = v@;
            v.push(x);
            proof {
                assert(v@ == before.push(x));
            }
            i = i + 1;
        }
        Ok(v)
    }

    /// Reads `size` values one after the other.
    fn read_vector4s(&mut self, size: usize) -> (r: Result<Vec<Vector4>, BinarySerializationError>)
        ensures
            final(self).data@ == old(self).data@,
            step_view(r, final(self).pos, p_many(old(self).d(), old(self).pos as int, size as nat, item_vector4()), |x: Vec<Vector4>| x@),
    {
        let ghost d0 = self.d();
        let ghost p0 = self.pos as int;
        let mut v: Vec<Vector4> = Vec::new();
        let mut i: usize = 0;
        while i < size
            invariant
                self.d() == d0,
                d0 == old(self).d(),
                p0 == old(self).pos,
                i <= size,
                p_many(d0, p0, i as nat, item_vector4()) == Ok::<_, SpecBinaryError>((v@, self.pos as int)),
            decreases size - i,
        {
            let x = match self.read_vector4() {
                Ok(x) => x,
                Err(e) => {
                    proof {
                        lemma_p_many_err(d0, p0, (i + 1) as nat, size as nat, item_vector4());
                    }
                    return Err(e);
                },
            };
            let ghost before = v@;
            v.push(x);
            proof {
                assert(v@ == before.push(x));
            }
            i = i + 1;
        }
        Ok(v)
    }

    /// Reads `size` values one after the other.
    fn read_angles(&mut self, size: usize) -> (r: Result<Vec<Angle>, BinarySerializationError>)
        ensures
            final(self).data@ == old(self).data@,
            step_view(r, final(self).pos, p_many(old(self).d(), old(self).pos as int, size as nat, item_angle()), |x: Vec<Angle>| x@),
    {
        let ghost d0 = self.d();
        let ghost p0 = self.pos as int;
        let mut v: Vec<Angle> = Vec::new();
        let mut i: usize = 0;
        while i < size
            invariant
                self.d() == d0,
                d0 == old(self).d(),
                p0 == old(self).pos,
                i <= size,
                p_many(d0, p0, i as nat, item_angle()) == Ok::<_, SpecBinaryError>((v@, self.pos as int)),
            decreases size - i,
        {
            let x = match self.read_angle() {
                Ok(x) => x,
                Err(e) => {
                    proof {
                        lemma_p_many_err(d0, p0, (i + 1) as nat, size as nat, item_angle());
                    }
                    return Err(e);
                },
            };
            let ghost before = v@;
            v.push(x);
            proof {
                assert(v@ == before.push(x));
            }
            i = i + 1;
        }
        Ok(v)
    }

    /// Reads `size` values one after the other.
    fn read_quaternions(&mut self, size: usize) -> (r: Result<Vec<Quaternion>, BinarySerializationError>)
        ensures
            final(self).data@ == old(self).data@,
            step_view(r, final(self).pos, p_many(old(self).d(), old(self).pos as int, size as nat, item_quaternion()), |x: Vec<Quaternion>| x@),
    {
        let ghost d0 = self.d();
        let ghost p0 = self.pos as int;
        let mut v: Vec<Quaternion> = Vec::new();
        let mut i: usize = 0;
        while i < size
            invariant
                self.d() == d0,
                d0 == old(self).d(),
                p0 == old(self).pos,
                i <= size,
                p_many(d0, p0, i as nat, item_quaternion()) == Ok::<_, SpecBinaryError>((v@, self.pos as int)),
            decreases size - i,
        {
            let x = match self.read_quaternion() {
                Ok(x) => x,
                Err(e) => {
                    proof {
                        lemma_p_many_err(d0, p0, (i + 1) as nat, size as nat, item_quaternion());
                    }
                    return Err(e);
                },
            };
            let ghost before = v@;
            v.push(x);
            proof {
                assert(v@ == before.push(x));
            }
            i = i + 1;
        }
        Ok(v)
    }

    /// Reads `size` values one after the other.
    fn read_matrices(&mut self, size: usize) -> (r: Result<Vec<Matrix>, BinarySerializationError>)
        ensures
            final(self).data@ == old(self).data@,
            step_view(r, final(self).pos, p_many(old(self).d(), old(self).pos as int, size as nat, item_matrix()), |x: Vec<Matrix>| matrices_view(x@)),
    {
        let ghost d0 = self.d();
        let ghost p0 = self.pos as int;
        let mut v: Vec<Matrix> = Vec::new();
        assert(matrices_view(v@) =~= Seq::empty());
        let mut i: usize = 0;
        while i < size
            invariant
                self.d() == d0,
                d0 == old(self).d(),
                p0 == old(self).pos,
                i <= size,
                p_many(d0, p0, i as nat, item_matrix()) == Ok::<_, SpecBinaryError>((matrices_view(v@), self.pos as int)),
            decreases size - i,
        {
            let x = match self.read_matrix() {
                Ok(x) => x,
                Err(e) => {
                    proof {
                        lemma_p_many_err(d0, p0, (i + 1) as nat, size as nat, item_matrix());
                    }
                    return Err(e);
                },
            };
            let ghost before = matrices_view(v@);
            v.push(x);
            proof {
                assert(matrices_view(v@) =~= before.push(matrix_entries(x)));
            }
            i = i + 1;
        }
        Ok(v)
    }

    /// Reads `size` values one after the other.
    fn read_unsigned_longs(&mut self, size: usize) -> (r: Result<Vec<u64>, BinarySerializationError>)
        ensures
            final(self).data@ == old(self).data@,
            step_view(r, final(self).pos, p_many(old(self).d(), old(self).pos as int, size as nat, item_u64()), |x: Vec<u64>| x@),
    {
        let ghost d0 = self.d();
        let ghost p0 = self.pos as int;
        let mut v: Vec<u64> = Vec::new();
        let mut i: usize = 0;
        while i < size
            invariant
                self.d() == d0,
                d0 == old(self).d(),
                p0 == old(self).pos,
                i <= size,
                p_many(d0, p0, i as nat, item_u64()) == Ok::<_, SpecBinaryError>((v@, self.pos as int)),
            decreases size - i,
        {
            let x = match self.read_unsigned_long() {
                Ok(x) => x,
                Err(e) => {
                    proof {
                        lemma_p_many_err(d0, p0, (i + 1) as nat, size as nat, item_u64());
                    }
                    return Err(e);
                },
            };
            let ghost before = v@;
            v.push(x);
            proof {
                assert(v@ == before.push(x));
            }
            i = i + 1;
        }
        Ok(v)
    }

    /// Reads `size` zero-terminated strings.
    pub fn read_strings(&mut self, size: usize) -> (r: Vec<String>)
        ensures
            final(self).data@ == old(self).data@,
            p_many(old(self).d(), old(self).pos as int, size as nat, item_string()) == Ok::<_, SpecBinaryError>((strings_view(r@), final(self).pos as int)),
    {
        let ghost d0 = self.d();
        let ghost p0 = self.pos as int;
        let mut v: Vec<String> = Vec::new();
        assert(strings_view(v@) =~= Seq::empty());
        let mut i: usize = 0;
        while i < size
            invariant
                self.d() == d0,
                d0 == old(self).d(),
                p0 == old(self).pos,
                i <= size,
                p_many(d0, p0, i as nat, item_string()) == Ok::<_, SpecBinaryError>((strings_view(v@), self.pos as int)),
            decreases size - i,
        {
            let x = self.read_string();
            let ghost before = strings_view(v@);
            v.push(x);
            proof {
                assert(strings_view(v@) =~= before.push(x@));
            }
            i = i + 1;
        }
        v
    }

    fn read_bool(&mut self) -> (r: Result<bool, BinarySerializationError>)
        ensures
            final(self).data@ == old(self).data@,
            step(r, final(self).pos, item_bool()(old(self).d(), old(self).pos as int)),
    {
        let b = self.read_unsigned_byte()?;
        Ok(b != 0)
    }

    fn read_block(&mut self) -> (r: Result<BinaryBlock, BinarySerializationError>)
        ensures
            final(self).data@ == old(self).data@,
            step_view(r, final(self).pos, p_block(old(self).d(), old(self).pos as int), |b: BinaryBlock| b.0@),
    {
        let n = self.read_size()?;
        let b = self.read_unsigned_bytes(n)?;
        Ok(BinaryBlock(b))
    }

    fn read_time(&mut self) -> (r: Result<Time, BinarySerializationError>)
        ensures
            final(self).data@ == old(self).data@,
            step(r, final(self).pos, item_time()(old(self).d(), old(self).pos as int)),
    {
        let v = self.read_integer()?;
        Ok(Time(v))
    }

    fn read_color(&mut self) -> (r: Result<Color, BinarySerializationError>)
        ensures
            final(self).data@ == old(self).data@,
            step(r, final(self).pos, item_color()(old(self).d(), old(self).pos as int)),
    {
        if !self.has(4) {
            return Err(BinarySerializationError::BufferError);
        }
        let p = self.pos;
        let c = Color { red: self.data[p], green: self.data[p + 1], blue: self.data[p + 2], alpha: self.data[p + 3] };
        self.pos = p + 4;
        Ok(c)
    }

    fn read_vector2(&mut self) -> (r: Result<Vector2, BinarySerializationError>)
        ensures
            final(self).data@ == old(self).data@,
            step(r, final(self).pos, item_vector2()(old(self).d(), old(self).pos as int)),
    {
        if !self.has(8) {
            return Err(BinarySerializationError::BufferError);
        }
        let p = self.pos;
        let v = Vector2 { x: u32_at_exec(self.data, p), y: u32_at_exec(self.data, p + 4) };
        self.pos = p + 8;
        Ok(v)
    }

    fn read_vector3(&mut self) -> (r: Result<Vector3, BinarySerializationError>)
        ensures
            final(self).data@ == old(self).data@,
            step(r, final(self).pos, item_vector3()(old(self).d(), old(self).pos as int)),
    {
        if !self.has(12) {
            return Err(BinarySerializationError::BufferError);
        }
        let p = self.pos;
        let v = Vector3 {
            x: u32_at_exec(self.data, p),
            y: u32_at_exec(self.data, p + 4),
            z: u32_at_exec(self.data, p + 8),
        };
        self.pos = p + 12;
        Ok(v)
    }

    fn read_vector4(&mut self) -> (r: Result<Vector4, BinarySerializationError>)
        ensures
            final(self).data@ == old(self).data@,
            step(r, final(self).pos, item_vector4()(old(self).d(), old(self).pos as int)),
    {
        if !self.has(16) {
            return Err(BinarySerializationError::BufferError);
        }
        let p = self.pos;
        let v = Vector4 {
            x: u32_at_exec(self.data, p),
            y: u32_at_exec(self.data, p + 4),
            z: u32_at_exec(self.data, p + 8),
            w: u32_at_exec(self.data, p + 12),
        };
        self.pos = p + 16;
        Ok(v)
    }

    fn read_angle(&mut self) -> (r: Result<Angle, BinarySerializationError>)
        ensures
            final(self).data@ == old(self).data@,
            step(r, final(self).pos, item_angle()(old(self).d(), old(self).pos as int)),
    {
        if !self.has(12) {
            return Err(BinarySerializationError::BufferError);
        }
        let p = self.pos;
        let v = Angle {
            pitch: u32_at_exec(self.data, p),
            yaw: u32_at_exec(self.data, p + 4),
            roll: u32_at_exec(self.data, p + 8),
        };
        self.pos = p + 12;
        Ok(v)
    }

    fn read_quaternion(&mut self) -> (r: Result<Quaternion, BinarySerializationError>)
        ensures
            final(self).data@ == old(self).data@,
            step(r, final(self).pos, item_quaternion()(old(self).d(), old(self).pos as int)),
    {
        if !self.has(16) {
            return Err(BinarySerializationError::BufferError);
        }
        let p = self.pos;
        let v = Quaternion {
            x: u32_at_exec(self.data, p),
            y: u32_at_exec(self.data, p + 4),
            z: u32_at_exec(self.data, p + 8),
            w: u32_at_exec(self.data, p + 12),
        };
        self.pos = p + 16;
        Ok(v)
    }

    fn read_matrix(&mut self) -> (r: Result<Matrix, BinarySerializationError>)
        ensures
            final(self).data@ == old(self).data@,
            step_view(r, final(self).pos, item_matrix()(old(self).d(), old(self).pos as int), |m: Matrix| matrix_entries(m)),
    {
        if !self.has(64) {
            return Err(BinarySerializationError::BufferError);
        }
        let p = self.pos;
        let d = self.data;
        let m = Matrix([
            [u32_at_exec(d, p), u32_at_exec(d, p + 4), u32_at_exec(d, p + 8), u32_at_exec(d, p + 12)],
            [u32_at_exec(d, p + 16), u32_at_exec(d, p + 20), u32_at_exec(d, p + 24), u32_at_exec(d, p + 28)],
            [u32_at_exec(d, p + 32), u32_at_exec(d, p + 36), u32_at_exec(d, p + 40), u32_at_exec(d, p + 44)],
            [u32_at_exec(d, p + 48), u32_at_exec(d, p + 52), u32_at_exec(d, p + 56), u32_at_exec(d, p + 60)],
        ]);
        assert(matrix_entries(m) =~= matrix_at(d@, p as int));
        self.pos = p + 64;
        Ok(m)
    }
}

/// Checks that a size read from the data is not negative.
pub fn array_size_check(size: i32) -> (r: Result<usize, BinarySerializationError>)
    ensures
        match r {
            Ok(n) => size >= 0 && n == size,
            Err(e) => size < 0 && e == BinarySerializationError::InvalidArraySize,
        },
{
    if size < 0 {
        return Err(BinarySerializationError::InvalidArraySize);
    }
    Ok(size as usize)
}

/// The string that a table index names; `-1` names the empty string.
pub fn get_string_table_index(index: i32, table: &Vec<String>) -> (r: Result<String, BinarySerializationError>)
    ensures
        match table_string(index, strings_view(table@)) {
            Ok(s) => r matches Ok(x) && x@ == s,
            Err(e) => r matches Err(x) && x@ == e,
        },
{
    if index == -1 {
        return Ok(String::new());
    }
    if index < 0 || index as usize >= table.len() {
        return Err(BinarySerializationError::InvalidStringTableIndex);
    }
    Ok(table[index as usize].clone())
}

impl<'a> Reader<'a> {
    /// Reads a single (non-array) value of type id `attribute_type`.
    pub fn read_single_attribute(&mut self, version: i32, attribute_type: i8) -> (r: Result<AttributeValue, BinarySerializationError>)
        ensures
            final(self).data@ == old(self).data@,
            step_view(r, final(self).pos, p_single(old(self).d(), old(self).pos as int, version, attribute_type), |v: AttributeValue| v@),
    {
        if attribute_type == ATTRIBUTE_INTEGER_ID {
            let v = self.read_integer()?;
            Ok(AttributeValue::Integer(v))
        } else if attribute_type == ATTRIBUTE_FLOAT_ID {
            let v = self.read_float()?;
            Ok(AttributeValue::Float(v))
        } else if attribute_type == ATTRIBUTE_BOOLEAN_ID {
            let v = self.read_bool()?;
            Ok(AttributeValue::Boolean(v))
        } else if attribute_type == ATTRIBUTE_BINARY_ID {
            let v = self.read_block()?;
            Ok(AttributeValue::Binary(v))
        } else if attribute_type == ATTRIBUTE_OBJECTID_ID && version < VERSION_DEPRECATE_OBJECT_ID {
            let v = self.read_uuid()?;
            Ok(AttributeValue::ObjectId(v))
        } else if attribute_type == ATTRIBUTE_TIME_ID && version >= VERSION_DEPRECATE_OBJECT_ID {
            let v = self.read_time()?;
            Ok(AttributeValue::Time(v))
        } else if attribute_type == ATTRIBUTE_COLOR_ID {
            let v = self.read_color()?;
            Ok(AttributeValue::Color(v))
        } else if attribute_type == ATTRIBUTE_VECTOR2_ID {
            let v = self.read_vector2()?;
            Ok(AttributeValue::Vector2(v))
        } else if attribute_type == ATTRIBUTE_VECTOR3_ID {
            let v = self.read_vector3()?;
            Ok(AttributeValue::Vector3(v))
        } else if attribute_type == ATTRIBUTE_VECTOR4_ID {
            let v = self.read_vector4()?;
            Ok(AttributeValue::Vector4(v))
        } else if attribute_type == ATTRIBUTE_ANGLE_ID {
            let v = self.read_angle()?;
            Ok(AttributeValue::Angle(v))
        } else if attribute_type == ATTRIBUTE_QUATERNION_ID {
            let v = self.read_quaternion()?;
            Ok(AttributeValue::Quaternion(v))
        } else if attribute_type == ATTRIBUTE_MATRIX_ID {
            let v = self.read_matrix()?;
            Ok(AttributeValue::Matrix(v))
        } else if attribute_type == ATTRIBUTE_ULONG_ID && version >= VERSION_UNSIGNED_INTEGERS {
            let v = self.read_unsigned_long()?;
            Ok(AttributeValue::ULong(v))
        } else if attribute_type == ATTRIBUTE_UBYTE_ID && version >= VERSION_UNSIGNED_INTEGERS {
            let v = self.read_unsigned_byte()?;
            Ok(AttributeValue::UByte(v))
        } else {
            Err(BinarySerializationError::UnknownAttribute { attribute_id: attribute_type })
        }
    }

    /// Reads an array of `size` values of single type id `attribute_type`.
    pub fn read_array_attribute(&mut self, version: i32, attribute_type: i8, size: usize) -> (r: Result<AttributeValue, BinarySerializationError>)
        ensures
            final(self).data@ == old(self).data@,
            step_view(r, final(self).pos, p_array(old(self).d(), old(self).pos as int, version, attribute_type, size as nat), |v: AttributeValue| v@),
    {
        if attribute_type == ATTRIBUTE_INTEGER_ID {
            let v = self.read_integers(size)?;
            Ok(AttributeValue::IntegerArray(v))
        } else if attribute_type == ATTRIBUTE_FLOAT_ID {
            let v = self.read_floats(size)?;
            Ok(AttributeValue::FloatArray(v))
        } else if attribute_type == ATTRIBUTE_BOOLEAN_ID {
            let v = self.read_booleans(size)?;
            Ok(AttributeValue::BooleanArray(v))
        } else if attribute_type == ATTRIBUTE_STRING_ID {
            let v = self.read_strings(size);
            Ok(AttributeValue::StringArray(v))
        } else if attribute_type == ATTRIBUTE_BINARY_ID {
            let v = self.read_blocks(size)?;
            Ok(AttributeValue::BinaryArray(v))
        } else if attribute_type == ATTRIBUTE_OBJECTID_ID && version < VERSION_DEPRECATE_OBJECT_ID {
            let v = self.read_uuids(size)?;
            Ok(AttributeValue::ObjectIdArray(v))
        } else if attribute_type == ATTRIBUTE_TIME_ID && version >= VERSION_DEPRECATE_OBJECT_ID {
            let v = self.read_times(size)?;
            Ok(AttributeValue::TimeArray(v))
        } else if attribute_type == ATTRIBUTE_COLOR_ID {
            let v = self.read_colors(size)?;
            Ok(AttributeValue::ColorArray(v))
        } else if attribute_type == ATTRIBUTE_VECTOR2_ID {
            let v = self.read_vector2s(size)?;
            Ok(AttributeValue::Vector2Array(v))
        } else if attribute_type == ATTRIBUTE_VECTOR3_ID {
            let v = self.read_vector3s(size)?;
            Ok(AttributeValue::Vector3Array(v))
        } else if attribute_type == ATTRIBUTE_VECTOR4_ID {
            let v = self.read_vector4s(size)?;
            Ok(AttributeValue::Vector4Array(v))
        } else if attribute_type == ATTRIBUTE_ANGLE_ID {
            let v = self.read_angles(size)?;
            Ok(AttributeValue::AngleArray(v))
        } else if attribute_type == ATTRIBUTE_QUATERNION_ID {
            let v = self.read_quaternions(size)?;
            Ok(AttributeValue::QuaternionArray(v))
        } else if attribute_type == ATTRIBUTE_MATRIX_ID {
            let v = self.read_matrices(size)?;
            Ok(AttributeValue::MatrixArray(v))
        } else if attribute_type == ATTRIBUTE_ULONG_ID && version >= VERSION_UNSIGNED_INTEGERS {
            let v = self.read_unsigned_longs(size)?;
            Ok(AttributeValue::ULongArray(v))
        } else if attribute_type == ATTRIBUTE_UBYTE_ID && version >= VERSION_UNSIGNED_INTEGERS {
            let v = self.read_unsigned_bytes(size)?;
            Ok(AttributeValue::UByteArray(v))
        } else {
            Err(BinarySerializationError::UnknownAttribute { attribute_id: attribute_type })
        }
    }

    /// Reads a value of type id `attribute_type`: ids above the version's
    /// array offset are arrays, whose size comes first.
    pub fn read_attribute(&mut self, version: i32, attribute_type: i8) -> (r: Result<AttributeValue, BinarySerializationError>)
        ensures
            final(self).data@ == old(self).data@,
            step_view(r, final(self).pos, p_attribute(old(self).d(), old(self).pos as int, version, attribute_type), |v: AttributeValue| v@),
    {
        reveal(p_attribute);
        let offset = if version >= VERSION_UNSIGNED_INTEGERS {
            ATTRIBUTE_UNSIGNED_INTEGERS_ARRAY_OFFSET
        } else {
            ATTRIBUTE_INITIAL_ARRAY_OFFSET
        };
        if attribute_type <= offset {
            return self.read_single_attribute(version, attribute_type);
        }
        let array_type = attribute_type - offset;
        let array_size = self.read_size()?;
        self.read_array_attribute(version, array_type, array_size)
    }
}

} // verus!
