//! Data types of the Minecraft protocol and their wire encodings.
//! All info available on https://wiki.vg/index.php?title=Protocol
use vstd::prelude::*;
use vstd::utf8::*;

verus! {

/// Reading past the end of the input.
#[derive(Debug, Clone, Copy, PartialEq, Eq, Structural)]
pub enum DecodeError {
    UnexpectedEof,
}

/// A read position in a byte buffer.
pub struct ByteCursor<'a> {
    pub data: &'a [u8],
    pub pos: usize,
}

impl<'a> ByteCursor<'a> {
    pub open spec fn wf(&self) -> bool {
        self.pos <= self.data@.len()
    }

    /// The bytes not read yet.
    pub open spec fn remaining(&self) -> Seq<u8> {
        self.data@.subrange(self.pos as int, self.data@.len() as int)
    }

    pub fn new(data: &'a [u8]) -> (res: Self)
        ensures
            res.wf(),
            res.data@ == data@,
            res.pos == 0,
            res.remaining() == data@,
    {
        let res = ByteCursor { data, pos: 0 };
        assert(res.remaining() =~= data@);
        res
    }

    /// Reads one byte.
    pub fn read_byte(&mut self) -> (res: Result<u8, DecodeError>)
        requires
            old(self).wf(),
        ensures
            final(self).wf(),
            final(self).data == old(self).data,
            old(self).remaining().len() == 0 ==> res == Err::<u8, DecodeError>(
                DecodeError::UnexpectedEof,
            ),
            old(self).remaining().len() > 0 ==> {
                &&& res == Ok::<u8, DecodeError>(old(self).remaining()[0])
                &&& final(self).pos == old(self).pos + 1
                &&& final(self).remaining() == old(self).remaining().drop_first()
            },
    {
        if self.pos < self.data.len() {
            let b = self.data[self.pos];
            self.pos = self.pos + 1;
            assert(self.remaining() =~= old(self).remaining().drop_first());
            Ok(b)
        } else {
            Err(DecodeError::UnexpectedEof)
        }
    }

    /// Reads exactly `n` bytes.
    pub fn read_exact(&mut self, n: usize) -> (res: Result<Vec<u8>, DecodeError>)
        requires
            old(self).wf(),
        ensures
            final(self).wf(),
            final(self).data == old(self).data,
            old(self).remaining().len() < n ==> res is Err,
            old(self).remaining().len() >= n ==> {
                &&& res is Ok
                &&& res->Ok_0@ == old(self).remaining().take(n as int)
                &&& final(self).pos == old(self).pos + n
                &&& final(self).remaining() == old(self).remaining().skip(n as int)
            },
    {
        if n > self.data.len() - self.pos {
            return Err(DecodeError::UnexpectedEof);
        }
        let mut out: Vec<u8> = Vec::new();
        let start = self.pos;
        let mut i: usize = 0;
        while i < n
            invariant
                start == old(self).pos,
                self.data == old(self).data,
                start + n <= self.data@.len(),
                i <= n,
                self.pos == start + i,
                out@ == self.data@.subrange(start as int, start + i),
            decreases n - i,
        {
            let b = self.data[self.pos];
            out.push(b);
            self.pos = self.pos + 1;
            i = i + 1;
            assert(out@ =~= self.data@.subrange(start as int, start + i));
        }
        assert(out@ =~= old(self).remaining().take(n as int));
        assert(self.remaining() =~= old(self).remaining().skip(n as int));
        Ok(out)
    }
}

/// A data type that is used in the minecraft protocol.
///
/// Contracts speak of values by their deep view, so that strings and vectors
/// are compared by their contents.
pub trait DataType: Sized + DeepView {
    /// The bytes that `serialize` appends for a value with deep view `v`.
    spec fn spec_encode(v: <Self as DeepView>::V) -> Seq<u8>;

    /// Whether `deserialize` returns, rather than panics, on input that starts with `bytes`.
    spec fn deserialize_defined(bytes: Seq<u8>) -> bool;

    /// The value that `deserialize` reads from the start of `bytes` and how many
    /// bytes it consumes; `None` when the input ends first.
    spec fn spec_decode(bytes: Seq<u8>) -> Option<(<Self as DeepView>::V, nat)>;

    /// The values that reading back their own encoding reproduces.
    spec fn encodable(v: <Self as DeepView>::V) -> bool;

    fn serialize(self, output: &mut Vec<u8>)
        ensures
            final(output)@ == old(output)@ + Self::spec_encode(self.deep_view()),
    ;

    fn deserialize(input: &mut ByteCursor) -> (res: Result<Self, DecodeError>)
        requires
            old(input).wf(),
            Self::deserialize_defined(old(input).remaining()),
        ensures
            final(input).wf(),
            final(input).data == old(input).data,
            match Self::spec_decode(old(input).remaining()) {
                Some((v, n)) => {
                    &&& res is Ok
                    &&& res->Ok_0.deep_view() == v
                    &&& n <= old(input).remaining().len()
                    &&& final(input).pos == old(input).pos + n
                },
                None => res is Err,
            },
    ;

    /// Reading back the encoding of an encodable value, whatever follows it,
    /// gives the value and consumes exactly the encoding.
    proof fn lemma_roundtrip(v: <Self as DeepView>::V, rest: Seq<u8>)
        requires
            Self::encodable(v),
        ensures
            Self::deserialize_defined(Self::spec_encode(v) + rest),
            Self::spec_decode(Self::spec_encode(v) + rest) == Some(
                (v, Self::spec_encode(v).len()),
            ),
    ;
}

#[derive(Copy, Clone, Debug, PartialEq, Eq, Structural, Hash)]
pub struct VarInt(pub i32);

/// The 7-bit group `j` of `n`, least significant first, with the higher bits above it.
pub open spec fn varint_group(n: u32, j: int) -> u32 {
    if j == 0 {
        n
    } else if j == 1 {
        n >> 7u32
    } else if j == 2 {
        n >> 14u32
    } else if j == 3 {
        n >> 21u32
    } else if j == 4 {
        n >> 28u32
    } else {
        0
    }
}

/// Number of bytes in the VarInt encoding of `n`.
pub open spec fn varint_len(n: u32) -> nat {
    if n < 0x80 {
        1
    } else if n < 0x4000 {
        2
    } else if n < 0x20_0000 {
        3
    } else if n < 0x1000_0000 {
        4
    } else {
        5
    }
}

/// Byte `j` of the VarInt encoding of `n`: 7 data bits, and the high bit set
/// on every byte but the last.
pub open spec fn varint_byte(n: u32, j: int) -> u8 {
    let low = (varint_group(n, j) & 0x7f) as u8;
    if j + 1 < varint_len(n) {
        (low | 0x80u8) as u8
    } else {
        low
    }
}

/// The VarInt encoding of the bit pattern `n`.
pub open spec fn varint_encoding(n: u32) -> Seq<u8> {
    Seq::new(varint_len(n), |j: int| varint_byte(n, j))
}

/// `v` shifted left by `7 * i` bits, as a `u32`.
pub open spec fn shl7(v: u32, i: int) -> u32 {
    if i == 0 {
        v
    } else if i == 1 {
        v << 7u32
    } else if i == 2 {
        v << 14u32
    } else if i == 3 {
        v << 21u32
    } else {
        v << 28u32
    }
}

/// VarInt decoding from byte `i` on, with the bits of the earlier bytes in
/// `acc`: the decoded bit pattern and the count of bytes read.
pub open spec fn varint_acc(b: Seq<u8>, i: nat, acc: u32) -> Option<(u32, nat)>
    decreases 5 - i,
{
    if i >= 5 || i >= b.len() {
        None
    } else {
        let acc2 = acc | shl7((b[i as int] & 0x7f) as u32, i as int);
        if b[i as int] & 0x80 == 0 {
            Some((acc2, i + 1))
        } else {
            varint_acc(b, i + 1, acc2)
        }
    }
}

/// Whether the first five bytes of `b` all carry the continuation bit and a sixth follows:
/// the input on which the decoder shifts past the width of an `i32`.
pub open spec fn varint_overlong(b: Seq<u8>) -> bool {
    &&& b.len() >= 6
    &&& forall|k: int| 0 <= k < 5 ==> b[k] & 0x80 != 0
}

pub open spec fn spec_varint_deserialize(b: Seq<u8>) -> Option<(VarInt, nat)> {
    match varint_acc(b, 0, 0) {
        Some((v, n)) => Some((VarInt(v as i32), n)),
        None => None,
    }
}

proof fn lemma_varint_step(n: u32, k: int)
    requires
        0 <= k < 5,
    ensures
        (varint_group(n, k) as u8) & 0x7f == (varint_group(n, k) & 0x7f) as u8,
        varint_group(n, k) >> 7u32 == varint_group(n, k + 1),
        (varint_group(n, k + 1) == 0) == (varint_len(n) <= k + 1),
{
    assert((n as u8) & 0x7f == (n & 0x7f) as u8) by (bit_vector);
    assert(((n >> 7u32) as u8) & 0x7f == ((n >> 7u32) & 0x7f) as u8) by (bit_vector);
    assert(((n >> 14u32) as u8) & 0x7f == ((n >> 14u32) & 0x7f) as u8) by (bit_vector);
    assert(((n >> 21u32) as u8) & 0x7f == ((n >> 21u32) & 0x7f) as u8) by (bit_vector);
    assert(((n >> 28u32) as u8) & 0x7f == ((n >> 28u32) & 0x7f) as u8) by (bit_vector);
    assert((n >> 7u32) >> 7u32 == n >> 14u32) by (bit_vector);
    assert((n >> 14u32) >> 7u32 == n >> 21u32) by (bit_vector);
    assert((n >> 21u32) >> 7u32 == n >> 28u32) by (bit_vector);
    assert((n >> 28u32) >> 7u32 == 0) by (bit_vector);
    assert((n >> 7u32 == 0) == (n < 0x80)) by (bit_vector);
    assert((n >> 14u32 == 0) == (n < 0x4000)) by (bit_vector);
    assert((n >> 21u32 == 0) == (n < 0x20_0000)) by (bit_vector);
    assert((n >> 28u32 == 0) == (n < 0x1000_0000)) by (bit_vector);
}

/// Decoding the VarInt encoding of `n`, followed by any bytes, gives back `n`
/// and consumes exactly the encoding.
pub proof fn lemma_varint_roundtrip(n: u32, rest: Seq<u8>)
    ensures
        varint_acc(varint_encoding(n) + rest, 0, 0) == Some((n, varint_len(n))),
        !varint_overlong(varint_encoding(n) + rest),
{
    let b = varint_encoding(n) + rest;
    reveal_with_fuel(varint_acc, 6);
    let b0 = varint_byte(n, 0);
    let b1 = varint_byte(n, 1);
    let b2 = varint_byte(n, 2);
    let b3 = varint_byte(n, 3);
    let b4 = varint_byte(n, 4);
    assert(b[0] == b0);
    if n < 0x80 {
        assert((b0 & 0x80 == 0) && (0u32 | ((b0 & 0x7f) as u32)) == n) by (bit_vector)
            requires
                b0 == (n & 0x7f) as u8,
                n < 0x80,
        ;
    } else if n < 0x4000 {
        assert(b[1] == b1);
        assert({
            &&& b0 & 0x80 != 0
            &&& b1 & 0x80 == 0
            &&& (0u32 | ((b0 & 0x7f) as u32)) | (((b1 & 0x7f) as u32) << 7u32) == n
        }) by (bit_vector)
            requires
                b0 == ((n & 0x7f) as u8 | 0x80u8) as u8,
                b1 == ((n >> 7u32) & 0x7f) as u8,
                0x80 <= n < 0x4000,
        ;
    } else if n < 0x20_0000 {
        assert(b[1] == b1);
        assert(b[2] == b2);
        assert({
            &&& b0 & 0x80 != 0
            &&& b1 & 0x80 != 0
            &&& b2 & 0x80 == 0
            &&& ((0u32 | ((b0 & 0x7f) as u32)) | (((b1 & 0x7f) as u32) << 7u32)) | (((b2
                & 0x7f) as u32) << 14u32) == n
        }) by (bit_vector)
            requires
                b0 == ((n & 0x7f) as u8 | 0x80u8) as u8,
                b1 == (((n >> 7u32) & 0x7f) as u8 | 0x80u8) as u8,
                b2 == ((n >> 14u32) & 0x7f) as u8,
                0x4000 <= n < 0x20_0000,
        ;
    } else if n < 0x1000_0000 {
        assert(b[1] == b1);
        assert(b[2] == b2);
        assert(b[3] == b3);
        assert({
            &&& b0 & 0x80 != 0
            &&& b1 & 0x80 != 0
            &&& b2 & 0x80 != 0
            &&& b3 & 0x80 == 0
            &&& (((0u32 | ((b0 & 0x7f) as u32)) | (((b1 & 0x7f) as u32) << 7u32)) | (((b2
                & 0x7f) as u32) << 14u32)) | (((b3 & 0x7f) as u32) << 21u32) == n
        }) by (bit_vector)
            requires
                b0 == ((n & 0x7f) as u8 | 0x80u8) as u8,
                b1 == (((n >> 7u32) & 0x7f) as u8 | 0x80u8) as u8,
                b2 == (((n >> 14u32) & 0x7f) as u8 | 0x80u8) as u8,
                b3 == ((n >> 21u32) & 0x7f) as u8,
                0x20_0000 <= n < 0x1000_0000,
        ;
    } else {
        assert(b[1] == b1);
        assert(b[2] == b2);
        assert(b[3] == b3);
        assert(b[4] == b4);
        assert({
            &&& b0 & 0x80 != 0
            &&& b1 & 0x80 != 0
            &&& b2 & 0x80 != 0
            &&& b3 & 0x80 != 0
            &&& b4 & 0x80 == 0
            &&& ((((0u32 | ((b0 & 0x7f) as u32)) | (((b1 & 0x7f) as u32) << 7u32)) | (((b2
                & 0x7f) as u32) << 14u32)) | (((b3 & 0x7f) as u32) << 21u32)) | (((b4
                & 0x7f) as u32) << 28u32) == n
        }) by (bit_vector)
            requires
                b0 == ((n & 0x7f) as u8 | 0x80u8) as u8,
                b1 == (((n >> 7u32) & 0x7f) as u8 | 0x80u8) as u8,
                b2 == (((n >> 14u32) & 0x7f) as u8 | 0x80u8) as u8,
                b3 == (((n >> 21u32) & 0x7f) as u8 | 0x80u8) as u8,
                b4 == ((n >> 28u32) & 0x7f) as u8,
                0x1000_0000 <= n,
        ;
    }
}

impl VarInt {
    /// The number of bytes of the VarInt encoding.
    pub fn size(&self) -> (res: u8)
        ensures
            res as nat == varint_len(self.0 as u32),
            res as nat == Self::spec_encode(*self).len(),
    {
        let n = self.0 as u32;
        if n < 0x80 {
            1
        } else if n < 0x4000 {
            2
        } else if n < 0x20_0000 {
            3
        } else if n < 0x1000_0000 {
            4
        } else {
            5
        }
    }
}

impl DeepView for VarInt {
    type V = VarInt;

    open spec fn deep_view(&self) -> VarInt {
        *self
    }
}

impl DataType for VarInt {
    open spec fn spec_encode(v: VarInt) -> Seq<u8> {
        varint_encoding(v.0 as u32)
    }

    open spec fn deserialize_defined(bytes: Seq<u8>) -> bool {
        !varint_overlong(bytes)
    }

    open spec fn spec_decode(bytes: Seq<u8>) -> Option<(VarInt, nat)> {
        spec_varint_deserialize(bytes)
    }

    open spec fn encodable(v: VarInt) -> bool {
        true
    }

    proof fn lemma_roundtrip(v: VarInt, rest: Seq<u8>) {
        lemma_varint_roundtrip(v.0 as u32, rest);
        let x = v.0;
        assert((x as u32) as i32 == x) by (bit_vector);
    }

    fn serialize(self, output: &mut Vec<u8>) {
        let ghost n = self.0 as u32;
        let mut number: u32 = self.0 as u32;
        let mut k: usize = 0;
        loop
            invariant
                n == self.0 as u32,
                k < varint_len(n),
                number == varint_group(n, k as int),
                output@ == old(output)@ + varint_encoding(n).take(k as int),
            decreases 5 - k,
        {
            proof {
                lemma_varint_step(n, k as int);
            }
            let mut byte: u8 = number as u8 & 0b0111_1111;
            number = number >> 7;
            if number != 0 {
                byte = byte | 0b1000_0000;
            }
            assert(byte == varint_byte(n, k as int));
            output.push(byte);
            assert(output@ =~= old(output)@ + varint_encoding(n).take(k + 1));
            if number == 0 {
                assert(varint_encoding(n).take(k + 1) =~= varint_encoding(n));
                return ;
            }
            k = k + 1;
        }
    }

    fn deserialize(input: &mut ByteCursor) -> (res: Result<Self, DecodeError>) {
        let ghost bytes = old(input).remaining();
        let mut i: u32 = 0;
        let mut result: u32 = 0;
        loop
            invariant
                input.wf(),
                input.data == old(input).data,
                bytes == old(input).remaining(),
                !varint_overlong(bytes),
                i < 5,
                i <= bytes.len(),
                input.pos == old(input).pos + i,
                input.remaining() == bytes.skip(i as int),
                forall|k: int| 0 <= k < i ==> bytes[k] & 0x80 != 0,
                varint_acc(bytes, i as nat, result) == varint_acc(bytes, 0, 0),
            decreases 5 - i,
        {
            let number = input.read_byte();
            let number = match number {
                Ok(b) => b,
                Err(e) => {
                    return Err(e);
                },
            };
            assert(number == bytes[i as int]);
            let value = (number & 0b0111_1111) as u32;
            let shifted = value << (7 * i);
            assert(shifted == shl7(value, i as int)) by {
                if i == 0 {
                    assert(value << 0u32 == value) by (bit_vector);
                }
            }
            let ghost result_before = result;
            result = result | shifted;
            if (number & 0b1000_0000) == 0 {
                return Ok(VarInt(result as i32));
            }
            if i == 4 {
                // a sixth byte would be shifted past the width of an i32
                assert(bytes.len() < 6);
                let more = input.read_byte();
                assert(more is Err);
                assert(varint_acc(bytes, 5, result) == None::<(u32, nat)>);
                assert(varint_acc(bytes, 4, result_before) == varint_acc(bytes, 5, result));
                return Err(DecodeError::UnexpectedEof);
            }
            i = i + 1;
            assert(input.remaining() =~= bytes.skip(i as int));
        }
    }
}


// Fixed-width integers, big-endian //
//////////////////////////////////////

pub open spec fn be16(x: u16) -> Seq<u8> {
    seq![(x >> 8u16) as u8, x as u8]
}

pub open spec fn from_be16(b: Seq<u8>) -> u16 {
    ((b[0] as u16) << 8u16) | (b[1] as u16)
}

pub open spec fn be32(x: u32) -> Seq<u8> {
    seq![(x >> 24u32) as u8, (x >> 16u32) as u8, (x >> 8u32) as u8, x as u8]
}

pub open spec fn from_be32(b: Seq<u8>) -> u32 {
    ((b[0] as u32) << 24u32) | ((b[1] as u32) << 16u32) | ((b[2] as u32) << 8u32) | (b[3] as u32)
}

pub open spec fn be64(x: u64) -> Seq<u8> {
    seq![
        (x >> 56u64) as u8,
        (x >> 48u64) as u8,
        (x >> 40u64) as u8,
        (x >> 32u64) as u8,
        (x >> 24u64) as u8,
        (x >> 16u64) as u8,
        (x >> 8u64) as u8,
        x as u8,
    ]
}

pub open spec fn from_be64(b: Seq<u8>) -> u64 {
    ((b[0] as u64) << 56u64) | ((b[1] as u64) << 48u64) | ((b[2] as u64) << 40u64) | ((b[3] as u64)
        << 32u64) | ((b[4] as u64) << 24u64) | ((b[5] as u64) << 16u64) | ((b[6] as u64) << 8u64)
        | (b[7] as u64)
}

/// `w` bytes read with `f` from the start of `bytes`, when there are that many.
pub open spec fn decode_fixed<V>(bytes: Seq<u8>, w: nat, v: V) -> Option<(V, nat)> {
    if bytes.len() >= w {
        Some((v, w))
    } else {
        None
    }
}

proof fn lemma_be16(x: u16, rest: Seq<u8>)
    ensures
        from_be16(be16(x) + rest) == x,
{
    let b = be16(x) + rest;
    let b0 = b[0];
    let b1 = b[1];
    assert(((b0 as u16) << 8u16) | (b1 as u16) == x) by (bit_vector)
        requires
            b0 == (x >> 8u16) as u8,
            b1 == x as u8,
    ;
}

pub proof fn lemma_be32(x: u32, rest: Seq<u8>)
    ensures
        from_be32(be32(x) + rest) == x,
{
    let b = be32(x) + rest;
    let (b0, b1, b2, b3) = (b[0], b[1], b[2], b[3]);
    assert(((b0 as u32) << 24u32) | ((b1 as u32) << 16u32) | ((b2 as u32) << 8u32) | (b3 as u32)
        == x) by (bit_vector)
        requires
            b0 == (x >> 24u32) as u8,
            b1 == (x >> 16u32) as u8,
            b2 == (x >> 8u32) as u8,
            b3 == x as u8,
    ;
}

proof fn lemma_be64(x: u64, rest: Seq<u8>)
    ensures
        from_be64(be64(x) + rest) == x,
{
    let b = be64(x) + rest;
    let (b0, b1, b2, b3, b4, b5, b6, b7) = (b[0], b[1], b[2], b[3], b[4], b[5], b[6], b[7]);
    assert(((b0 as u64) << 56u64) | ((b1 as u64) << 48u64) | ((b2 as u64) << 40u64) | ((b3 as u64)
        << 32u64) | ((b4 as u64) << 24u64) | ((b5 as u64) << 16u64) | ((b6 as u64) << 8u64) | (b7
        as u64) == x) by (bit_vector)
        requires
            b0 == (x >> 56u64) as u8,
            b1 == (x >> 48u64) as u8,
            b2 == (x >> 40u64) as u8,
            b3 == (x >> 32u64) as u8,
            b4 == (x >> 24u64) as u8,
            b5 == (x >> 16u64) as u8,
            b6 == (x >> 8u64) as u8,
            b7 == x as u8,
    ;
}

fn write_be16(output: &mut Vec<u8>, x: u16)
    ensures
        final(output)@ == old(output)@ + be16(x),
{
    output.push((x >> 8) as u8);
    output.push(x as u8);
    assert(output@ =~= old(output)@ + be16(x));
}

fn write_be32(output: &mut Vec<u8>, x: u32)
    ensures
        final(output)@ == old(output)@ + be32(x),
{
    output.push((x >> 24) as u8);
    output.push((x >> 16) as u8);
    output.push((x >> 8) as u8);
    output.push(x as u8);
    assert(output@ =~= old(output)@ + be32(x));
}

fn write_be64(output: &mut Vec<u8>, x: u64)
    ensures
        final(output)@ == old(output)@ + be64(x),
{
    output.push((x >> 56) as u8);
    output.push((x >> 48) as u8);
    output.push((x >> 40) as u8);
    output.push((x >> 32) as u8);
    output.push((x >> 24) as u8);
    output.push((x >> 16) as u8);
    output.push((x >> 8) as u8);
    output.push(x as u8);
    assert(output@ =~= old(output)@ + be64(x));
}

fn read_be16(input: &mut ByteCursor) -> (res: Result<u16, DecodeError>)
    requires
        old(input).wf(),
    ensures
        final(input).wf(),
        final(input).data == old(input).data,
        old(input).remaining().len() < 2 ==> res is Err,
        old(input).remaining().len() >= 2 ==> {
            &&& res == Ok::<u16, DecodeError>(from_be16(old(input).remaining()))
            &&& final(input).pos == old(input).pos + 2
        },
{
    let b = input.read_exact(2)?;
    Ok(((b[0] as u16) << 8) | (b[1] as u16))
}

fn read_be32(input: &mut ByteCursor) -> (res: Result<u32, DecodeError>)
    requires
        old(input).wf(),
    ensures
        final(input).wf(),
        final(input).data == old(input).data,
        old(input).remaining().len() < 4 ==> res is Err,
        old(input).remaining().len() >= 4 ==> {
            &&& res == Ok::<u32, DecodeError>(from_be32(old(input).remaining()))
            &&& final(input).pos == old(input).pos + 4
        },
{
    let b = input.read_exact(4)?;
    Ok(((b[0] as u32) << 24) | ((b[1] as u32) << 16) | ((b[2] as u32) << 8) | (b[3] as u32))
}

fn read_be64(input: &mut ByteCursor) -> (res: Result<u64, DecodeError>)
    requires
        old(input).wf(),
    ensures
        final(input).wf(),
        final(input).data == old(input).data,
        old(input).remaining().len() < 8 ==> res is Err,
        old(input).remaining().len() >= 8 ==> {
            &&& res == Ok::<u64, DecodeError>(from_be64(old(input).remaining()))
            &&& final(input).pos == old(input).pos + 8
            &&& final(input).remaining() == old(input).remaining().skip(8)
        },
{
    let b = input.read_exact(8)?;
    Ok(((b[0] as u64) << 56) | ((b[1] as u64) << 48) | ((b[2] as u64) << 40) | ((b[3] as u64) << 32)
        | ((b[4] as u64) << 24) | ((b[5] as u64) << 16) | ((b[6] as u64) << 8) | (b[7] as u64))
}

impl DataType for u16 {
    open spec fn spec_encode(v: u16) -> Seq<u8> {
        be16(v)
    }

    open spec fn deserialize_defined(bytes: Seq<u8>) -> bool {
        true
    }

    open spec fn spec_decode(bytes: Seq<u8>) -> Option<(u16, nat)> {
        decode_fixed(bytes, 2, from_be16(bytes))
    }

    open spec fn encodable(v: u16) -> bool {
        true
    }

    fn serialize(self, output: &mut Vec<u8>) {
        write_be16(output, self);
    }

    fn deserialize(input: &mut ByteCursor) -> (res: Result<Self, DecodeError>) {
        read_be16(input)
    }

    proof fn lemma_roundtrip(v: u16, rest: Seq<u8>) {
        lemma_be16(v, rest);
    }
}

impl DataType for i16 {
    open spec fn spec_encode(v: i16) -> Seq<u8> {
        be16(v as u16)
    }

    open spec fn deserialize_defined(bytes: Seq<u8>) -> bool {
        true
    }

    open spec fn spec_decode(bytes: Seq<u8>) -> Option<(i16, nat)> {
        decode_fixed(bytes, 2, from_be16(bytes) as i16)
    }

    open spec fn encodable(v: i16) -> bool {
        true
    }

    fn serialize(self, output: &mut Vec<u8>) {
        write_be16(output, self as u16);
    }

    fn deserialize(input: &mut ByteCursor) -> (res: Result<Self, DecodeError>) {
        let x = read_be16(input)?;
        Ok(x as i16)
    }

    proof fn lemma_roundtrip(v: i16, rest: Seq<u8>) {
        lemma_be16(v as u16, rest);
        assert((v as u16) as i16 == v) by (bit_vector);
    }
}

impl DataType for i32 {
    open spec fn spec_encode(v: i32) -> Seq<u8> {
        be32(v as u32)
    }

    open spec fn deserialize_defined(bytes: Seq<u8>) -> bool {
        true
    }

    open spec fn spec_decode(bytes: Seq<u8>) -> Option<(i32, nat)> {
        decode_fixed(bytes, 4, from_be32(bytes) as i32)
    }

    open spec fn encodable(v: i32) -> bool {
        true
    }

    fn serialize(self, output: &mut Vec<u8>) {
        write_be32(output, self as u32);
    }

    fn deserialize(input: &mut ByteCursor) -> (res: Result<Self, DecodeError>) {
        let x = read_be32(input)?;
        Ok(x as i32)
    }

    proof fn lemma_roundtrip(v: i32, rest: Seq<u8>) {
        lemma_be32(v as u32, rest);
        assert((v as u32) as i32 == v) by (bit_vector);
    }
}

impl DataType for i64 {
    open spec fn spec_encode(v: i64) -> Seq<u8> {
        be64(v as u64)
    }

    open spec fn deserialize_defined(bytes: Seq<u8>) -> bool {
        true
    }

    open spec fn spec_decode(bytes: Seq<u8>) -> Option<(i64, nat)> {
        decode_fixed(bytes, 8, from_be64(bytes) as i64)
    }

    open spec fn encodable(v: i64) -> bool {
        true
    }

    fn serialize(self, output: &mut Vec<u8>) {
        write_be64(output, self as u64);
    }

    fn deserialize(input: &mut ByteCursor) -> (res: Result<Self, DecodeError>) {
        let x = read_be64(input)?;
        Ok(x as i64)
    }

    proof fn lemma_roundtrip(v: i64, rest: Seq<u8>) {
        lemma_be64(v as u64, rest);
        assert((v as u64) as i64 == v) by (bit_vector);
    }
}

impl DataType for u8 {
    open spec fn spec_encode(v: u8) -> Seq<u8> {
        seq![v]
    }

    open spec fn deserialize_defined(bytes: Seq<u8>) -> bool {
        true
    }

    open spec fn spec_decode(bytes: Seq<u8>) -> Option<(u8, nat)> {
        decode_fixed(bytes, 1, bytes[0])
    }

    open spec fn encodable(v: u8) -> bool {
        true
    }

    fn serialize(self, output: &mut Vec<u8>) {
        output.push(self);
        assert(output@ =~= old(output)@ + seq![self]);
    }

    fn deserialize(input: &mut ByteCursor) -> (res: Result<Self, DecodeError>) {
        input.read_byte()
    }

    proof fn lemma_roundtrip(v: u8, rest: Seq<u8>) {
    }
}

impl DataType for i8 {
    open spec fn spec_encode(v: i8) -> Seq<u8> {
        seq![v as u8]
    }

    open spec fn deserialize_defined(bytes: Seq<u8>) -> bool {
        true
    }

    open spec fn spec_decode(bytes: Seq<u8>) -> Option<(i8, nat)> {
        decode_fixed(bytes, 1, bytes[0] as i8)
    }

    open spec fn encodable(v: i8) -> bool {
        true
    }

    fn serialize(self, output: &mut Vec<u8>) {
        output.push(self as u8);
        assert(output@ =~= old(output)@ + seq![self as u8]);
    }

    fn deserialize(input: &mut ByteCursor) -> (res: Result<Self, DecodeError>) {
        let x = input.read_byte()?;
        Ok(x as i8)
    }

    proof fn lemma_roundtrip(v: i8, rest: Seq<u8>) {
        assert((v as u8) as i8 == v) by (bit_vector);
    }
}

impl DataType for bool {
    open spec fn spec_encode(v: bool) -> Seq<u8> {
        seq![if v { 1u8 } else { 0u8 }]
    }

    open spec fn deserialize_defined(bytes: Seq<u8>) -> bool {
        true
    }

    /// Any byte but 1 reads as `false`.
    open spec fn spec_decode(bytes: Seq<u8>) -> Option<(bool, nat)> {
        decode_fixed(bytes, 1, bytes[0] == 1)
    }

    open spec fn encodable(v: bool) -> bool {
        true
    }

    fn serialize(self, output: &mut Vec<u8>) {
        let b: u8 = if self { 1 } else { 0 };
        output.push(b);
        assert(output@ =~= old(output)@ + Self::spec_encode(self));
    }

    fn deserialize(input: &mut ByteCursor) -> (res: Result<Self, DecodeError>) {
        let x = input.read_byte()?;
        Ok(x == 1)
    }

    proof fn lemma_roundtrip(v: bool, rest: Seq<u8>) {
    }
}

/// A `u128` is sent as its high and then its low 64 bits.
impl DataType for u128 {
    open spec fn spec_encode(v: u128) -> Seq<u8> {
        be64((v >> 64u128) as u64) + be64(v as u64)
    }

    open spec fn deserialize_defined(bytes: Seq<u8>) -> bool {
        true
    }

    open spec fn spec_decode(bytes: Seq<u8>) -> Option<(u128, nat)> {
        decode_fixed(
            bytes,
            16,
            ((from_be64(bytes) as u128) << 64u128) | (from_be64(bytes.skip(8)) as u128),
        )
    }

    open spec fn encodable(v: u128) -> bool {
        true
    }

    fn serialize(self, output: &mut Vec<u8>) {
        write_be64(output, (self >> 64) as u64);
        write_be64(output, self as u64);
        assert(output@ =~= old(output)@ + Self::spec_encode(self));
    }

    fn deserialize(input: &mut ByteCursor) -> (res: Result<Self, DecodeError>) {
        let hi = read_be64(input)?;
        let mut number = (hi as u128) << 64;
        let lo = read_be64(input)?;
        number = number | (lo as u128);
        Ok(number)
    }

    proof fn lemma_roundtrip(v: u128, rest: Seq<u8>) {
        let hi = (v >> 64u128) as u64;
        let lo = v as u64;
        let b = be64(hi) + be64(lo) + rest;
        assert(be64(hi) + be64(lo) + rest =~= be64(hi) + (be64(lo) + rest));
        lemma_be64(hi, be64(lo) + rest);
        assert(b.skip(8) =~= be64(lo) + rest);
        lemma_be64(lo, rest);
        assert(((hi as u128) << 64u128) | (lo as u128) == v) by (bit_vector)
            requires
                hi == (v >> 64u128) as u64,
                lo == v as u64,
        ;
    }
}


// Strings //
/////////////

/// What `String::from_utf8_lossy` makes of `bytes`: invalid sequences become
/// U+FFFD replacement characters.
pub uninterp spec fn spec_utf8_lossy(bytes: Seq<u8>) -> Seq<char>;

/// The characters that lossy UTF-8 decoding gives for `bytes`: valid UTF-8 is
/// decoded as it stands; on other input the result is named.
pub open spec fn lossy_utf8_chars(bytes: Seq<u8>) -> Seq<char> {
    if valid_utf8(bytes) {
        decode_utf8(bytes)
    } else {
        spec_utf8_lossy(bytes)
    }
}

/// Calls `String::from_utf8_lossy`. Claims, as its documentation states, that valid
/// UTF-8 is decoded unchanged, and that on other bytes the result is a function of the
/// bytes alone (the name `spec_utf8_lossy`).
#[verifier::external_body]
fn utf8_lossy(bytes: &[u8]) -> (s: String)
    ensures
        s@ == (if valid_utf8(bytes@) {
            decode_utf8(bytes@)
        } else {
            spec_utf8_lossy(bytes@)
        }),
{
    String::from_utf8_lossy(bytes).into_owned()
}

/// A string is its length in bytes as a VarInt, then its UTF-8 bytes.
pub open spec fn string_encoding(s: Seq<char>) -> Seq<u8> {
    varint_encoding((encode_utf8(s).len() as i32) as u32) + encode_utf8(s)
}

pub open spec fn string_decode_defined(bytes: Seq<u8>) -> bool {
    &&& !varint_overlong(bytes)
    &&& match spec_varint_deserialize(bytes) {
        Some((len, _)) => len.0 >= 0,
        None => true,
    }
}

pub open spec fn string_decode(bytes: Seq<u8>) -> Option<(Seq<char>, nat)> {
    match spec_varint_deserialize(bytes) {
        Some((len, n)) => if n + len.0 <= bytes.len() {
            Some((lossy_utf8_chars(bytes.subrange(n as int, n + len.0)), n + len.0 as nat))
        } else {
            None
        },
        None => None,
    }
}

impl DataType for String {
    open spec fn spec_encode(v: Seq<char>) -> Seq<u8> {
        string_encoding(v)
    }

    /// A negative length panics when the buffer is allocated.
    open spec fn deserialize_defined(bytes: Seq<u8>) -> bool {
        string_decode_defined(bytes)
    }

    open spec fn spec_decode(bytes: Seq<u8>) -> Option<(Seq<char>, nat)> {
        string_decode(bytes)
    }

    /// The byte length must fit in the VarInt prefix.
    open spec fn encodable(v: Seq<char>) -> bool {
        encode_utf8(v).len() <= i32::MAX
    }

    fn serialize(self, output: &mut Vec<u8>) {
        let bytes = self.as_str().as_bytes();
        // string length as VarInt
        VarInt(bytes.len() as i32).serialize(output);
        // the actual string bytes
        output.extend_from_slice(bytes);
        assert(output@ =~= old(output)@ + string_encoding(self@));
    }

    fn deserialize(input: &mut ByteCursor) -> (res: Result<Self, DecodeError>) {
        let ghost bytes = old(input).remaining();
        let string_length = VarInt::deserialize(input)?;
        let ghost n = (input.pos - old(input).pos) as nat;
        assert(input.remaining() =~= bytes.skip(n as int));
        let string = input.read_exact(string_length.0 as usize)?;
        assert(string@ =~= bytes.subrange(n as int, n + string_length.0));
        let string = utf8_lossy(string.as_slice());
        Ok(string)
    }

    proof fn lemma_roundtrip(v: Seq<char>, rest: Seq<u8>) {
        let utf8 = encode_utf8(v);
        let len = utf8.len() as i32;
        let b = string_encoding(v) + rest;
        assert(b =~= varint_encoding(len as u32) + (utf8 + rest));
        lemma_varint_roundtrip(len as u32, utf8 + rest);
        assert((len as u32) as i32 == len) by (bit_vector);
        let n = varint_len(len as u32);
        assert(b.subrange(n as int, n + len) =~= utf8);
        encode_utf8_valid_utf8(v);
        encode_utf8_decode_utf8(v);
    }
}


// Vectors //
/////////////

/// The encodings of the elements of `s`, one after another.
pub open spec fn encode_all<T: DataType>(s: Seq<<T as DeepView>::V>) -> Seq<u8>
    decreases s.len(),
{
    if s.len() == 0 {
        Seq::empty()
    } else {
        encode_all::<T>(s.drop_last()) + T::spec_encode(s.last())
    }
}

/// `count` values read one after another from the start of `bytes`, and the bytes consumed.
pub open spec fn decode_n<T: DataType>(bytes: Seq<u8>, count: nat) -> Option<
    (Seq<<T as DeepView>::V>, nat),
>
    decreases count,
{
    if count == 0 {
        Some((Seq::empty(), 0))
    } else {
        match decode_n::<T>(bytes, (count - 1) as nat) {
            Some((vs, k)) => match T::spec_decode(bytes.skip(k as int)) {
                Some((v, m)) => Some((vs.push(v), k + m)),
                None => None,
            },
            None => None,
        }
    }
}

/// Whether reading `count` values from the start of `bytes` returns rather than panics.
pub open spec fn decode_n_defined<T: DataType>(bytes: Seq<u8>, count: nat) -> bool
    decreases count,
{
    count == 0 || (decode_n_defined::<T>(bytes, (count - 1) as nat) && match decode_n::<T>(
        bytes,
        (count - 1) as nat,
    ) {
        Some((_, k)) => T::deserialize_defined(bytes.skip(k as int)),
        None => true,
    })
}

/// A vector is its length as a VarInt, then its elements.
impl<T: DataType> DataType for Vec<T> {
    open spec fn spec_encode(v: Seq<<T as DeepView>::V>) -> Seq<u8> {
        varint_encoding((v.len() as i32) as u32) + encode_all::<T>(v)
    }

    /// A negative length panics when the vector is allocated.
    open spec fn deserialize_defined(bytes: Seq<u8>) -> bool {
        &&& !varint_overlong(bytes)
        &&& match spec_varint_deserialize(bytes) {
            Some((count, n)) => count.0 >= 0 && decode_n_defined::<T>(
                bytes.skip(n as int),
                count.0 as nat,
            ),
            None => true,
        }
    }

    open spec fn spec_decode(bytes: Seq<u8>) -> Option<(Seq<<T as DeepView>::V>, nat)> {
        match spec_varint_deserialize(bytes) {
            Some((count, n)) => match decode_n::<T>(bytes.skip(n as int), count.0 as nat) {
                Some((vs, k)) => Some((vs, n + k)),
                None => None,
            },
            None => None,
        }
    }

    open spec fn encodable(v: Seq<<T as DeepView>::V>) -> bool {
        &&& v.len() <= i32::MAX
        &&& forall|i: int| 0 <= i < v.len() ==> T::encodable(#[trigger] v[i])
    }

    fn serialize(self, output: &mut Vec<u8>) {
        // vec length as VarInt
        let size = self.len();
        VarInt(size as i32).serialize(output);
        let ghost start = output@;
        let ghost v = self.deep_view();
        let ghost items = self@;
        // the actual data
        for item in it: self
            invariant
                v.len() == items.len(),
                forall|i: int| 0 <= i < items.len() ==> v[i] == #[trigger] items[i].deep_view(),
                it.seq() == items,
                output@ == start + encode_all::<T>(v.take(it.index())),
        {
            item.serialize(output);
            assert(v.take(it.index() + 1).drop_last() =~= v.take(it.index()));
        }
        assert(v.take(v.len() as int) =~= v);
    }

    fn deserialize(input: &mut ByteCursor) -> (res: Result<Self, DecodeError>) {
        let ghost bytes = old(input).remaining();
        let ghost start = old(input).pos;
        let vec_size = VarInt::deserialize(input)?;
        let ghost n = (input.pos - start) as nat;
        let ghost body = bytes.skip(n as int);
        let ghost count = vec_size.0 as nat;
        let mut data: Vec<T> = Vec::with_capacity(vec_size.0 as usize);
        assert(data.deep_view() =~= Seq::<<T as DeepView>::V>::empty());
        let mut i: i32 = 0;
        while i < vec_size.0
            invariant
                input.wf(),
                input.data == old(input).data,
                bytes == old(input).remaining(),
                start == old(input).pos,
                body == bytes.skip(n as int),
                spec_varint_deserialize(bytes) == Some((vec_size, n)),
                n <= bytes.len(),
                0 <= i <= vec_size.0,
                count == vec_size.0 as nat,
                decode_n_defined::<T>(body, count),
                start + n <= input.pos,
                decode_n::<T>(body, i as nat) == Some(
                    (data.deep_view(), (input.pos - start - n) as nat),
                ),
            decreases vec_size.0 - i,
        {
            let ghost k = (input.pos - start - n) as nat;
            proof {
                lemma_decode_n_defined_prefix::<T>(body, count, i as nat);
                assert(input.remaining() =~= body.skip(k as int));
            }
            let item = match T::deserialize(input) {
                Ok(item) => item,
                Err(e) => {
                    proof {
                        lemma_decode_n_none_after::<T>(body, (i + 1) as nat, count);
                    }
                    return Err(e);
                },
            };
            let ghost old_view = data.deep_view();
            data.push(item);
            assert(data.deep_view() =~= old_view.push(item.deep_view()));
            i = i + 1;
        }
        Ok(data)
    }

    proof fn lemma_roundtrip(v: Seq<<T as DeepView>::V>, rest: Seq<u8>) {
        let len = v.len() as i32;
        let elems = encode_all::<T>(v);
        let b = Self::spec_encode(v) + rest;
        assert(b =~= varint_encoding(len as u32) + (elems + rest));
        lemma_varint_roundtrip(len as u32, elems + rest);
        assert((len as u32) as i32 == len) by (bit_vector);
        let n = varint_len(len as u32);
        assert(b.skip(n as int) =~= elems + rest);
        lemma_decode_encode_all::<T>(v, rest, v.len());
        assert(v.take(v.len() as int) =~= v);
    }
}

/// Encoding two sequences one after another is encoding their concatenation.
pub proof fn lemma_encode_all_concat<T: DataType>(
    a: Seq<<T as DeepView>::V>,
    b: Seq<<T as DeepView>::V>,
)
    ensures
        encode_all::<T>(a + b) == encode_all::<T>(a) + encode_all::<T>(b),
    decreases b.len(),
{
    if b.len() == 0 {
        assert(a + b =~= a);
        assert(encode_all::<T>(a) + encode_all::<T>(b) =~= encode_all::<T>(a));
    } else {
        lemma_encode_all_concat::<T>(a, b.drop_last());
        assert((a + b).drop_last() =~= a + b.drop_last());
        assert(encode_all::<T>(a + b) =~= encode_all::<T>(a) + encode_all::<T>(b));
    }
}

proof fn lemma_decode_n_defined_prefix<T: DataType>(bytes: Seq<u8>, count: nat, i: nat)
    requires
        decode_n_defined::<T>(bytes, count),
        i < count,
    ensures
        decode_n_defined::<T>(bytes, i + 1),
    decreases count,
{
    if i + 1 < count {
        lemma_decode_n_defined_prefix::<T>(bytes, (count - 1) as nat, i);
    }
}

proof fn lemma_decode_n_none_after<T: DataType>(bytes: Seq<u8>, i: nat, count: nat)
    requires
        decode_n::<T>(bytes, i) is None,
        i <= count,
    ensures
        decode_n::<T>(bytes, count) is None,
    decreases count,
{
    if i < count {
        lemma_decode_n_none_after::<T>(bytes, i, (count - 1) as nat);
    }
}

proof fn lemma_decode_encode_all<T: DataType>(
    v: Seq<<T as DeepView>::V>,
    rest: Seq<u8>,
    j: nat,
)
    requires
        j <= v.len(),
        forall|i: int| 0 <= i < v.len() ==> T::encodable(#[trigger] v[i]),
    ensures
        decode_n_defined::<T>(encode_all::<T>(v) + rest, j),
        decode_n::<T>(encode_all::<T>(v) + rest, j) == Some(
            (v.take(j as int), encode_all::<T>(v.take(j as int)).len()),
        ),
    decreases j,
{
    let b = encode_all::<T>(v) + rest;
    if j == 0 {
        assert(v.take(0) =~= Seq::<<T as DeepView>::V>::empty());
    } else {
        let p = (j - 1) as nat;
        lemma_decode_encode_all::<T>(v, rest, p);
        let x = v[p as int];
        let tail = encode_all::<T>(v.skip(j as int)) + rest;
        assert(v =~= v.take(p as int) + (seq![x] + v.skip(j as int)));
        lemma_encode_all_concat::<T>(v.take(p as int), seq![x] + v.skip(j as int));
        lemma_encode_all_concat::<T>(seq![x], v.skip(j as int));
        let empty = Seq::<<T as DeepView>::V>::empty();
        assert(seq![x] =~= empty.push(x));
        assert(encode_all::<T>(seq![x]) =~= T::spec_encode(x)) by {
            assert(empty.push(x).drop_last() =~= empty);
            assert(encode_all::<T>(empty) =~= Seq::<u8>::empty());
        }
        let k = encode_all::<T>(v.take(p as int)).len();
        assert(b.skip(k as int) =~= T::spec_encode(x) + tail);
        T::lemma_roundtrip(x, tail);
        assert(v.take(j as int).drop_last() =~= v.take(p as int));
        assert(v.take(p as int).push(x) =~= v.take(j as int));
    }
}


// Protocol structures //
/////////////////////////

#[derive(Clone, Debug, Copy, PartialEq, Eq, Structural)]
pub enum Slot {
    Present(VarInt, i8),
    NotPresent,
}

#[derive(Debug, Clone)]
pub struct ChunkSection {
    /// number of non-air blocks in the chunk section, for lighting purposes.
    pub block_count: i16,
    pub palette: Palette,
    pub data: Vec<i64>,
}

#[derive(Debug, Clone)]
pub enum Palette {
    FourBytes(Vec<VarInt>),
    EightBytes(Vec<VarInt>),
    Full,
}

#[derive(Debug, Clone)]
pub struct Chat(pub String);

/// Used in the DeclareCommands packet.
#[derive(Debug, Clone)]
pub enum CommandNode {
    /// child node indices
    Root(Vec<VarInt>),
    /// executable, child node indices, redirect, name
    Literal(bool, Vec<VarInt>, Option<VarInt>, String),
    /// executable, child node indices, redirect, name, parser, whether it has suggestions
    Argument(bool, Vec<VarInt>, Option<VarInt>, String, Parser, bool),
}

#[derive(Debug, Clone)]
pub enum Parser {
    /// type: 0 - SINGLE_WORD, 1 - QUOTABLE_PHRASE, 2 - GREEDY_PHRASE
    String(VarInt),
}

/// The contents of a [`Palette`].
pub enum PaletteView {
    FourBytes(Seq<VarInt>),
    EightBytes(Seq<VarInt>),
    Full,
}

/// The contents of a [`CommandNode`].
pub enum CommandNodeView {
    Root(Seq<VarInt>),
    Literal(bool, Seq<VarInt>, Option<VarInt>, Seq<char>),
    Argument(bool, Seq<VarInt>, Option<VarInt>, Seq<char>, Parser, bool),
}

/// The contents of a [`ChunkSection`].
pub struct ChunkSectionView {
    pub block_count: i16,
    pub palette: PaletteView,
    pub data: Seq<i64>,
}

impl DeepView for Slot {
    type V = Slot;

    open spec fn deep_view(&self) -> Slot {
        *self
    }
}

impl DeepView for Parser {
    type V = Parser;

    open spec fn deep_view(&self) -> Parser {
        *self
    }
}

impl DeepView for Chat {
    type V = Seq<char>;

    open spec fn deep_view(&self) -> Seq<char> {
        self.0@
    }
}

impl DeepView for Palette {
    type V = PaletteView;

    open spec fn deep_view(&self) -> PaletteView {
        match self {
            Palette::FourBytes(p) => PaletteView::FourBytes(p.deep_view()),
            Palette::EightBytes(p) => PaletteView::EightBytes(p.deep_view()),
            Palette::Full => PaletteView::Full,
        }
    }
}

impl DeepView for CommandNode {
    type V = CommandNodeView;

    open spec fn deep_view(&self) -> CommandNodeView {
        match self {
            CommandNode::Root(c) => CommandNodeView::Root(c.deep_view()),
            CommandNode::Literal(e, c, r, n) => CommandNodeView::Literal(
                *e,
                c.deep_view(),
                *r,
                n@,
            ),
            CommandNode::Argument(e, c, r, n, p, s) => CommandNodeView::Argument(
                *e,
                c.deep_view(),
                *r,
                n@,
                *p,
                *s,
            ),
        }
    }
}

impl DeepView for ChunkSection {
    type V = ChunkSectionView;

    open spec fn deep_view(&self) -> ChunkSectionView {
        ChunkSectionView {
            block_count: self.block_count,
            palette: self.palette.deep_view(),
            data: self.data.deep_view(),
        }
    }
}

impl DataType for Chat {
    open spec fn spec_encode(v: Seq<char>) -> Seq<u8> {
        string_encoding(v)
    }

    open spec fn deserialize_defined(bytes: Seq<u8>) -> bool {
        string_decode_defined(bytes)
    }

    open spec fn spec_decode(bytes: Seq<u8>) -> Option<(Seq<char>, nat)> {
        string_decode(bytes)
    }

    open spec fn encodable(v: Seq<char>) -> bool {
        encode_utf8(v).len() <= i32::MAX
    }

    fn serialize(self, output: &mut Vec<u8>) {
        // since its just a newtype for string
        self.0.serialize(output);
    }

    fn deserialize(input: &mut ByteCursor) -> (res: Result<Self, DecodeError>) {
        Ok(Self(String::deserialize(input)?))
    }

    proof fn lemma_roundtrip(v: Seq<char>, rest: Seq<u8>) {
        <String as DataType>::lemma_roundtrip(v, rest);
    }
}

/// The bytes of an optional VarInt that is written only when present.
pub open spec fn optional_varint_encoding(r: Option<VarInt>) -> Seq<u8> {
    match r {
        Some(x) => varint_encoding(x.0 as u32),
        None => Seq::empty(),
    }
}

/// The flags byte of a command node: its kind, then bits for being executable,
/// for a redirect and for suggestions.
pub open spec fn command_flags(kind: u8, executable: bool, redirect: bool, suggestions: bool) -> u8 {
    let f = (0u8 | kind) as u8;
    let f = if executable {
        (f | 0x04u8) as u8
    } else {
        f
    };
    let f = if redirect {
        (f | 0x08u8) as u8
    } else {
        f
    };
    if suggestions {
        (f | 0x10u8) as u8
    } else {
        f
    }
}

pub open spec fn parser_encoding(p: Parser) -> Seq<u8> {
    match p {
        Parser::String(properties) => string_encoding("brigadier:string"@) + varint_encoding(
            properties.0 as u32,
        ),
    }
}

pub open spec fn vec_varint_encoding(s: Seq<VarInt>) -> Seq<u8> {
    <Vec<VarInt> as DataType>::spec_encode(s)
}

pub open spec fn command_node_encoding(v: CommandNodeView) -> Seq<u8> {
    match v {
        CommandNodeView::Root(children) => seq![0u8] + vec_varint_encoding(children),
        CommandNodeView::Literal(executable, children, redirect, name) => seq![
            command_flags(0x01, executable, redirect is Some, false),
        ] + vec_varint_encoding(children) + optional_varint_encoding(redirect) + string_encoding(
            name,
        ),
        CommandNodeView::Argument(
            executable,
            children,
            redirect,
            name,
            parser,
            has_suggestions,
        ) => seq![command_flags(0x02, executable, redirect is Some, has_suggestions)]
            + vec_varint_encoding(children) + optional_varint_encoding(redirect) + string_encoding(
            name,
        ) + parser_encoding(parser) + if has_suggestions {
            string_encoding("minecraft:ask_server"@)
        } else {
            Seq::empty()
        },
    }
}

pub open spec fn palette_encoding(v: PaletteView) -> Seq<u8> {
    match v {
        PaletteView::FourBytes(p) => vec_varint_encoding(p),
        PaletteView::EightBytes(p) => vec_varint_encoding(p),
        PaletteView::Full => Seq::empty(),
    }
}

/// The bits per block that a chunk section announces for its palette.
pub open spec fn palette_bits(v: PaletteView) -> u8 {
    match v {
        PaletteView::FourBytes(_) => 4,
        PaletteView::EightBytes(_) => 8,
        PaletteView::Full => 14,
    }
}

pub open spec fn chunk_section_encoding(v: ChunkSectionView) -> Seq<u8> {
    be16(v.block_count as u16) + seq![palette_bits(v.palette)] + palette_encoding(v.palette) + <Vec<
        i64,
    > as DataType>::spec_encode(v.data)
}

fn write_string(output: &mut Vec<u8>, s: &str)
    ensures
        final(output)@ == old(output)@ + string_encoding(s@),
{
    s.to_string().serialize(output);
}

/// The client never sends palettes, command nodes, parsers or chunk sections:
/// reading them is not implemented and panics.
impl DataType for Palette {
    open spec fn spec_encode(v: PaletteView) -> Seq<u8> {
        palette_encoding(v)
    }

    open spec fn deserialize_defined(bytes: Seq<u8>) -> bool {
        false
    }

    open spec fn spec_decode(bytes: Seq<u8>) -> Option<(PaletteView, nat)> {
        None
    }

    open spec fn encodable(v: PaletteView) -> bool {
        false
    }

    fn serialize(self, output: &mut Vec<u8>) {
        match self {
            Palette::FourBytes(palette) => {
                palette.serialize(output);
            },
            Palette::EightBytes(palette) => {
                palette.serialize(output);
            },
            Palette::Full => {
                assert(output@ =~= old(output)@ + Seq::<u8>::empty());
            },
        }
    }

    fn deserialize(input: &mut ByteCursor) -> (res: Result<Self, DecodeError>) {
        Err(DecodeError::UnexpectedEof)
    }

    proof fn lemma_roundtrip(v: PaletteView, rest: Seq<u8>) {
    }
}

impl DataType for Parser {
    open spec fn spec_encode(v: Parser) -> Seq<u8> {
        parser_encoding(v)
    }

    open spec fn deserialize_defined(bytes: Seq<u8>) -> bool {
        false
    }

    open spec fn spec_decode(bytes: Seq<u8>) -> Option<(Parser, nat)> {
        None
    }

    open spec fn encodable(v: Parser) -> bool {
        false
    }

    fn serialize(self, output: &mut Vec<u8>) {
        match self {
            Parser::String(properties) => {
                write_string(output, "brigadier:string");
                properties.serialize(output);
            },
        }
    }

    fn deserialize(input: &mut ByteCursor) -> (res: Result<Self, DecodeError>) {
        Err(DecodeError::UnexpectedEof)
    }

    proof fn lemma_roundtrip(v: Parser, rest: Seq<u8>) {
    }
}

impl DataType for CommandNode {
    open spec fn spec_encode(v: CommandNodeView) -> Seq<u8> {
        command_node_encoding(v)
    }

    open spec fn deserialize_defined(bytes: Seq<u8>) -> bool {
        false
    }

    open spec fn spec_decode(bytes: Seq<u8>) -> Option<(CommandNodeView, nat)> {
        None
    }

    open spec fn encodable(v: CommandNodeView) -> bool {
        false
    }

    fn serialize(self, output: &mut Vec<u8>) {
        let mut flags = 0u8;
        match self {
            Self::Root(children) => {
                flags.serialize(output);
                children.serialize(output);
            },
            Self::Literal(executable, children, redirect, name) => {
                flags = flags | 0x01;
                if executable {
                    flags = flags | 0x04;
                }
                if let Some(_) = redirect {
                    flags = flags | 0x08;
                }
                assert(flags == command_flags(0x01, executable, redirect is Some, false));
                flags.serialize(output);
                children.serialize(output);
                if let Some(redirect) = redirect {
                    redirect.serialize(output);
                }
                name.serialize(output);
            },
            Self::Argument(executable, children, redirect, name, parser, has_suggestions) => {
                flags = flags | 0x02;
                if executable {
                    flags = flags | 0x04;
                }
                if let Some(_) = redirect {
                    flags = flags | 0x08;
                }
                if has_suggestions {
                    flags = flags | 0x10;
                }
                assert(flags == command_flags(0x02, executable, redirect is Some, has_suggestions));
                flags.serialize(output);
                children.serialize(output);
                if let Some(redirect) = redirect {
                    redirect.serialize(output);
                }
                name.serialize(output);
                parser.serialize(output);
                if has_suggestions {
                    // always ask server
                    write_string(output, "minecraft:ask_server");
                }
            },
        }
        assert(output@ =~= old(output)@ + command_node_encoding(self.deep_view()));
    }

    fn deserialize(input: &mut ByteCursor) -> (res: Result<Self, DecodeError>) {
        Err(DecodeError::UnexpectedEof)
    }

    proof fn lemma_roundtrip(v: CommandNodeView, rest: Seq<u8>) {
    }
}

impl DataType for ChunkSection {
    open spec fn spec_encode(v: ChunkSectionView) -> Seq<u8> {
        chunk_section_encoding(v)
    }

    open spec fn deserialize_defined(bytes: Seq<u8>) -> bool {
        false
    }

    open spec fn spec_decode(bytes: Seq<u8>) -> Option<(ChunkSectionView, nat)> {
        None
    }

    open spec fn encodable(v: ChunkSectionView) -> bool {
        false
    }

    fn serialize(self, output: &mut Vec<u8>) {
        let ghost v = self.deep_view();
        self.block_count.serialize(output);
        match self.palette {
            Palette::FourBytes(_) => {
                4u8.serialize(output);
            },
            Palette::EightBytes(_) => {
                8u8.serialize(output);
            },
            Palette::Full => {
                14u8.serialize(output);
            },
        }
        self.palette.serialize(output);
        self.data.serialize(output);
        assert(output@ =~= old(output)@ + chunk_section_encoding(v));
    }

    fn deserialize(input: &mut ByteCursor) -> (res: Result<Self, DecodeError>) {
        Err(DecodeError::UnexpectedEof)
    }

    proof fn lemma_roundtrip(v: ChunkSectionView, rest: Seq<u8>) {
    }
}

pub open spec fn slot_encoding(s: Slot) -> Seq<u8> {
    match s {
        Slot::Present(id, number) => seq![1u8] + varint_encoding(id.0 as u32) + seq![number as u8],
        Slot::NotPresent => seq![0u8],
    }
}

pub open spec fn slot_decode(bytes: Seq<u8>) -> Option<(Slot, nat)> {
    if bytes.len() < 1 {
        None
    } else if bytes[0] == 1 {
        match spec_varint_deserialize(bytes.skip(1)) {
            Some((id, k)) => if 1 + k < bytes.len() {
                Some((Slot::Present(id, bytes[1 + k as int] as i8), k + 2))
            } else {
                None
            },
            None => None,
        }
    } else {
        Some((Slot::NotPresent, 1))
    }
}

impl DataType for Slot {
    open spec fn spec_encode(v: Slot) -> Seq<u8> {
        slot_encoding(v)
    }

    open spec fn deserialize_defined(bytes: Seq<u8>) -> bool {
        bytes.len() >= 1 && bytes[0] == 1 ==> !varint_overlong(bytes.skip(1))
    }

    open spec fn spec_decode(bytes: Seq<u8>) -> Option<(Slot, nat)> {
        slot_decode(bytes)
    }

    open spec fn encodable(v: Slot) -> bool {
        true
    }

    fn serialize(self, output: &mut Vec<u8>) {
        match self {
            Slot::Present(id, number) => {
                true.serialize(output);
                id.serialize(output);
                number.serialize(output);
            },
            Slot::NotPresent => {
                false.serialize(output);
            },
        }
        assert(output@ =~= old(output)@ + slot_encoding(self));
    }

    fn deserialize(input: &mut ByteCursor) -> (res: Result<Self, DecodeError>) {
        let ghost bytes = old(input).remaining();
        if bool::deserialize(input)? {
            assert(input.remaining() =~= bytes.skip(1));
            let id = VarInt::deserialize(input)?;
            let ghost k = input.pos - old(input).pos - 1;
            assert(input.remaining() =~= bytes.skip(1 + k));
            let number = i8::deserialize(input)?;
            Ok(Self::Present(id, number))
        } else {
            Ok(Self::NotPresent)
        }
    }

    proof fn lemma_roundtrip(v: Slot, rest: Seq<u8>) {
        let b = slot_encoding(v) + rest;
        match v {
            Slot::Present(id, number) => {
                let e = varint_encoding(id.0 as u32);
                assert(b.skip(1) =~= e + (seq![number as u8] + rest));
                lemma_varint_roundtrip(id.0 as u32, seq![number as u8] + rest);
                let x = id.0;
                assert((x as u32) as i32 == x) by (bit_vector);
                assert(b[1 + e.len() as int] == number as u8);
                assert((number as u8) as i8 == number) by (bit_vector);
            },
            Slot::NotPresent => {
            },
        }
    }
}

} // verus!
