//! Packets on a client connection: the length prefix, the compressed packet
//! format, the states of a connection, and the offline UUID of a username.
use crate::datatypes::{
    VarInt, DataType, ByteCursor, varint_encoding, varint_len, varint_acc, shl7,
    lemma_varint_roundtrip, from_be64,
};
use vstd::prelude::*;
use vstd::string::StringSliceAdditionalSpecFns;

verus! {

/// The zlib stream that `flate2` writes for some data at `Compression::fast()`.
pub uninterp spec fn zlib_compressed(data: Seq<u8>) -> Seq<u8>;

/// What `flate2`'s zlib decoder makes of some bytes: `None` where it fails.
pub uninterp spec fn zlib_decompressed(data: Seq<u8>) -> Option<Seq<u8>>;

/// The MD5 digest of some bytes.
pub uninterp spec fn md5_digest(data: Seq<u8>) -> Seq<u8>;

/// Calls `flate2::write::ZlibEncoder` at `Compression::fast()` on the whole
/// input, writing into a `Vec`: the result is the zlib stream of the input,
/// named `zlib_compressed`. zlib is lossless, so the decoder gives the input
/// back from it; writing into a `Vec` cannot fail.
#[verifier::external_body]
fn zlib_compress(data: &[u8]) -> (res: Vec<u8>)
    ensures
        res@ == zlib_compressed(data@),
        zlib_decompressed(res@) == Some(data@),
{
    let mut encoder = flate2::write::ZlibEncoder::new(Vec::new(), flate2::Compression::fast());
    let _ = std::io::Write::write_all(&mut encoder, data);
    encoder.finish().unwrap_or_default()
}

/// Calls `flate2::write::ZlibDecoder`, writing into a `Vec`, on the whole
/// input: the decompressed data, or `None` where the decoder reports an error.
#[verifier::external_body]
fn zlib_decompress(data: &[u8]) -> (res: Option<Vec<u8>>)
    ensures
        match res {
            Some(v) => zlib_decompressed(data@) == Some(v@),
            None => zlib_decompressed(data@) is None,
        },
{
    let mut decoder = flate2::write::ZlibDecoder::new(Vec::new());
    if std::io::Write::write_all(&mut decoder, data).is_err() {
        return None;
    }
    decoder.finish().ok()
}

/// Calls `md5::compute`: the 16 bytes of the digest, named `md5_digest`.
#[verifier::external_body]
fn md5_compute(data: &[u8]) -> (res: [u8; 16])
    ensures
        res@ == md5_digest(data@),
{
    md5::compute(data).0
}

// Length prefixes //
/////////////////////

/// How the stream handler reads a VarInt: at most five bytes, the fifth
/// ending it whatever its high bit, the bits above 32 dropped.
pub open spec fn stream_varint_acc(b: Seq<u8>, i: nat, acc: u32) -> Option<(u32, nat)>
    decreases 5 - i,
{
    if i >= 5 || i >= b.len() {
        None
    } else {
        let acc2 = acc | shl7((b[i as int] & 0x7f) as u32, i as int);
        if b[i as int] & 0x80 == 0 || i == 4 {
            Some((acc2, i + 1))
        } else {
            stream_varint_acc(b, i + 1, acc2)
        }
    }
}

/// The VarInt at the start of `b` and the number of its bytes; `None` when
/// `b` ends first.
pub open spec fn stream_varint(b: Seq<u8>) -> Option<(i32, nat)> {
    match stream_varint_acc(b, 0, 0) {
        Some((v, n)) => Some((v as i32, n)),
        None => None,
    }
}

/// Where the strict decoder succeeds, the stream handler's reads the same.
proof fn lemma_stream_agrees(b: Seq<u8>, i: nat, acc: u32)
    requires
        varint_acc(b, i, acc) is Some,
    ensures
        stream_varint_acc(b, i, acc) == varint_acc(b, i, acc),
    decreases 5 - i,
{
    if i < 5 && i < b.len() {
        let acc2 = acc | shl7((b[i as int] & 0x7f) as u32, i as int);
        if b[i as int] & 0x80 != 0 {
            if i == 4 {
                assert(varint_acc(b, i + 1, acc2) is None);
            } else {
                lemma_stream_agrees(b, i + 1, acc2);
            }
        }
    }
}

/// The encoding of a VarInt reads back as its value, whatever follows.
proof fn lemma_stream_varint(n: u32, rest: Seq<u8>)
    ensures
        stream_varint(varint_encoding(n) + rest) == Some((n as i32, varint_len(n))),
{
    lemma_varint_roundtrip(n, rest);
    lemma_stream_agrees(varint_encoding(n) + rest, 0, 0);
}

fn shl7_exec(v: u32, i: usize) -> (res: u32)
    requires
        i < 5,
    ensures
        res == shl7(v, i as int),
{
    match i {
        0 => v,
        1 => v << 7u32,
        2 => v << 14u32,
        3 => v << 21u32,
        _ => v << 28u32,
    }
}

/// Reads a VarInt from the start of `bytes` as the stream handler does.
pub fn read_varint(bytes: &[u8]) -> (res: Option<(i32, usize)>)
    ensures
        match res {
            Some((v, n)) => stream_varint(bytes@) == Some((v, n as nat)) && 1 <= n <= bytes@.len(),
            None => stream_varint(bytes@) is None,
        },
{
    let mut i: usize = 0;
    let mut result: u32 = 0;
    loop
        invariant
            i < 5,
            stream_varint_acc(bytes@, 0, 0) == stream_varint_acc(bytes@, i as nat, result),
        decreases 5 - i,
    {
        if i >= bytes.len() {
            return None;
        }
        let byte = bytes[i];
        let value = (byte & 0b0111_1111) as u32;
        result = result | shl7_exec(value, i);
        if (byte & 0b1000_0000) == 0 || i == 4 {
            return Some((result as i32, i + 1));
        }
        i = i + 1;
    }
}

/// Why a packet length could not be read.
#[derive(Clone, Copy, Debug, PartialEq, Eq, Structural)]
pub enum LengthError {
    /// VarInt is too big: five bytes all announce another
    TooBig,
    /// the connection ended within the VarInt
    Eof,
}

/// Whether each of the first five bytes announces another.
pub open spec fn five_continued(b: Seq<u8>) -> bool {
    b.len() >= 5 && forall|k: int| 0 <= k < 5 ==> b[k] & 0x80 != 0
}

proof fn lemma_varint_acc_none(b: Seq<u8>, i: nat, acc: u32)
    requires
        i <= 5,
        varint_acc(b, i, acc) is None,
        forall|k: int| 0 <= k < i ==> b[k] & 0x80 != 0,
    ensures
        five_continued(b) || b.len() < 5 && forall|k: int| 0 <= k < b.len() ==> b[k] & 0x80 != 0,
    decreases 5 - i,
{
    if i < 5 && i < b.len() {
        let acc2 = acc | shl7((b[i as int] & 0x7f) as u32, i as int);
        if b[i as int] & 0x80 != 0 {
            lemma_varint_acc_none(b, i + 1, acc2);
        }
    }
}

/// Reads the length of a packet as the base server does: a VarInt of at most five bytes.
pub fn read_packet_length(bytes: &[u8]) -> (res: Result<(i32, usize), LengthError>)
    ensures
        match res {
            Ok((v, n)) => varint_acc(bytes@, 0, 0) matches Some((r, m)) && v == r as i32 && n == m,
            Err(LengthError::TooBig) => varint_acc(bytes@, 0, 0) is None && five_continued(bytes@),
            Err(LengthError::Eof) => varint_acc(bytes@, 0, 0) is None && !five_continued(bytes@),
        },
{
    let mut num_read: usize = 0;
    let mut result: u32 = 0;
    loop
        invariant
            num_read <= 5,
            num_read <= bytes@.len(),
            varint_acc(bytes@, 0, 0) == varint_acc(bytes@, num_read as nat, result),
            forall|k: int| 0 <= k < num_read ==> bytes@[k] & 0x80 != 0,
        decreases 5 - num_read,
    {
        // VarInts are at most 5 bytes long
        if num_read == 5 {
            return Err(LengthError::TooBig);
        }
        if num_read >= bytes.len() {
            proof {
                lemma_varint_acc_none(bytes@, 0, 0);
            }
            return Err(LengthError::Eof);
        }
        let byte = bytes[num_read];
        let value = (byte & 0b0111_1111) as u32;
        result = result | shl7_exec(value, num_read);
        num_read = num_read + 1;
        if (byte & 0b1000_0000) == 0 {
            return Ok((result as i32, num_read));
        }
    }
}

/// The largest packet, and the largest uncompressed packet, that a client may send.
pub const MAX_PACKET_SIZE: i32 = 0x1F_FFFF;

/// Why a packet could not be read.
#[derive(Clone, Copy, Debug, PartialEq, Eq, Structural)]
pub enum FrameError {
    /// Packet too big. Max size allowed: 0x1F FFFF bytes.
    TooBig,
    /// Uncompressed packet too big. Max size allowed: 0x1F FFFF bytes.
    UncompressedTooBig,
    /// the connection ended within the packet
    Eof,
    /// the compressed data could not be decompressed
    Corrupt,
}

/// Reading a packet from the bytes a connection delivers: its body and the
/// number of bytes it took. In the compressed format the length is followed
/// by the uncompressed size, 0 for a packet sent uncompressed.
pub open spec fn read_frame_spec(b: Seq<u8>, compressed: bool) -> Result<(Seq<u8>, nat), FrameError> {
    match stream_varint(b) {
        None => Err(FrameError::Eof),
        Some((len, n1)) => if len < 0 || len > MAX_PACKET_SIZE {
            Err(FrameError::TooBig)
        } else if !compressed {
            if b.len() < n1 + len {
                Err(FrameError::Eof)
            } else {
                Ok((b.subrange(n1 as int, n1 + len), (n1 + len) as nat))
            }
        } else {
            match stream_varint(b.skip(n1 as int)) {
                None => Err(FrameError::Eof),
                Some((u, n2)) => if u > MAX_PACKET_SIZE {
                    Err(FrameError::UncompressedTooBig)
                } else if u == 0 {
                    // the data isn't actually compressed
                    let start = n1 + n2;
                    let end = start + len - 1;
                    if b.len() < end {
                        Err(FrameError::Eof)
                    } else {
                        Ok((b.subrange(start as int, end), end as nat))
                    }
                } else {
                    let start = n1 + n2;
                    let end = start + len - varint_len(u as u32);
                    if b.len() < end {
                        Err(FrameError::Eof)
                    } else {
                        match zlib_decompressed(b.subrange(start as int, end)) {
                            Some(d) => Ok((d, end as nat)),
                            None => Err(FrameError::Corrupt),
                        }
                    }
                },
            }
        },
    }
}

/// Whether reading returns rather than panics: in the compressed format the
/// length must cover the uncompressed size's own bytes (one byte when it is 0).
pub open spec fn read_frame_defined(b: Seq<u8>, compressed: bool) -> bool {
    match stream_varint(b) {
        Some((len, n1)) => (0 <= len <= MAX_PACKET_SIZE && compressed) ==> match stream_varint(
            b.skip(n1 as int),
        ) {
            Some((u, _)) => u <= MAX_PACKET_SIZE ==> if u == 0 {
                len >= 1
            } else {
                len >= varint_len(u as u32)
            },
            None => true,
        },
        None => true,
    }
}

/// Whether reading the packet at the start of `bytes` would panic.
pub fn read_frame_panics(bytes: &[u8], compressed: bool) -> (res: bool)
    ensures
        res == !read_frame_defined(bytes@, compressed),
{
    match read_varint(bytes) {
        None => false,
        Some((len, n1)) => {
            if len < 0 || len > MAX_PACKET_SIZE || !compressed {
                return false;
            }
            let rest = slice_from(bytes, n1);
            match read_varint(rest.as_slice()) {
                None => false,
                Some((u, _)) => {
                    if u > MAX_PACKET_SIZE {
                        false
                    } else if u == 0 {
                        len < 1
                    } else {
                        (len as u32) < (VarInt(u).size() as u32)
                    }
                },
            }
        },
    }
}

fn slice_from(bytes: &[u8], start: usize) -> (res: Vec<u8>)
    requires
        start <= bytes@.len(),
    ensures
        res@ == bytes@.skip(start as int),
{
    let mut cur = ByteCursor { data: bytes, pos: start };
    let n = bytes.len() - start;
    let res = cur.read_exact(n);
    assert(bytes@.subrange(start as int, bytes@.len() as int).take(n as int) =~= bytes@.skip(
        start as int,
    ));
    res.unwrap()
}

fn slice_range(bytes: &[u8], start: usize, end: usize) -> (res: Vec<u8>)
    requires
        start <= end <= bytes@.len(),
    ensures
        res@ == bytes@.subrange(start as int, end as int),
{
    let mut cur = ByteCursor { data: bytes, pos: start };
    let res = cur.read_exact(end - start);
    assert(bytes@.subrange(start as int, bytes@.len() as int).take((end - start) as int)
        =~= bytes@.subrange(start as int, end as int));
    res.unwrap()
}

/// Reads one packet from the bytes a connection delivers: the packet's body
/// and the number of bytes it took.
pub fn read_frame(bytes: &[u8], compressed: bool) -> (res: Result<(Vec<u8>, usize), FrameError>)
    requires
        read_frame_defined(bytes@, compressed),
    ensures
        match res {
            Ok((body, n)) => read_frame_spec(bytes@, compressed) == Ok::<(Seq<u8>, nat), FrameError>((body@, n as nat)),
            Err(e) => read_frame_spec(bytes@, compressed) == Err::<(Seq<u8>, nat), FrameError>(e),
        },
{
    let r1 = read_varint(bytes);
    let (len, n1) = match r1 {
        Some(x) => x,
        None => {
            return Err(FrameError::Eof);
        },
    };
    assert(n1 <= bytes@.len());
    if len < 0 || len > MAX_PACKET_SIZE {
        return Err(FrameError::TooBig);
    }
    let length = len as usize;
    if !compressed {
        if bytes.len() - n1 < length {
            return Err(FrameError::Eof);
        }
        return Ok((slice_range(bytes, n1, n1 + length), n1 + length));
    }
    let rest = slice_from(bytes, n1);
    let r2 = read_varint(rest.as_slice());
    let (u, n2) = match r2 {
        Some(x) => x,
        None => {
            return Err(FrameError::Eof);
        },
    };
    assert(n2 <= rest@.len());
    if u > MAX_PACKET_SIZE {
        return Err(FrameError::UncompressedTooBig);
    }
    assert(rest@.len() == bytes@.len() - n1);
    let total_len = bytes.len();
    let start = n1 + n2;
    if u == 0 {
        // the data isn't actually compressed, so it can just be read normally
        let need = length - 1;
        if bytes.len() - start < need {
            return Err(FrameError::Eof);
        }
        let end = start + need;
        Ok((slice_range(bytes, start, end), end))
    } else {
        // time to decompress
        let need = length - VarInt(u).size() as usize;
        if bytes.len() - start < need {
            return Err(FrameError::Eof);
        }
        let end = start + need;
        let data = slice_range(bytes, start, end);
        match zlib_decompress(data.as_slice()) {
            Some(d) => Ok((d, end)),
            None => Err(FrameError::Corrupt),
        }
    }
}

// Writing packets //
/////////////////////

/// The bytes sent for a packet body. Packets that may be compressed (those of
/// the play state, and the login success) use the compressed format when a
/// threshold is set: bodies of at least `threshold` bytes are compressed, the
/// others are sent after an uncompressed size of 0.
pub open spec fn framed(p: Seq<u8>, compressible: bool, threshold: i32) -> Seq<u8> {
    if compressible && threshold >= 0 {
        if p.len() >= threshold {
            let c = zlib_compressed(p);
            varint_encoding((c.len() + varint_len(p.len() as u32)) as u32) + varint_encoding(
                p.len() as u32,
            ) + c
        } else {
            varint_encoding((p.len() + 1) as u32) + seq![0u8] + p
        }
    } else {
        varint_encoding(p.len() as u32) + p
    }
}

/// The length that the first VarInt of a written packet announces.
pub open spec fn frame_length(p: Seq<u8>, compressible: bool, threshold: i32) -> int {
    if compressible && threshold >= 0 {
        if p.len() >= threshold {
            (zlib_compressed(p).len() + varint_len(p.len() as u32)) as int
        } else {
            (p.len() + 1) as int
        }
    } else {
        p.len() as int
    }
}

fn push_varint(out: &mut Vec<u8>, v: i32)
    ensures
        final(out)@ == old(out)@ + varint_encoding(v as u32),
{
    VarInt(v).serialize(out);
}

fn push_all(out: &mut Vec<u8>, data: &[u8])
    ensures
        final(out)@ == old(out)@ + data@,
{
    let mut i: usize = 0;
    while i < data.len()
        invariant
            i <= data@.len(),
            out@ == old(out)@ + data@.take(i as int),
        decreases data@.len() - i,
    {
        out.push(data[i]);
        i = i + 1;
        assert(out@ =~= old(out)@ + data@.take(i as int));
    }
    assert(data@.take(data@.len() as int) =~= data@);
}

/// Reading back a compressed packet: the announced length covers the
/// uncompressed size and the compressed data, which the decoder turns back into the body.
proof fn lemma_read_compressed(p: Seq<u8>, c: Seq<u8>, rest: Seq<u8>)
    requires
        0 < p.len() <= MAX_PACKET_SIZE,
        c.len() + varint_len(p.len() as u32) <= MAX_PACKET_SIZE,
        zlib_decompressed(c) == Some(p),
    ensures
        ({
            let total = (c.len() + varint_len(p.len() as u32)) as u32;
            let b = varint_encoding(total) + varint_encoding(p.len() as u32) + c + rest;
            read_frame_spec(b, true) == Ok::<(Seq<u8>, nat), FrameError>(
                (p, (varint_encoding(total).len() + varint_encoding(p.len() as u32).len() + c.len()) as nat),
            )
        }),
{
    let total = (c.len() + varint_len(p.len() as u32)) as u32;
    let n = p.len() as u32;
    let e1 = varint_encoding(total);
    let e2 = varint_encoding(n);
    let b = e1 + e2 + c + rest;
    assert(b =~= e1 + (e2 + c + rest));
    lemma_stream_varint(total, e2 + c + rest);
    assert(total as i32 == total);
    assert(b.skip(e1.len() as int) =~= e2 + (c + rest));
    lemma_stream_varint(n, c + rest);
    assert(n as i32 == n);
    assert(b.subrange((e1.len() + e2.len()) as int, (e1.len() + e2.len() + c.len()) as int) =~= c);
}

/// Writes a packet body in the packet format of the connection. Reading the
/// bytes back gives the body again, whenever the announced length and the
/// body fit the reader's limit.
pub fn write_frame(payload: &[u8], compressible: bool, threshold: i32) -> (res: Vec<u8>)
    requires
        payload@.len() < i32::MAX,
    ensures
        res@ == framed(payload@, compressible, threshold),
        frame_length(payload@, compressible, threshold) <= MAX_PACKET_SIZE && payload@.len()
            <= MAX_PACKET_SIZE && !(compressible && threshold == 0 && payload@.len() == 0)
            ==> forall|rest: Seq<u8>|
            read_frame_spec(#[trigger] (res@ + rest), compressible && threshold >= 0) == Ok::<
                (Seq<u8>, nat),
                FrameError,
            >((payload@, res@.len())),
{
    let mut out: Vec<u8> = Vec::new();
    let len = payload.len() as i32;
    if compressible && threshold >= 0 {
        if len >= threshold {
            // the packet is long enough to actually be compressed
            let c = zlib_compress(payload);
            let size = VarInt(len).size();
            let total = ((c.len() as u128) + (size as u128)) as u32;
            push_varint(&mut out, total as i32);
            push_varint(&mut out, len);
            push_all(&mut out, c.as_slice());
            proof {
                let p = payload@;
                assert(size as nat == varint_len(p.len() as u32));
                assert((total as i32) as u32 == total) by (bit_vector);
                assert(len as u32 == p.len() as u32);
                assert(out@ =~= framed(p, compressible, threshold));
                assert forall|rest: Seq<u8>|
                    frame_length(p, compressible, threshold) <= MAX_PACKET_SIZE && p.len()
                        <= MAX_PACKET_SIZE && p.len() > 0 implies read_frame_spec(
                    #[trigger] (out@ + rest),
                    true,
                ) == Ok::<(Seq<u8>, nat), FrameError>((p, out@.len())) by {
                    lemma_read_compressed(p, c@, rest);
                    assert(out@ + rest =~= varint_encoding(total) + varint_encoding(len as u32) + c@
                        + rest);
                }
            }
        } else {
            // the packet will not actually be compressed
            push_varint(&mut out, len + 1);
            push_varint(&mut out, 0);
            push_all(&mut out, payload);
            proof {
                let p = payload@;
                assert(varint_encoding(0u32) =~= seq![0u8]) by {
                    assert((0u32 & 0x7fu32) as u8 == 0u8) by (bit_vector);
                }
                assert(out@ =~= framed(p, compressible, threshold));
                assert forall|rest: Seq<u8>|
                    frame_length(p, compressible, threshold) <= MAX_PACKET_SIZE && p.len()
                        <= MAX_PACKET_SIZE implies read_frame_spec(
                    #[trigger] (out@ + rest),
                    true,
                ) == Ok::<(Seq<u8>, nat), FrameError>((p, out@.len())) by {
                    let b = out@ + rest;
                    let e1 = varint_encoding((len + 1) as u32);
                    assert(b =~= e1 + (seq![0u8] + (p + rest)));
                    lemma_stream_varint((len + 1) as u32, seq![0u8] + (p + rest));
                    assert(b.skip(e1.len() as int) =~= varint_encoding(0u32) + (p + rest));
                    lemma_stream_varint(0u32, p + rest);
                    assert(((len + 1) as u32) as i32 == len + 1);
                    assert(b.subrange((e1.len() + 1) as int, e1.len() + 1 + (len + 1) - 1) =~= p);
                }
            }
        }
    } else {
        // the uncompressed packet format
        push_varint(&mut out, len);
        push_all(&mut out, payload);
        proof {
            let p = payload@;
            assert(out@ =~= framed(p, compressible, threshold));
            assert forall|rest: Seq<u8>|
                frame_length(p, compressible, threshold) <= MAX_PACKET_SIZE && p.len()
                    <= MAX_PACKET_SIZE implies read_frame_spec(
                #[trigger] (out@ + rest),
                false,
            ) == Ok::<(Seq<u8>, nat), FrameError>((p, out@.len())) by {
                let b = out@ + rest;
                let e1 = varint_encoding(len as u32);
                assert(b =~= e1 + (p + rest));
                lemma_stream_varint(len as u32, p + rest);
                assert((len as u32) as i32 == len);
                assert(b.subrange(e1.len() as int, e1.len() + len) =~= p);
            }
        }
    }
    out
}

// Connection states //
///////////////////////

/// The state of a client connection.
#[derive(Clone, Copy, Debug, PartialEq, Eq, Structural)]
pub enum State {
    Handshake,
    Status,
    Login,
    /// with the entity id of the player
    Play(usize),
}

impl From<State> for i32 {
    fn from(state: State) -> (res: i32) {
        match state {
            State::Handshake => 0,
            State::Status => 1,
            State::Login => 2,
            State::Play(_) => 3,
        }
    }
}

impl vstd::std_specs::convert::FromSpecImpl<State> for i32 {
    open spec fn obeys_from_spec() -> bool {
        true
    }

    open spec fn from_spec(state: State) -> i32 {
        match state {
            State::Handshake => 0,
            State::Status => 1,
            State::Login => 2,
            State::Play(_) => 3,
        }
    }
}

/// The state that the handshake asks for.
#[derive(Clone, Copy, Debug, PartialEq, Eq, Structural)]
pub enum NextState {
    Status,
    Login,
}

/// The state that a handshake's `next_state` field asks for: 1 for status,
/// 2 for login; any other value is not a valid handshake.
pub fn next_state_from(value: i32) -> (res: Option<NextState>)
    ensures
        value == 1 ==> res == Some(NextState::Status),
        value == 2 ==> res == Some(NextState::Login),
        value != 1 && value != 2 ==> res is None,
{
    if value == 1 {
        Some(NextState::Status)
    } else if value == 2 {
        Some(NextState::Login)
    } else {
        None
    }
}

/// The state after a handshake.
pub fn after_handshake(next_state: NextState) -> (res: State)
    ensures
        next_state == NextState::Status ==> res == State::Status,
        next_state == NextState::Login ==> res == State::Login,
{
    match next_state {
        NextState::Status => State::Status,
        NextState::Login => State::Login,
    }
}

/// Whether the stream handler reads a packet in the compressed format: in the
/// play state, when a compression threshold is set.
pub fn reads_compressed(state: State, threshold: i32) -> (res: bool)
    ensures
        res == (threshold >= 0 && state is Play),
{
    threshold >= 0 && matches!(state, State::Play(_))
}

// Offline UUIDs //
///////////////////

/// The digest with the version set to 3 and the variant to IETF.
pub open spec fn uuid_bytes(d: Seq<u8>) -> Seq<u8> {
    d.update(6, (d[6] & 0x0f) | 0x30).update(8, (d[8] & 0x3f) | 0x80)
}

/// A big-endian `u128`.
pub open spec fn from_be128(b: Seq<u8>) -> u128 {
    ((from_be64(b) as u128) << 64u128) | (from_be64(b.skip(8)) as u128)
}

/// The version 3 UUID of a name: its MD5 digest with the version and variant bits set.
pub fn uuid_from_string(input: &str) -> (res: u128)
    ensures
        res == from_be128(uuid_bytes(md5_digest(input.spec_bytes()))),
        // version 3
        (res >> 76u128) & 0xfu128 == 3,
        // IETF variant
        (res >> 62u128) & 0x3u128 == 2,
{
    let bytes = input.as_bytes();
    let mut uuid = md5_compute(bytes);
    let d6 = uuid[6];
    let d8 = uuid[8];
    // version 3
    uuid[6] = (d6 & 0x0f) | 0x30;
    // IETF variant
    uuid[8] = (d8 & 0x3f) | 0x80;
    let ghost b = uuid@;
    assert(b =~= uuid_bytes(md5_digest(input.spec_bytes())));
    assert(((d6 & 0x0fu8) | 0x30u8) >> 4u8 == 3 && ((d8 & 0x3fu8) | 0x80u8) >> 6u8 == 2)
        by (bit_vector);
    let mut cursor = ByteCursor::new(&uuid);
    let res = <u128 as DataType>::deserialize(&mut cursor);
    let v = res.unwrap();
    proof {
        lemma_uuid_bits(b);
    }
    v
}

/// The version and variant bits land where UUIDs keep them.
proof fn lemma_uuid_bits(b: Seq<u8>)
    requires
        b.len() == 16,
        b[6] >> 4u8 == 3,
        b[8] >> 6u8 == 2,
    ensures
        (from_be128(b) >> 76u128) & 0xfu128 == 3,
        (from_be128(b) >> 62u128) & 0x3u128 == 2,
{
    let hi = from_be64(b);
    let lo = from_be64(b.skip(8));
    let (b6, b8) = (b[6], b[8]);
    assert(b.skip(8)[0] == b8);
    let (b0, b1, b2, b3, b4, b5, b7) = (b[0], b[1], b[2], b[3], b[4], b[5], b[7]);
    let (c1, c2, c3, c4, c5, c6, c7) = (b[9], b[10], b[11], b[12], b[13], b[14], b[15]);
    assert(hi == ((b0 as u64) << 56u64) | ((b1 as u64) << 48u64) | ((b2 as u64) << 40u64) | ((
    b3 as u64) << 32u64) | ((b4 as u64) << 24u64) | ((b5 as u64) << 16u64) | ((b6 as u64) << 8u64)
        | (b7 as u64));
    assert(lo == ((b8 as u64) << 56u64) | ((c1 as u64) << 48u64) | ((c2 as u64) << 40u64) | ((
    c3 as u64) << 32u64) | ((c4 as u64) << 24u64) | ((c5 as u64) << 16u64) | ((c6 as u64) << 8u64)
        | (c7 as u64));
    assert(((((hi as u128) << 64u128) | (lo as u128)) >> 76u128) & 0xfu128 == 3 && ((((
    hi as u128) << 64u128) | (lo as u128)) >> 62u128) & 0x3u128 == 2) by (bit_vector)
        requires
            hi == ((b0 as u64) << 56u64) | ((b1 as u64) << 48u64) | ((b2 as u64) << 40u64) | ((
            b3 as u64) << 32u64) | ((b4 as u64) << 24u64) | ((b5 as u64) << 16u64) | ((
            b6 as u64) << 8u64) | (b7 as u64),
            lo == ((b8 as u64) << 56u64) | ((c1 as u64) << 48u64) | ((c2 as u64) << 40u64) | ((
            c3 as u64) << 32u64) | ((c4 as u64) << 24u64) | ((c5 as u64) << 16u64) | ((
            c6 as u64) << 8u64) | (c7 as u64),
            b6 >> 4u8 == 3,
            b8 >> 6u8 == 2,
    ;
}

} // verus!
