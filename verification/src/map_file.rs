//! The saved lobby map: a header of the format version and the number of
//! chunks, both big-endian `u32`, before the archived chunks.
use crate::datatypes::{be32, from_be32};
use crate::world::WorldChunk;
use vstd::prelude::*;

verus! {

/// The version of the map format.
pub const VERSION: u32 = 1;

/// A saved map: its chunks and any extra named data.
pub struct MapFile {
    pub chunks: Vec<WorldChunk>,
    pub extra: Vec<(String, Vec<u8>)>,
}

/// Why a saved map cannot be loaded.
#[derive(Clone, Copy, Debug, PartialEq, Eq, Structural)]
pub enum MapError {
    /// the file ends within the header
    Truncated,
    /// Format version not compatible
    IncompatibleVersion,
    /// Not compatible map size: the map has this many chunks
    WrongSize(u32),
}

/// What the header of a saved map says, for a map of `chunks` chunks.
pub open spec fn header_check(b: Seq<u8>, chunks: u32) -> Result<(), MapError> {
    if b.len() < 4 {
        Err(MapError::Truncated)
    } else if from_be32(b) != VERSION {
        Err(MapError::IncompatibleVersion)
    } else if b.len() < 8 {
        Err(MapError::Truncated)
    } else if from_be32(b.skip(4)) != chunks {
        Err(MapError::WrongSize(from_be32(b.skip(4))))
    } else {
        Ok(())
    }
}

fn be_u32_at(b: &[u8], i: usize) -> (res: u32)
    requires
        i + 4 <= b@.len(),
    ensures
        res == from_be32(b@.skip(i as int)),
{
    ((b[i] as u32) << 24) | ((b[i + 1] as u32) << 16) | ((b[i + 2] as u32) << 8) | (b[i + 3] as u32)
}

/// Checks the header of a saved map of `chunks` chunks; the archive follows
/// its 8 bytes.
pub fn check_header(bytes: &[u8], chunks: u32) -> (res: Result<(), MapError>)
    ensures
        res == header_check(bytes@, chunks),
{
    if bytes.len() < 4 {
        return Err(MapError::Truncated);
    }
    let version = be_u32_at(bytes, 0);
    assert(bytes@.skip(0) =~= bytes@);
    if version != VERSION {
        return Err(MapError::IncompatibleVersion);
    }
    if bytes.len() < 8 {
        return Err(MapError::Truncated);
    }
    let count = be_u32_at(bytes, 4);
    if count != chunks {
        return Err(MapError::WrongSize(count));
    }
    Ok(())
}

/// The header that a map of `chunks` chunks is saved with.
pub fn header(chunks: u32) -> (res: Vec<u8>)
    ensures
        res@ == be32(VERSION) + be32(chunks),
        forall|rest: Seq<u8>| #[trigger] header_check(res@ + rest, chunks) == Ok::<(), MapError>(()),
{
    let mut out: Vec<u8> = Vec::new();
    let v = VERSION;
    out.push((v >> 24) as u8);
    out.push((v >> 16) as u8);
    out.push((v >> 8) as u8);
    out.push(v as u8);
    out.push((chunks >> 24) as u8);
    out.push((chunks >> 16) as u8);
    out.push((chunks >> 8) as u8);
    out.push(chunks as u8);
    assert(out@ =~= be32(VERSION) + be32(chunks));
    proof {
        assert forall|rest: Seq<u8>| #[trigger] header_check(out@ + rest, chunks) == Ok::<(), MapError>(()) by {
            crate::datatypes::lemma_be32(VERSION, be32(chunks) + rest);
            crate::datatypes::lemma_be32(chunks, rest);
            assert(out@ + rest =~= be32(VERSION) + (be32(chunks) + rest));
            assert((out@ + rest).skip(4) =~= be32(chunks) + rest);
        }
    }
    out
}

} // verus!
