//! The lobby world: a 128x128 block map that players with the permission can
//! edit, with water and lava that flow.
use crate::world::{
    WorldChunk, WorldChunkSection, Position, in_section, block_index, opt_section_view,
    opt_section_wf, get_section_block, set_block_in_section, opt_palette, palette_after,
};
use vstd::prelude::*;

verus! {

/// Half the length of a side of the lobby map, in chunks.
pub const LOBBY_MAP_SIZE: i8 = 4;

/// Number of chunks in the lobby map.
pub const MAP_CHUNKS: usize = 64;

/// Why a block could not be read or written.
#[derive(Debug, Clone, Copy, PartialEq, Eq, Structural)]
pub enum WorldError {
    /// Position out of bounds
    OutOfBounds,
    /// Block IDs can't be negative
    NegativeBlockId,
}

/// The blocks of the lobby and the liquids that still have to flow.
pub struct LobbyWorld {
    /// 8x8 chunks, resulting in a 128x128 world
    pub chunks: Vec<WorldChunk>,
    /// positions of blocks that are liquids and need to be updated every 5 ticks
    pub flowing_liquids: Vec<Position>,
}

pub open spec fn spec_chunk_index(x: int, z: int) -> int {
    (x + LOBBY_MAP_SIZE) + 2 * LOBBY_MAP_SIZE * (z + LOBBY_MAP_SIZE)
}

pub fn get_chunk_index(x: i8, z: i8) -> (res: usize)
    requires
        -LOBBY_MAP_SIZE <= x < LOBBY_MAP_SIZE,
        -LOBBY_MAP_SIZE <= z < LOBBY_MAP_SIZE,
    ensures
        res as int == spec_chunk_index(x as int, z as int),
        res < MAP_CHUNKS,
{
    (x + LOBBY_MAP_SIZE) as usize + 2 * LOBBY_MAP_SIZE as usize * (z + LOBBY_MAP_SIZE) as usize
}

/// Whether a block position lies in the lobby map.
pub open spec fn in_map(p: Position) -> bool {
    &&& 0 <= p.y < 256
    &&& -(LOBBY_MAP_SIZE as int) * 16 <= p.x < (LOBBY_MAP_SIZE as int) * 16
    &&& -(LOBBY_MAP_SIZE as int) * 16 <= p.z < (LOBBY_MAP_SIZE as int) * 16
}

/// The chunk section that holds a block, and the block's position inside it.
pub open spec fn section_of(p: Position) -> (int, int, Position) {
    (
        spec_chunk_index(p.x / 16, p.z / 16),
        p.y / 16,
        Position { x: (p.x % 16) as i32, y: (p.y % 16) as i32, z: (p.z % 16) as i32 },
    )
}

impl LobbyWorld {
    pub open spec fn wf(&self) -> bool {
        &&& self.chunks@.len() == MAP_CHUNKS
        &&& forall|c: int|
            0 <= c < MAP_CHUNKS ==> {
                &&& #[trigger] self.chunks@[c].sections@.len() == 16
                &&& forall|s: int|
                    0 <= s < 16 ==> opt_section_wf(#[trigger] self.chunks@[c].sections@[s])
            }
    }

    /// Chunk section `s` of chunk `c`.
    pub open spec fn section_at(&self, c: int, s: int) -> Option<WorldChunkSection> {
        self.chunks@[c].sections@[s]
    }

    /// The global block state at a position of the map.
    pub open spec fn block_at(&self, p: Position) -> i32 {
        let (c, s, local) = section_of(p);
        opt_section_view(self.chunks@[c].sections@[s])[block_index(local)]
    }
}

proof fn lemma_section_of(p: Position)
    requires
        in_map(p),
    ensures
        0 <= section_of(p).0 < MAP_CHUNKS,
        0 <= section_of(p).1 < 16,
        in_section(section_of(p).2),
        -LOBBY_MAP_SIZE <= p.x / 16 < LOBBY_MAP_SIZE,
        -LOBBY_MAP_SIZE <= p.z / 16 < LOBBY_MAP_SIZE,
{
}

/// Two positions in the map share a block of the stored sections only if they are equal.
proof fn lemma_section_of_injective(p: Position, q: Position)
    requires
        in_map(p),
        in_map(q),
        section_of(p).0 == section_of(q).0,
        section_of(p).1 == section_of(q).1,
        block_index(section_of(p).2) == block_index(section_of(q).2),
    ensures
        p == q,
{
    assert(p.x / 16 == q.x / 16 && p.z / 16 == q.z / 16);
}

impl LobbyWorld {
    /// The chunk section and block index of an in-bounds position, as the
    /// original computes them: rounding chunks towards negative infinity.
    #[verifier::rlimit(60)]
    fn locate(position: Position) -> (res: (usize, usize, Position))
        requires
            in_map(position),
        ensures
            res.0 as int == section_of(position).0,
            res.1 as int == section_of(position).1,
            res.2 == section_of(position).2,
    {
        let mut block_chunk = position;
        if position.x < 0 {
            block_chunk.x = block_chunk.x - 15;
        }
        if position.z < 0 {
            block_chunk.z = block_chunk.z - 15;
        }
        block_chunk.x = block_chunk.x / 16;
        block_chunk.y = block_chunk.y / 16;
        block_chunk.z = block_chunk.z / 16;
        // block position relative to the chunk
        let iblock = Position {
            x: ((position.x % 16) + 16) % 16,
            y: ((position.y % 16) + 16) % 16,
            z: ((position.z % 16) + 16) % 16,
        };
        proof {
            lemma_section_of(position);
        }
        let c = get_chunk_index(block_chunk.x as i8, block_chunk.z as i8);
        (c, block_chunk.y as usize, iblock)
    }

    // takes a global position and returns a global block state
    pub fn get_block(&self, position: Position) -> (res: Result<i32, WorldError>)
        requires
            self.wf(),
        ensures
            !in_map(position) ==> res == Err::<i32, WorldError>(WorldError::OutOfBounds),
            in_map(position) ==> res == Ok::<i32, WorldError>(self.block_at(position)),
    {
        // sanity checks
        if !(0 <= position.y && position.y < 256) || !(-(LOBBY_MAP_SIZE as i32) * 16 <= position.x
            && position.x < LOBBY_MAP_SIZE as i32 * 16) || !(-(LOBBY_MAP_SIZE as i32) * 16
            <= position.z && position.z < LOBBY_MAP_SIZE as i32 * 16) {
            return Err(WorldError::OutOfBounds);
        }
        let (c, s, iblock) = Self::locate(position);
        assert(self.chunks@[c as int].sections@.len() == 16);
        assert(opt_section_wf(self.chunks@[c as int].sections@[s as int]));
        match &self.chunks[c].sections[s] {
            Some(section) => {
                let local = get_section_block(section, iblock);
                Ok(section.block_mappings[local as usize])
            },
            None => Ok(0),
        }
    }
}


impl LobbyWorld {
    /// Sets the global block state at a position. Returns whether the block
    /// changed, in which case the players who have its chunk loaded are to be told.
    pub fn set_block(&mut self, position: Position, glob_block: i32) -> (res: Result<bool, WorldError>)
        requires
            old(self).wf(),
        ensures
            final(self).wf(),
            final(self).flowing_liquids == old(self).flowing_liquids,
            !in_map(position) ==> res == Err::<bool, WorldError>(WorldError::OutOfBounds)
                && final(self).chunks == old(self).chunks,
            in_map(position) && glob_block < 0 ==> res == Err::<bool, WorldError>(
                WorldError::NegativeBlockId,
            ) && final(self).chunks == old(self).chunks,
            in_map(position) && glob_block >= 0 ==> {
                &&& res == Ok::<bool, WorldError>(old(self).block_at(position) != glob_block)
                &&& final(self).block_at(position) == glob_block
                &&& forall|q: Position|
                    in_map(q) && q != position ==> #[trigger] final(self).block_at(q) == old(
                        self,
                    ).block_at(q)
                &&& ({
                    let (c, s, local) = section_of(position);
                    &&& opt_palette(final(self).section_at(c, s)) == palette_after(
                        old(self).section_at(c, s),
                        block_index(local),
                        glob_block,
                    )
                    &&& forall|cc: int, ss: int|
                        0 <= cc < MAP_CHUNKS && 0 <= ss < 16 && (cc != c || ss != s) ==> (
                        #[trigger] final(self).section_at(cc, ss)) == old(self).section_at(cc, ss)
                })
            },
    {
        // sanity checks
        if !(0 <= position.y && position.y < 256) || !(-(LOBBY_MAP_SIZE as i32) * 16 <= position.x
            && position.x < LOBBY_MAP_SIZE as i32 * 16) || !(-(LOBBY_MAP_SIZE as i32) * 16
            <= position.z && position.z < LOBBY_MAP_SIZE as i32 * 16) {
            return Err(WorldError::OutOfBounds);
        }
        if glob_block < 0 {
            return Err(WorldError::NegativeBlockId);
        }
        let (c, s, iblock) = Self::locate(position);
        assert(self.chunks@[c as int].sections@.len() == 16);
        assert(opt_section_wf(self.chunks@[c as int].sections@[s as int]));
        let chunk = &mut self.chunks[c];
        let changed = set_block_in_section(&mut chunk.sections[s], iblock, glob_block);
        proof {
            let old_chunks = old(self).chunks@;
            assert(self.chunks@ == old_chunks.update(c as int, self.chunks@[c as int]));
            assert(self.chunks@[c as int].sections@ == old_chunks[c as int].sections@.update(
                s as int,
                self.chunks@[c as int].sections@[s as int],
            ));
            assert forall|q: Position| in_map(q) && q != position implies #[trigger] self.block_at(q)
                == old(self).block_at(q) by {
                lemma_section_of(q);
                if section_of(q).0 == c as int && section_of(q).1 == s as int && block_index(
                    section_of(q).2,
                ) == block_index(iblock) {
                    lemma_section_of_injective(q, position);
                }
            }
            assert forall|cc: int| 0 <= cc < MAP_CHUNKS implies {
                &&& #[trigger] self.chunks@[cc].sections@.len() == 16
                &&& forall|ss: int|
                    0 <= ss < 16 ==> opt_section_wf(#[trigger] self.chunks@[cc].sections@[ss])
            } by {
                assert(old_chunks[cc].sections@.len() == 16);
            }
        }
        Ok(changed)
    }
}

impl LobbyWorld {
    /// The map when no saved one can be loaded: all air, every biome 174.
    pub fn new_empty() -> (res: Self)
        ensures
            res.wf(),
            res.flowing_liquids@.len() == 0,
            forall|p: Position| in_map(p) ==> #[trigger] res.block_at(p) == 0,
    {
        let mut chunks: Vec<WorldChunk> = Vec::new();
        let mut c: usize = 0;
        while c < MAP_CHUNKS
            invariant
                c <= MAP_CHUNKS,
                chunks@.len() == c,
                forall|j: int|
                    0 <= j < c ==> {
                        &&& #[trigger] chunks@[j].sections@.len() == 16
                        &&& forall|s: int| 0 <= s < 16 ==> (#[trigger] chunks@[j].sections@[s]) is None
                    },
            decreases MAP_CHUNKS - c,
        {
            let mut biomes: Vec<i32> = Vec::new();
            let mut b: usize = 0;
            while b < 1024
                invariant
                    b <= 1024,
                    biomes@.len() == b,
                decreases 1024 - b,
            {
                biomes.push(174);
                b = b + 1;
            }
            let mut sections: Vec<Option<WorldChunkSection>> = Vec::new();
            let mut s: usize = 0;
            while s < 16
                invariant
                    s <= 16,
                    sections@.len() == s,
                    forall|k: int| 0 <= k < s ==> (#[trigger] sections@[k]) is None,
                decreases 16 - s,
            {
                sections.push(None);
                s = s + 1;
            }
            chunks.push(WorldChunk { biomes, sections });
            c = c + 1;
        }
        let res = LobbyWorld { chunks, flowing_liquids: Vec::new() };
        assert forall|cc: int| 0 <= cc < MAP_CHUNKS implies {
            &&& #[trigger] res.chunks@[cc].sections@.len() == 16
            &&& forall|ss: int|
                0 <= ss < 16 ==> opt_section_wf(#[trigger] res.chunks@[cc].sections@[ss])
        } by {
            assert(res.chunks@[cc].sections@.len() == 16);
            assert forall|ss: int| 0 <= ss < 16 implies opt_section_wf(
                #[trigger] res.chunks@[cc].sections@[ss],
            ) by {
                assert(res.chunks@[cc].sections@[ss] is None);
            }
        }
        assert forall|p: Position| in_map(p) implies #[trigger] res.block_at(p) == 0 by {
            lemma_section_of(p);
            let (c, s, local) = section_of(p);
            assert(res.chunks@[c].sections@.len() == 16);
            assert(res.chunks@[c].sections@[s] is None);
            assert(0 <= block_index(local) < 4096);
        }
        res
    }
}

} // verus!
