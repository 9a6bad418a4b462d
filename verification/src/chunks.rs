//! Which chunks of the lobby a player is sent, and what a chunk is sent as:
//! its sections with their palette, or with global block states when the
//! palette is too large for the client.
use crate::world::{WorldChunkSection, bits_per_block, spec_bits_per_block, get_section_block, Position, block_index, in_section};
use crate::lobby::{LobbyWorld, LOBBY_MAP_SIZE, get_chunk_index, spec_chunk_index, MAP_CHUNKS};
use vstd::prelude::*;

verus! {

/// The palette of a section as sent.
#[derive(Clone, Debug)]
pub enum SectionPalette {
    /// the section's own palette
    Indirect(Vec<i32>),
    /// global block states, 15 bits each
    Direct,
}

/// A chunk section as sent to clients.
#[derive(Clone, Debug)]
pub struct SectionData {
    pub block_count: i16,
    pub palette: SectionPalette,
    pub data: Vec<u64>,
}

/// A chunk as sent to clients: which sections it has, its biomes and its sections.
#[derive(Clone, Debug)]
pub struct ChunkData {
    pub primary_bitmask: i32,
    pub biomes: Vec<i32>,
    pub sections: Vec<SectionData>,
}

/// Global block states packed four to a word, 15 bits each, lowest first.
pub open spec fn direct_word(states: Seq<i32>, k: int) -> u64 {
    ((states[4 * k] as u64) | ((states[4 * k + 1] as u64) << 15u64) | ((states[4 * k + 2] as u64)
        << 30u64) | ((states[4 * k + 3] as u64) << 45u64)) as u64
}

/// The section's global block states in the direct format: 1024 words.
pub open spec fn direct_data(states: Seq<i32>) -> Seq<u64> {
    Seq::new(1024, |k: int| direct_word(states, k))
}

/// How a section is sent: its palette and packed indices when the palette needs
/// at most 8 bits per block, else the global states.
pub open spec fn section_sent(s: WorldChunkSection, d: SectionData) -> bool {
    &&& d.block_count == 4096
    &&& if spec_bits_per_block(s.block_mappings@.len()) > 8 {
        d.palette is Direct && d.data@ == direct_data(s.view())
    } else {
        d.palette matches SectionPalette::Indirect(p) && p@ == s.block_mappings@ && d.data@
            == s.blocks@
    }
}

fn direct_section(section: &WorldChunkSection) -> (res: Vec<u64>)
    requires
        section.wf(),
    ensures
        res@ == direct_data(section.view()),
{
    let mut data: Vec<u64> = Vec::new();
    let mut k: usize = 0;
    while k < 1024
        invariant
            section.wf(),
            k <= 1024,
            data@.len() == k,
            forall|j: int| 0 <= j < k ==> data@[j] == direct_word(section.view(), j),
        decreases 1024 - k,
    {
        let a = global_at(section, 4 * k);
        let b = global_at(section, 4 * k + 1);
        let c = global_at(section, 4 * k + 2);
        let d = global_at(section, 4 * k + 3);
        let w = (a as u64) | ((b as u64) << 15u64) | ((c as u64) << 30u64) | ((d as u64) << 45u64);
        data.push(w);
        k = k + 1;
    }
    assert(data@ =~= direct_data(section.view()));
    data
}

/// The global block state of block `i` of a section.
fn global_at(section: &WorldChunkSection, i: usize) -> (res: i32)
    requires
        section.wf(),
        i < 4096,
    ensures
        res == section.view()[i as int],
{
    let p = Position { x: (i % 16) as i32, y: (i / 256) as i32, z: ((i / 16) % 16) as i32 };
    assert(block_index(p) == i as int && in_section(p)) by (nonlinear_arith)
        requires
            p.x == i % 16,
            p.y == i / 256,
            p.z == (i / 16) % 16,
            i < 4096,
    ;
    let local = get_section_block(section, p);
    section.block_mappings[local as usize]
}

fn section_data(section: &WorldChunkSection) -> (res: SectionData)
    requires
        section.wf(),
    ensures
        section_sent(*section, res),
{
    if bits_per_block(section.block_mappings.len()) > 8 {
        // clients don't accept palettes with more than 256 blocks: the global palette is used
        SectionData { block_count: 4096, palette: SectionPalette::Direct, data: direct_section(section) }
    } else {
        SectionData {
            block_count: 4096,
            palette: SectionPalette::Indirect(section.block_mappings.clone()),
            data: section.blocks.clone(),
        }
    }
}

/// The bits of the sections that a chunk has, among its first `n`.
pub open spec fn bitmask_upto(sections: Seq<Option<WorldChunkSection>>, n: int) -> int
    decreases n,
{
    if n <= 0 {
        0
    } else {
        bitmask_upto(sections, n - 1) + if sections[n - 1] is Some {
            vstd::arithmetic::power2::pow2((n - 1) as nat) as int
        } else {
            0
        }
    }
}

/// The sections that a chunk has, among its first `n`, in order.
pub open spec fn present_upto(sections: Seq<Option<WorldChunkSection>>, n: int) -> Seq<WorldChunkSection>
    decreases n,
{
    if n <= 0 {
        Seq::empty()
    } else if sections[n - 1] is Some {
        present_upto(sections, n - 1).push(sections[n - 1].unwrap())
    } else {
        present_upto(sections, n - 1)
    }
}

impl LobbyWorld {
    /// What a chunk is sent as: inside the map its sections and biomes, outside
    /// an empty chunk of biome 174.
    pub fn chunk_data(&self, chunk_x: i8, chunk_z: i8) -> (res: ChunkData)
        requires
            self.wf(),
        ensures
            ({
                let inside = -LOBBY_MAP_SIZE <= chunk_x < LOBBY_MAP_SIZE && -LOBBY_MAP_SIZE
                    <= chunk_z < LOBBY_MAP_SIZE;
                if inside {
                    let c = self.chunks@[spec_chunk_index(chunk_x as int, chunk_z as int)];
                    let present = present_upto(c.sections@, 16);
                    &&& res.primary_bitmask == bitmask_upto(c.sections@, 16)
                    &&& res.biomes@ == c.biomes@
                    &&& res.sections@.len() == present.len()
                    &&& forall|k: int|
                        0 <= k < present.len() ==> section_sent(present[k], #[trigger] res.sections@[k])
                } else {
                    &&& res.primary_bitmask == 0
                    &&& res.biomes@ == Seq::new(1024, |i: int| 174i32)
                    &&& res.sections@.len() == 0
                }
            }),
    {
        if -LOBBY_MAP_SIZE <= chunk_x && chunk_x < LOBBY_MAP_SIZE && -LOBBY_MAP_SIZE <= chunk_z
            && chunk_z < LOBBY_MAP_SIZE {
            let index = get_chunk_index(chunk_x, chunk_z);
            let chunk = &self.chunks[index];
            assert(chunk.sections@.len() == 16);
            let mut primary_bitmask: i32 = 0;
            let mut sections: Vec<SectionData> = Vec::new();
            let mut i: usize = 0;
            proof {
                vstd::arithmetic::power2::lemma2_to64();
            }
            while i < 16
                invariant
                    self.wf(),
                    index < MAP_CHUNKS,
                    *chunk == self.chunks@[index as int],
                    chunk.sections@.len() == 16,
                    i <= 16,
                    primary_bitmask == bitmask_upto(chunk.sections@, i as int),
                    0 <= primary_bitmask < vstd::arithmetic::power2::pow2(i as nat),
                    sections@.len() == present_upto(chunk.sections@, i as int).len(),
                    forall|k: int|
                        0 <= k < sections@.len() ==> section_sent(
                            present_upto(chunk.sections@, i as int)[k],
                            #[trigger] sections@[k],
                        ),
                decreases 16 - i,
            {
                proof {
                    vstd::arithmetic::power2::lemma2_to64();
                    vstd::arithmetic::power2::lemma_pow2_adds(i as nat, 1);
                }
                assert(crate::world::opt_section_wf(chunk.sections@[i as int]));
                match &chunk.sections[i] {
                    Some(section) => {
                        let bit = pow2_i32(i);
                        primary_bitmask = primary_bitmask + bit;
                        sections.push(section_data(section));
                    },
                    None => {},
                }
                i = i + 1;
            }
            let mut biomes: Vec<i32> = Vec::new();
            let mut b: usize = 0;
            while b < chunk.biomes.len()
                invariant
                    b <= chunk.biomes@.len(),
                    biomes@ == chunk.biomes@.take(b as int),
                decreases chunk.biomes@.len() - b,
            {
                biomes.push(chunk.biomes[b]);
                b = b + 1;
                assert(biomes@ =~= chunk.biomes@.take(b as int));
            }
            assert(chunk.biomes@.take(chunk.biomes@.len() as int) =~= chunk.biomes@);
            ChunkData { primary_bitmask, biomes, sections }
        } else {
            // just an empty chunk
            let mut biomes: Vec<i32> = Vec::new();
            let mut b: usize = 0;
            while b < 1024
                invariant
                    b <= 1024,
                    biomes@ == Seq::new(b as nat, |i: int| 174i32),
                decreases 1024 - b,
            {
                biomes.push(174);
                b = b + 1;
                assert(biomes@ =~= Seq::new(b as nat, |i: int| 174i32));
            }
            ChunkData { primary_bitmask: 0, biomes, sections: Vec::new() }
        }
    }
}

fn pow2_i32(i: usize) -> (res: i32)
    requires
        i < 16,
    ensures
        res == vstd::arithmetic::power2::pow2(i as nat),
{
    proof {
        vstd::arithmetic::power2::lemma2_to64();
    }
    let mut r: i32 = 1;
    let mut k: usize = 0;
    while k < i
        invariant
            k <= i < 16,
            r == vstd::arithmetic::power2::pow2(k as nat),
        decreases i - k,
    {
        proof {
            vstd::arithmetic::power2::lemma_pow2_adds(k as nat, 1);
            vstd::arithmetic::power2::lemma2_to64();
        }
        r = r * 2;
        k = k + 1;
    }
    r
}

/// How far around the player chunks are sent: the client's view distance
/// plus 2, at most 16.
pub open spec fn send_distance(view_distance: i8) -> int {
    if view_distance + 2 < 16 {
        view_distance + 2
    } else {
        16
    }
}

/// The `i`-th chunk around the player, row by row (z outer, x inner).
pub open spec fn around(player_chunk: (i8, i8), d: int, i: int) -> (i8, i8) {
    let side = 2 * d;
    ((player_chunk.0 + (-d + i % side)) as i8, (player_chunk.1 + (-d + i / side)) as i8)
}

/// Whether a chunk is sent: not loaded yet, and in the map or the ring of
/// empty chunks around it, which the client needs to render the map's edge.
pub open spec fn wanted(c: (i8, i8), loaded: Seq<(i8, i8)>) -> bool {
    &&& !loaded.contains(c)
    &&& -(LOBBY_MAP_SIZE + 1) <= c.0 < LOBBY_MAP_SIZE + 1
    &&& -(LOBBY_MAP_SIZE + 1) <= c.1 < LOBBY_MAP_SIZE + 1
}

/// The chunks to send among the first `n` around the player, in order.
pub open spec fn needed_upto(player_chunk: (i8, i8), d: int, loaded: Seq<(i8, i8)>, n: int) -> Seq<
    (i8, i8),
>
    decreases n,
{
    if n <= 0 {
        Seq::empty()
    } else {
        let rest = needed_upto(player_chunk, d, loaded, n - 1);
        let c = around(player_chunk, d, n - 1);
        if wanted(c, loaded) {
            rest.push(c)
        } else {
            rest
        }
    }
}

/// The chunks to send: those around the player within the send distance.
pub open spec fn needed_chunks(player_chunk: (i8, i8), view_distance: i8, loaded: Seq<(i8, i8)>) -> Seq<
    (i8, i8),
> {
    let d = send_distance(view_distance);
    if d > 0 {
        needed_upto(player_chunk, d, loaded, 4 * d * d)
    } else {
        Seq::empty()
    }
}

/// Whether a loaded chunk stays loaded: it is within the client's view distance.
pub open spec fn stays(c: (i8, i8), player_chunk: (i8, i8), view_distance: i8) -> bool {
    -view_distance <= c.0 - player_chunk.0 < view_distance && -view_distance <= c.1
        - player_chunk.1 < view_distance
}

pub open spec fn kept_upto(
    loaded: Seq<(i8, i8)>,
    player_chunk: (i8, i8),
    view_distance: i8,
    n: int,
) -> Seq<(i8, i8)>
    decreases n,
{
    if n <= 0 {
        Seq::empty()
    } else if stays(loaded[n - 1], player_chunk, view_distance) {
        kept_upto(loaded, player_chunk, view_distance, n - 1).push(loaded[n - 1])
    } else {
        kept_upto(loaded, player_chunk, view_distance, n - 1)
    }
}

/// Of the chunks a player had loaded, exactly those within its view distance
/// of its chunk, on both axes, stay loaded: every kept chunk lies within
/// `-vd <= dx < vd` and `-vd <= dz < vd`, and every loaded chunk within that
/// square is kept. (`chunks_to_send` leaves the kept ones, then the newly sent
/// ones, in the player's loaded chunks.)
pub proof fn lemma_kept_within_view(
    loaded: Seq<(i8, i8)>,
    player_chunk: (i8, i8),
    view_distance: i8,
    n: int,
)
    requires
        0 <= n <= loaded.len(),
    ensures
        kept_upto(loaded, player_chunk, view_distance, n).len() <= n,
        forall|k: int|
            0 <= k < kept_upto(loaded, player_chunk, view_distance, n).len() ==> {
                let c = #[trigger] kept_upto(loaded, player_chunk, view_distance, n)[k];
                &&& -view_distance <= c.0 - player_chunk.0 < view_distance
                &&& -view_distance <= c.1 - player_chunk.1 < view_distance
            },
        forall|i: int|
            0 <= i < n && -view_distance <= (#[trigger] loaded[i]).0 - player_chunk.0
                < view_distance && -view_distance <= loaded[i].1 - player_chunk.1 < view_distance
                ==> kept_upto(loaded, player_chunk, view_distance, n).contains(loaded[i]),
    decreases n,
{
    if n > 0 {
        lemma_kept_within_view(loaded, player_chunk, view_distance, n - 1);
        let prev = kept_upto(loaded, player_chunk, view_distance, n - 1);
        let cur = kept_upto(loaded, player_chunk, view_distance, n);
        assert forall|i: int|
            0 <= i < n && -view_distance <= (#[trigger] loaded[i]).0 - player_chunk.0
                < view_distance && -view_distance <= loaded[i].1 - player_chunk.1 < view_distance
                implies cur.contains(loaded[i]) by {
            if i < n - 1 {
                let k = choose|k: int| 0 <= k < prev.len() && prev[k] == loaded[i];
                assert(cur[k] == loaded[i]);
            } else {
                assert(cur[cur.len() - 1] == loaded[i]);
            }
        }
    }
}

fn contains_chunk(v: &Vec<(i8, i8)>, c: (i8, i8)) -> (res: bool)
    ensures
        res == v@.contains(c),
{
    let mut i: usize = 0;
    while i < v.len()
        invariant
            i <= v@.len(),
            forall|j: int| 0 <= j < i ==> v@[j] != c,
        decreases v@.len() - i,
    {
        if v[i].0 == c.0 && v[i].1 == c.1 {
            assert(v@[i as int] == c);
            return true;
        }
        i = i + 1;
    }
    false
}

/// The chunks a player is sent after moving to `player_chunk`: those around
/// it not sent yet. The player's loaded chunks keep those within its view
/// distance, and gain the ones sent.
pub fn chunks_to_send(player_chunk: (i8, i8), view_distance: i8, loaded: &mut Vec<(i8, i8)>) -> (needed:
    Vec<(i8, i8)>)
    requires
        -128 < view_distance <= 125,
        send_distance(view_distance) > 0 ==> {
            &&& -128 <= player_chunk.0 - send_distance(view_distance)
            &&& player_chunk.0 + send_distance(view_distance) <= 128
            &&& -128 <= player_chunk.1 - send_distance(view_distance)
            &&& player_chunk.1 + send_distance(view_distance) <= 128
        },
        forall|k: int|
            0 <= k < old(loaded)@.len() ==> {
                &&& -128 <= (#[trigger] old(loaded)@[k]).0 - player_chunk.0 <= 127
                &&& -128 <= old(loaded)@[k].1 - player_chunk.1 <= 127
            },
    ensures
        needed@ == needed_chunks(player_chunk, view_distance, old(loaded)@),
        final(loaded)@ == kept_upto(
            old(loaded)@,
            player_chunk,
            view_distance,
            old(loaded)@.len() as int,
        ) + needed@,
{
    // the limit is 16
    let cvd: i8 = if view_distance + 2 < 16 {
        view_distance + 2
    } else {
        16
    };
    let mut needed: Vec<(i8, i8)> = Vec::new();
    if cvd > 0 {
        let side: usize = 2 * (cvd as usize);
        assert(side * side <= 1024 && side * side == 4 * cvd * cvd) by (nonlinear_arith)
            requires
                side == 2 * cvd,
                0 < cvd <= 16,
        ;
        let total: usize = side * side;
        let mut i: usize = 0;
        while i < total
            invariant
                0 < cvd <= 16,
                cvd == send_distance(view_distance),
                side == 2 * cvd,
                total == side * side,
                i <= total,
                -128 <= player_chunk.0 - cvd,
                player_chunk.0 + cvd <= 128,
                -128 <= player_chunk.1 - cvd,
                player_chunk.1 + cvd <= 128,
                needed@ == needed_upto(player_chunk, cvd as int, old(loaded)@, i as int),
                *loaded == *old(loaded),
            decreases total - i,
        {
            assert(i / side < side) by (nonlinear_arith)
                requires
                    i < total,
                    total == side * side,
                    side > 0,
            ;
            let x = (i % side) as i8 - cvd;
            let z = (i / side) as i8 - cvd;
            let c = (player_chunk.0 + x, player_chunk.1 + z);
            assert(c == around(player_chunk, cvd as int, i as int));
            // only if it's not already sent, and not outside of the map
            if !contains_chunk(loaded, c) && -(LOBBY_MAP_SIZE + 1) <= c.0 && c.0 < LOBBY_MAP_SIZE
                + 1 && -(LOBBY_MAP_SIZE + 1) <= c.1 && c.1 < LOBBY_MAP_SIZE + 1 {
                needed.push(c);
            }
            i = i + 1;
        }
    }
    // retain only the loaded chunks in the view distance of the client
    let mut kept: Vec<(i8, i8)> = Vec::new();
    let mut k: usize = 0;
    while k < loaded.len()
        invariant
            k <= loaded@.len(),
            *loaded == *old(loaded),
            -128 < view_distance,
            forall|j: int|
                0 <= j < old(loaded)@.len() ==> {
                    &&& -128 <= (#[trigger] old(loaded)@[j]).0 - player_chunk.0 <= 127
                    &&& -128 <= old(loaded)@[j].1 - player_chunk.1 <= 127
                },
            kept@ == kept_upto(old(loaded)@, player_chunk, view_distance, k as int),
        decreases loaded@.len() - k,
    {
        let c = loaded[k];
        let dx = c.0 - player_chunk.0;
        let dz = c.1 - player_chunk.1;
        if -view_distance <= dx && dx < view_distance && -view_distance <= dz && dz < view_distance {
            kept.push(c);
        }
        k = k + 1;
    }
    // and then add those that are going to be sent
    let mut j: usize = 0;
    let ghost base = kept@;
    while j < needed.len()
        invariant
            j <= needed@.len(),
            kept@ == base + needed@.take(j as int),
        decreases needed@.len() - j,
    {
        kept.push(needed[j]);
        j = j + 1;
        assert(kept@ =~= base + needed@.take(j as int));
    }
    assert(needed@.take(needed@.len() as int) =~= needed@);
    *loaded = kept;
    needed
}

/// A coordinate divided by 16, rounded toward zero, as `/` on an `i32` does.
pub open spec fn div16_toward_zero(x: i32) -> int {
    if x >= 0 {
        x / 16
    } else {
        -((-x) / 16)
    }
}

/// The chunk that a block change is reported for: its coordinates divided
/// by 16 toward zero, as `i8`.
pub open spec fn change_chunk(p: Position) -> (i8, i8) {
    (div16_toward_zero(p.x) as i8, div16_toward_zero(p.z) as i8)
}

/// The players (by their position in the list of their loaded chunks) who
/// have the chunk loaded, in order.
pub open spec fn recipients(loaded: Seq<Vec<(i8, i8)>>, c: (i8, i8)) -> Seq<usize>
    decreases loaded.len(),
{
    if loaded.len() == 0 {
        Seq::empty()
    } else {
        let rest = recipients(loaded.drop_last(), c);
        if loaded.last()@.contains(c) {
            rest.push((loaded.len() - 1) as usize)
        } else {
            rest
        }
    }
}

/// The players who are sent a block change: those who have its chunk
/// loaded. `loaded` holds the loaded chunks of each player.
pub fn block_change_recipients(loaded: &Vec<Vec<(i8, i8)>>, position: Position) -> (res: Vec<usize>)
    ensures
        res@ == recipients(loaded@, change_chunk(position)),
{
    let cx: i32 = if position.x >= 0 {
        position.x / 16
    } else {
        -((-(position.x as i64)) / 16) as i32
    };
    let cz: i32 = if position.z >= 0 {
        position.z / 16
    } else {
        -((-(position.z as i64)) / 16) as i32
    };
    let c = (cx as i8, cz as i8);
    assert(c == change_chunk(position));
    let mut res: Vec<usize> = Vec::new();
    let mut i: usize = 0;
    while i < loaded.len()
        invariant
            i <= loaded@.len(),
            res@ == recipients(loaded@.take(i as int), c),
        decreases loaded@.len() - i,
    {
        assert(loaded@.take(i + 1).drop_last() =~= loaded@.take(i as int));
        if contains_chunk(&loaded[i], c) {
            res.push(i);
        }
        i = i + 1;
    }
    assert(loaded@.take(loaded@.len() as int) =~= loaded@);
    res
}

} // verus!
