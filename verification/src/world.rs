//! Storage of the world: chunks of 16 sections of 16x16x16 blocks, each
//! section a palette of global block states and densely packed indices into it.
use vstd::prelude::*;
use vstd::std_specs::bits::u32_leading_zeros;
use vstd::std_specs::bits::axiom_u32_leading_zeros;

verus! {

/// Half the length of a side of the map, in chunks (8 means 16x16 chunks).
pub const MAP_SIZE: i8 = 8;

/// A block position, in the world or relative to a chunk section.
#[derive(Clone, Copy, Debug, PartialEq, Eq, Structural)]
pub struct Position {
    pub x: i32,
    pub y: i32,
    pub z: i32,
}

#[derive(Debug, Clone)]
pub struct WorldChunk {
    /// 1024 biome ids
    pub biomes: Vec<i32>,
    /// 16 sections, from the bottom up; `None` is all air
    pub sections: Vec<Option<WorldChunkSection>>,
}

#[derive(Debug, Clone)]
pub struct WorldChunkSection {
    /// local palette: local block index -> global block state
    pub block_mappings: Vec<i32>,
    /// local block indices, packed `64 / bits_per_block` to a word, lowest bits first
    pub blocks: Vec<u64>,
}

/// Number of blocks in a chunk section.
pub const SECTION_VOLUME: usize = 4096;

/// The bits that each block of a section takes for a palette of `len` entries:
/// enough for the largest local index, and at least 4.
pub open spec fn spec_bits_per_block(len: nat) -> nat {
    let x = (len - 1) as u32;
    let m = if x > 1 {
        x
    } else {
        1u32
    };
    let w = 32 - u32_leading_zeros(m);
    if w > 4 {
        w as nat
    } else {
        4
    }
}

/// For a palette of at most 4096 entries: between 4 and 12 bits, enough for every index.
pub proof fn lemma_bits_per_block(len: nat)
    requires
        1 <= len <= 4096,
    ensures
        4 <= spec_bits_per_block(len) <= 12,
        (len - 1) < pow2_u64(spec_bits_per_block(len)),
{
    let x = (len - 1) as u32;
    let m = if x > 1 {
        x
    } else {
        1u32
    };
    axiom_u32_leading_zeros(m);
    let lz = u32_leading_zeros(m);
    assert(m != 0);
    assert(lz < 32);
    let w = (32 - lz) as u32;
    let sh = (31 - lz) as u32;
    assert((m >> sh) & 1u32 != 0);
    assert((m >> w) == 0);
    assert(sh + 1 == w);
    assert(w <= 12) by (bit_vector)
        requires
            (m >> sh) & 1u32 != 0,
            m < 4096,
            sh + 1 == w,
            1 <= w <= 32,
    ;
    let b = spec_bits_per_block(len) as u64;
    assert(b >= w);
    assert((m as u64) < (1u64 << b)) by (bit_vector)
        requires
            m >> w == 0,
            w <= b,
            b <= 12,
            1 <= w,
    ;
    assert(x <= m);
}

/// `2^b` as a `u64`.
pub open spec fn pow2_u64(b: nat) -> u64 {
    1u64 << (b as u64)
}

pub fn bits_per_block(palette_length: usize) -> (res: u8)
    requires
        1 <= palette_length <= 4096,
    ensures
        res as nat == spec_bits_per_block(palette_length as nat),
{
    let x = palette_length as u32 - 1;
    let m = if x > 1 {
        x
    } else {
        1
    };
    let lz = m.leading_zeros();
    proof {
        axiom_u32_leading_zeros(m);
    }
    let w = 32u8 - lz as u8;
    if w > 4 {
        w
    } else {
        4
    }
}


// Packed block indices //
//////////////////////////

/// The field of `b` bits at bit `s` of the word `w`.
pub open spec fn field(w: u64, s: u64, b: u64) -> u64 {
    (w >> s) & (((1u64 << b) - 1) as u64)
}

/// Local block index `i` of blocks packed `64 / b` to a word.
pub open spec fn packed_local(blocks: Seq<u64>, b: nat, i: int) -> u64 {
    let per_word = 64int / (b as int);
    field(blocks[i / per_word], (b * (i % per_word)) as u64, b as u64)
}

/// The number of words that hold the blocks of a section at `bits` bits per
/// block, no block spanning two words: 4096 divided by the blocks per word,
/// rounded up.
pub open spec fn words_needed(bits: nat) -> int {
    let per_word = 64int / (bits as int);
    (SECTION_VOLUME + per_word - 1) / per_word
}

/// Index of a block inside a section: x, then z, then y.
pub open spec fn block_index(p: Position) -> int {
    p.x + 16 * p.z + 256 * p.y
}

pub open spec fn in_section(p: Position) -> bool {
    0 <= p.x < 16 && 0 <= p.y < 16 && 0 <= p.z < 16
}

impl WorldChunkSection {
    pub open spec fn bits(&self) -> nat {
        spec_bits_per_block(self.block_mappings@.len())
    }

    /// The local palette index of block `i`.
    pub open spec fn local(&self, i: int) -> u64 {
        packed_local(self.blocks@, self.bits(), i)
    }

    /// The palette has between 1 and 4096 entries, and there are exactly as
    /// many words as the bit width needs for all blocks.
    pub open spec fn layout_ok(&self) -> bool {
        &&& 1 <= self.block_mappings@.len() <= 4096
        &&& self.blocks@.len() == words_needed(self.bits())
        &&& self.blocks@.len() * (64int / (self.bits() as int)) >= SECTION_VOLUME
    }

    /// Every block refers to a palette entry, the palette holds no global
    /// state twice, and each entry is in use.
    pub open spec fn wf(&self) -> bool {
        &&& self.layout_ok()
        &&& forall|i: int| 0 <= i < SECTION_VOLUME ==> #[trigger] self.local(i) < self.block_mappings@.len()
        &&& self.block_mappings@.no_duplicates()
        &&& forall|e: int| 0 <= e < self.block_mappings@.len() ==> #[trigger] self.used(e)
    }

    /// Some block refers to palette entry `e`.
    pub open spec fn used(&self, e: int) -> bool {
        exists|i: int| 0 <= i < SECTION_VOLUME && #[trigger] self.local(i) == e as u64
    }

    /// The global block state of every block, by block index.
    pub open spec fn view(&self) -> Seq<i32> {
        Seq::new(SECTION_VOLUME as nat, |i: int| self.block_mappings@[self.local(i) as int])
    }
}

proof fn lemma_get_trick(w: u64, s: u64, b: u64)
    requires
        1 <= b <= 32,
        s + b <= 64,
    ensures
        (w << ((64 - s - b) as u64)) >> ((64 - b) as u64) == field(w, s, b),
{
    assert((w << ((64 - s - b) as u64)) >> ((64 - b) as u64) == (w >> s) & (((1u64 << b) - 1) as u64))
        by (bit_vector)
        requires
            1 <= b <= 32,
            s + b <= 64,
    ;
}

proof fn lemma_set_same(w: u64, s: u64, b: u64, v: u64)
    requires
        1 <= b <= 32,
        s + b <= 64,
        v < (1u64 << b),
    ensures
        field(w ^ ((v ^ field(w, s, b)) << s), s, b) == v,
        field(w, s, b) < (1u64 << b),
{
    assert(((w ^ ((v ^ ((w >> s) & (((1u64 << b) - 1) as u64))) << s)) >> s) & (((1u64 << b)
        - 1) as u64) == v) by (bit_vector)
        requires
            1 <= b <= 32,
            s + b <= 64,
            v < (1u64 << b),
    ;
    assert((w >> s) & (((1u64 << b) - 1) as u64) < (1u64 << b)) by (bit_vector)
        requires
            1 <= b <= 32,
    ;
}

proof fn lemma_set_other(w: u64, s: u64, t: u64, b: u64, d: u64)
    requires
        1 <= b <= 32,
        s + b <= 64,
        t + b <= 64,
        t + b <= s || s + b <= t,
        d < (1u64 << b),
    ensures
        field(w ^ (d << s), t, b) == field(w, t, b),
{
    assert(((w ^ (d << s)) >> t) & (((1u64 << b) - 1) as u64) == (w >> t) & (((1u64 << b)
        - 1) as u64)) by (bit_vector)
        requires
            1 <= b <= 32,
            s + b <= 64,
            t + b <= 64,
            t + b <= s || s + b <= t,
            d < (1u64 << b),
    ;
}

/// The shift of block `i` lies inside its word, and two blocks of one word do not overlap.
proof fn lemma_word_geometry(b: nat, i: int, j: int)
    requires
        4 <= b <= 32,
        0 <= i,
        0 <= j,
    ensures
        b * (i % (64int / b as int)) + b <= 64,
        i != j && i / (64int / b as int) == j / (64int / b as int) ==> {
            ||| b * (i % (64int / b as int)) + b <= b * (j % (64int / b as int))
            ||| b * (j % (64int / b as int)) + b <= b * (i % (64int / b as int))
        },
{
    let pw = 64int / b as int;
    assert(pw >= 2 && pw * b <= 64) by (nonlinear_arith)
        requires
            4 <= b <= 32,
            pw == 64int / b as int,
    ;
    let ki = i % pw;
    let kj = j % pw;
    assert(0 <= ki < pw && 0 <= kj < pw) by (nonlinear_arith)
        requires
            pw >= 2,
            ki == i % pw,
            kj == j % pw,
            i >= 0,
            j >= 0,
    ;
    assert(b * ki + b <= 64) by (nonlinear_arith)
        requires
            0 <= ki < pw,
            pw * b <= 64,
            b >= 0,
    ;
    if i != j && i / pw == j / pw {
        assert(ki != kj) by (nonlinear_arith)
            requires
                pw >= 2,
                ki == i % pw,
                kj == j % pw,
                i / pw == j / pw,
                i != j,
                i >= 0,
                j >= 0,
        ;
        if ki < kj {
            assert(b * ki + b <= b * kj) by (nonlinear_arith)
                requires
                    ki < kj,
                    b >= 0,
            ;
        } else {
            assert(b * kj + b <= b * ki) by (nonlinear_arith)
                requires
                    kj < ki,
                    b >= 0,
            ;
        }
    }
}

/// Reads local block index `i`.
fn get_local(section: &WorldChunkSection, i: usize) -> (res: u64)
    requires
        section.layout_ok(),
        i < SECTION_VOLUME,
    ensures
        res == section.local(i as int),
{
    let bits = bits_per_block(section.block_mappings.len()) as u64;
    proof {
        lemma_bits_per_block(section.block_mappings@.len());
        lemma_word_geometry(bits as nat, i as int, i as int);
    }
    assert(64u64 / bits >= 1) by (nonlinear_arith)
        requires
            4 <= bits <= 12,
    ;
    let blocks_per_u64 = (64 / bits) as usize;
    let k = (i % blocks_per_u64) as u64;
    proof {
        assert(i / blocks_per_u64 < section.blocks@.len()) by (nonlinear_arith)
            requires
                section.blocks@.len() * blocks_per_u64 >= SECTION_VOLUME,
                i < SECTION_VOLUME,
                blocks_per_u64 >= 1,
        ;
    }
    let mut t = section.blocks[i / blocks_per_u64];
    assert(bits * (k + 1) == bits * k + bits) by (nonlinear_arith);
    let bits_to_the_right = 64 - bits * (k + 1);
    t = t << bits_to_the_right;
    let bits_to_the_left = bits * k;
    t = t >> (bits_to_the_right + bits_to_the_left);
    proof {
        lemma_get_trick(section.blocks@[(i / blocks_per_u64) as int], (bits * k) as u64, bits);
    }
    t
}

/// Overwrites local block index `i` with `block`.
fn set_local(section: &mut WorldChunkSection, i: usize, block: u64)
    requires
        old(section).layout_ok(),
        i < SECTION_VOLUME,
        block < pow2_u64(old(section).bits()),
    ensures
        final(section).block_mappings == old(section).block_mappings,
        final(section).blocks@.len() == old(section).blocks@.len(),
        final(section).local(i as int) == block,
        forall|j: int|
            0 <= j < SECTION_VOLUME && j != i ==> #[trigger] final(section).local(j) == old(
                section,
            ).local(j),
{
    let old_block = get_local(section, i);
    let bits = bits_per_block(section.block_mappings.len()) as u64;
    proof {
        lemma_bits_per_block(section.block_mappings@.len());
        lemma_word_geometry(bits as nat, i as int, i as int);
    }
    let blocks_per_u64 = (64 / bits) as usize;
    let w = i / blocks_per_u64;
    let k = (i % blocks_per_u64) as u64;
    proof {
        assert(w < section.blocks@.len()) by (nonlinear_arith)
            requires
                section.blocks@.len() * blocks_per_u64 >= SECTION_VOLUME,
                i < SECTION_VOLUME,
                blocks_per_u64 >= 1,
                w == i / blocks_per_u64,
        ;
    }
    let ghost word = section.blocks@[w as int];
    let d = block ^ old_block;
    proof {
        lemma_set_same(word, (bits * k) as u64, bits, block);
        assert(d < (1u64 << bits)) by (bit_vector)
            requires
                d == block ^ old_block,
                block < (1u64 << bits),
                old_block < (1u64 << bits),
        ;
    }
    let new_word = section.blocks[w] ^ (d << (bits * k));
    section.blocks.set(w, new_word);
    proof {
        let pw = blocks_per_u64 as int;
        assert(pw == 64int / (section.bits() as int));
        assert(section.bits() == bits as nat);
        assert(section.blocks@ == old(section).blocks@.update(w as int, new_word));
        assert forall|j: int| 0 <= j < SECTION_VOLUME && j != i implies #[trigger] section.local(j)
            == old(section).local(j) by {
            lemma_word_geometry(bits as nat, i as int, j);
            lemma_word_geometry(bits as nat, j, j);
            let wj = j / pw;
            let sj = (bits * (j % pw)) as u64;
            assert(0 <= wj < section.blocks@.len()) by (nonlinear_arith)
                requires
                    section.blocks@.len() * pw >= SECTION_VOLUME,
                    0 <= j < SECTION_VOLUME,
                    pw >= 1,
                    wj == j / pw,
            ;
            assert(section.local(j) == field(section.blocks@[wj], sj, bits));
            assert(old(section).local(j) == field(old(section).blocks@[wj], sj, bits));
            if wj == w as int {
                lemma_set_other(word, (bits * k) as u64, sj, bits, d);
            }
        }
    }
}


/// The index of a position inside its section.
fn section_index(position: Position) -> (res: usize)
    requires
        in_section(position),
    ensures
        res as int == block_index(position),
        res < SECTION_VOLUME,
{
    let x = position.x as usize;
    let y = position.y as usize;
    let z = position.z as usize;
    let r = x | (z << 4) | (y << 8);
    assert(r == x + 16 * z + 256 * y) by (bit_vector)
        requires
            r == x | (z << 4) | (y << 8),
            x < 16,
            y < 16,
            z < 16,
    ;
    r
}

// position is not global, but relative to the chunk. negative or bigger than 15 values are illegal
// and returns the local palette block ID, not global
pub fn get_section_block(section: &WorldChunkSection, position: Position) -> (res: i32)
    requires
        section.wf(),
        in_section(position),
    ensures
        res as int == section.local(block_index(position)) as int,
{
    let i = section_index(position);
    let t = get_local(section, i);
    t as i32
}

// position is not global, but relative to the chunk. negative or bigger than 15 values are illegal
// and the block value is of the local pallete, not global
// this function assumes that the block value is present in the palette and the data is mapped according to the size of the palette
pub fn set_section_block(section: &mut WorldChunkSection, position: Position, block: i32)
    requires
        old(section).layout_ok(),
        in_section(position),
        0 <= block,
        (block as u64) < pow2_u64(old(section).bits()),
    ensures
        final(section).block_mappings == old(section).block_mappings,
        final(section).blocks@.len() == old(section).blocks@.len(),
        final(section).local(block_index(position)) == block as u64,
        forall|j: int|
            0 <= j < SECTION_VOLUME && j != block_index(position)
                ==> #[trigger] final(section).local(j) == old(section).local(j),
{
    let i = section_index(position);
    set_local(section, i, block as u64);
}

/// The first palette entry that holds `g`.
fn palette_position(palette: &Vec<i32>, g: i32) -> (res: Option<usize>)
    ensures
        match res {
            Some(p) => {
                &&& p < palette@.len()
                &&& palette@[p as int] == g
                &&& forall|q: int| 0 <= q < p ==> palette@[q] != g
            },
            None => !palette@.contains(g),
        },
{
    let mut p: usize = 0;
    while p < palette.len()
        invariant
            p <= palette@.len(),
            forall|q: int| 0 <= q < p ==> palette@[q] != g,
        decreases palette@.len() - p,
    {
        if palette[p] == g {
            return Some(p);
        }
        p = p + 1;
    }
    None
}

/// Whether a block other than `i` has local index `local`.
fn other_block_has(section: &WorldChunkSection, i: usize, local: u64) -> (res: bool)
    requires
        section.layout_ok(),
        i < SECTION_VOLUME,
    ensures
        res == exists|j: int| 0 <= j < SECTION_VOLUME && j != i && #[trigger] section.local(j) == local,
{
    let mut j: usize = 0;
    while j < SECTION_VOLUME
        invariant
            section.layout_ok(),
            i < SECTION_VOLUME,
            j <= SECTION_VOLUME,
            forall|k: int| 0 <= k < j && k != i ==> #[trigger] section.local(k) != local,
        decreases SECTION_VOLUME - j,
    {
        if j != i {
            if get_local(section, j) == local {
                return true;
            }
        }
        j = j + 1;
    }
    false
}

/// The global block states of all blocks, by block index.
fn decode_globals(section: &WorldChunkSection) -> (res: Vec<i32>)
    requires
        section.wf(),
    ensures
        res@ == section.view(),
{
    let mut res: Vec<i32> = Vec::new();
    let mut j: usize = 0;
    while j < SECTION_VOLUME
        invariant
            section.wf(),
            j <= SECTION_VOLUME,
            res@ == section.view().take(j as int),
        decreases SECTION_VOLUME - j,
    {
        let local = get_local(section, j);
        res.push(section.block_mappings[local as usize]);
        j = j + 1;
        assert(res@ =~= section.view().take(j as int));
    }
    assert(section.view().take(SECTION_VOLUME as int) =~= section.view());
    res
}

/// The local indices of all blocks, by block index.
fn decode_locals(section: &WorldChunkSection) -> (res: Vec<u64>)
    requires
        section.layout_ok(),
    ensures
        res@.len() == SECTION_VOLUME,
        forall|j: int| 0 <= j < SECTION_VOLUME ==> res@[j] == #[trigger] section.local(j),
{
    let mut res: Vec<u64> = Vec::new();
    let mut j: usize = 0;
    while j < SECTION_VOLUME
        invariant
            section.layout_ok(),
            j <= SECTION_VOLUME,
            res@.len() == j,
            forall|k: int| 0 <= k < j ==> res@[k] == #[trigger] section.local(k),
        decreases SECTION_VOLUME - j,
    {
        let local = get_local(section, j);
        res.push(local);
        j = j + 1;
    }
    res
}

proof fn lemma_field_zero(s: u64, b: u64)
    ensures
        field(0, s, b) == 0,
{
    assert((0u64 >> s) & (((1u64 << b) - 1) as u64) == 0) by (bit_vector);
}

/// Replaces the packed words with enough zero words for the current palette size.
fn reset_blocks(section: &mut WorldChunkSection)
    requires
        1 <= old(section).block_mappings@.len() <= 4096,
    ensures
        final(section).block_mappings == old(section).block_mappings,
        final(section).layout_ok(),
        forall|j: int| 0 <= j < SECTION_VOLUME ==> #[trigger] final(section).local(j) == 0,
{
    section.blocks.clear();
    let bits = bits_per_block(section.block_mappings.len()) as usize;
    proof {
        lemma_bits_per_block(section.block_mappings@.len());
    }
    let blocks_per_u64 = 64 / bits;
    assert(blocks_per_u64 >= 1) by (nonlinear_arith)
        requires
            blocks_per_u64 == 64usize / bits,
            4 <= bits <= 12,
    ;
    // needs to be rounded up `(x + y - 1) / y` is
    // equivalent of x / y except that its rounded up
    let u64s_needed = ((16 * 16 * 16) + blocks_per_u64 - 1) / blocks_per_u64;
    section.blocks.resize(u64s_needed, 0u64);
    proof {
        assert(u64s_needed * blocks_per_u64 >= SECTION_VOLUME) by (nonlinear_arith)
            requires
                u64s_needed as int == (4096 + blocks_per_u64 - 1) / (blocks_per_u64 as int),
                blocks_per_u64 >= 1,
        ;
        assert forall|j: int| 0 <= j < SECTION_VOLUME implies #[trigger] section.local(j) == 0 by {
            let pw = blocks_per_u64 as int;
            assert(0 <= j / pw < section.blocks@.len()) by (nonlinear_arith)
                requires
                    section.blocks@.len() * pw >= SECTION_VOLUME,
                    0 <= j < SECTION_VOLUME,
                    pw >= 1,
            ;
            assert(section.blocks@[j / pw] == 0);
            lemma_field_zero((bits * (j % pw)) as u64, bits as u64);
        }
    }
}

/// Packs `locals` as the blocks of the section.
fn encode_locals(section: &mut WorldChunkSection, locals: &Vec<u64>)
    requires
        1 <= old(section).block_mappings@.len() <= 4096,
        locals@.len() == SECTION_VOLUME,
        forall|j: int| 0 <= j < SECTION_VOLUME ==> #[trigger] locals@[j] < old(section).block_mappings@.len(),
    ensures
        final(section).block_mappings == old(section).block_mappings,
        final(section).layout_ok(),
        forall|j: int| 0 <= j < SECTION_VOLUME ==> #[trigger] final(section).local(j) == locals@[j],
{
    reset_blocks(section);
    proof {
        lemma_bits_per_block(section.block_mappings@.len());
    }
    let mut j: usize = 0;
    while j < SECTION_VOLUME
        invariant
            section.block_mappings == old(section).block_mappings,
            section.layout_ok(),
            locals@.len() == SECTION_VOLUME,
            forall|k: int| 0 <= k < SECTION_VOLUME ==> #[trigger] locals@[k] < section.block_mappings@.len(),
            (section.block_mappings@.len() - 1) < pow2_u64(section.bits()),
            j <= SECTION_VOLUME,
            forall|k: int| 0 <= k < j ==> #[trigger] section.local(k) == locals@[k],
        decreases SECTION_VOLUME - j,
    {
        set_local(section, j, locals[j]);
        j = j + 1;
    }
}

/// Packs the blocks with global states `globals`, each block referring to the
/// first palette entry that holds its state.
fn encode_globals(section: &mut WorldChunkSection, globals: &Vec<i32>)
    requires
        1 <= old(section).block_mappings@.len() <= 4096,
        globals@.len() == SECTION_VOLUME,
        forall|j: int| 0 <= j < SECTION_VOLUME ==> old(section).block_mappings@.contains(#[trigger] globals@[j]),
    ensures
        final(section).block_mappings == old(section).block_mappings,
        final(section).layout_ok(),
        forall|j: int|
            0 <= j < SECTION_VOLUME ==> {
                &&& #[trigger] final(section).local(j) < final(section).block_mappings@.len()
                &&& final(section).block_mappings@[final(section).local(j) as int] == globals@[j]
                &&& forall|q: int| 0 <= q < final(section).local(j) ==> final(section).block_mappings@[q] != globals@[j]
            },
{
    let mut locals: Vec<u64> = Vec::new();
    let mut j: usize = 0;
    while j < SECTION_VOLUME
        invariant
            globals@.len() == SECTION_VOLUME,
            forall|k: int| 0 <= k < SECTION_VOLUME ==> section.block_mappings@.contains(#[trigger] globals@[k]),
            j <= SECTION_VOLUME,
            locals@.len() == j,
            forall|k: int|
                0 <= k < j ==> {
                    &&& #[trigger] locals@[k] < section.block_mappings@.len()
                    &&& section.block_mappings@[locals@[k] as int] == globals@[k]
                    &&& forall|q: int| 0 <= q < locals@[k] ==> section.block_mappings@[q] != globals@[k]
                },
        decreases SECTION_VOLUME - j,
    {
        let p = palette_position(&section.block_mappings, globals[j]);
        match p {
            Some(p) => {
                locals.push(p as u64);
            },
            None => {
                assert(section.block_mappings@.contains(globals@[j as int]));
                return;
            },
        }
        j = j + 1;
    }
    encode_locals(section, &locals);
}


/// The global block states of a section that may be all air.
pub open spec fn opt_section_view(s: Option<WorldChunkSection>) -> Seq<i32> {
    match s {
        Some(x) => x.view(),
        None => Seq::new(SECTION_VOLUME as nat, |i: int| 0i32),
    }
}

pub open spec fn opt_section_wf(s: Option<WorldChunkSection>) -> bool {
    match s {
        Some(x) => x.wf(),
        None => true,
    }
}

/// A palette entry that some block other than `i` also uses leaves room for one more entry.
proof fn lemma_palette_room(s: WorldChunkSection, i: int, j: int)
    requires
        s.wf(),
        0 <= i < SECTION_VOLUME,
        0 <= j < SECTION_VOLUME,
        j != i,
        s.local(j) == s.local(i),
    ensures
        s.block_mappings@.len() <= 4095,
{
    let len = s.block_mappings@.len() as int;
    vstd::set_lib::lemma_int_range(0, SECTION_VOLUME as int);
    let others = vstd::set_lib::set_int_range(0, SECTION_VOLUME as int).remove(i);
    assert(others.len() == 4095);
    let f = |k: int| s.local(k) as int;
    let image = others.map(f);
    vstd::set_lib::lemma_map_size_bound(others, image, f);
    let entries = vstd::set_lib::set_int_range(0, len);
    assert forall|e: int| entries.contains(e) implies image.contains(e) by {
        assert(s.used(e));
        let w = choose|w: int| 0 <= w < SECTION_VOLUME && #[trigger] s.local(w) == e as u64;
        if w == i {
            assert(others.contains(j) && f(j) == e);
        } else {
            assert(others.contains(w) && f(w) == e);
        }
    }
    assert(entries.subset_of(image));
    vstd::set_lib::lemma_len_subset(entries, image);
    vstd::set_lib::lemma_int_range(0, len);
}

proof fn lemma_remove_no_duplicates(s: Seq<i32>, k: int)
    requires
        s.no_duplicates(),
        0 <= k < s.len(),
    ensures
        s.remove(k).no_duplicates(),
{
    let r = s.remove(k);
    assert forall|a: int, b: int| 0 <= a < r.len() && 0 <= b < r.len() && a != b implies r[a]
        != r[b] by {
        let a2 = if a < k {
            a
        } else {
            a + 1
        };
        let b2 = if b < k {
            b
        } else {
            b + 1
        };
        assert(r[a] == s[a2] && r[b] == s[b2]);
    }
}

/// A section of air only.
pub open spec fn air_section() -> Seq<i32> {
    Seq::new(SECTION_VOLUME as nat, |i: int| 0i32)
}

// check if the section is empty, if so, removes it
pub fn check_if_section_empty(section: &mut Option<WorldChunkSection>)
    requires
        opt_section_wf(*old(section)),
    ensures
        opt_section_wf(*final(section)),
        opt_section_view(*final(section)) == opt_section_view(*old(section)),
        *final(section) == (if opt_section_view(*old(section)) == air_section() {
            None
        } else {
            *old(section)
        }),
{
    let inner_section = match section {
        Some(s) => s,
        None => {
            // its already empty
            assert(opt_section_view(*old(section)) =~= air_section());
            return ;
        },
    };
    // if there are no more non-air blocks we can just unload the chunk to save memory
    let air_in_palette = palette_position(&inner_section.block_mappings, 0);
    match air_in_palette {
        Some(air) => {
            let mut empty = true;
            let mut j: usize = 0;
            while j < SECTION_VOLUME
                invariant_except_break
                    empty,
                invariant
                    inner_section.wf(),
                    air < inner_section.block_mappings@.len(),
                    inner_section.block_mappings@[air as int] == 0,
                    j <= SECTION_VOLUME,
                    empty ==> forall|k: int| 0 <= k < j ==> #[trigger] inner_section.local(k) == air as u64,
                ensures
                    empty ==> forall|k: int|
                        0 <= k < SECTION_VOLUME ==> #[trigger] inner_section.local(k) == air as u64,
                    !empty ==> j < SECTION_VOLUME && inner_section.local(j as int) != air as u64,
                decreases SECTION_VOLUME - j,
            {
                if get_local(inner_section, j) != air as u64 {
                    empty = false;
                    break ;
                }
                j = j + 1;
            }
            if empty {
                assert(inner_section.view() =~= opt_section_view(None));
                assert(opt_section_view(None) =~= air_section());
                *section = None;
            } else {
                proof {
                    let l = inner_section.local(j as int) as int;
                    assert(inner_section.block_mappings@[l] != 0) by {
                        if inner_section.block_mappings@[l] == 0 {
                            assert(inner_section.block_mappings@.no_duplicates());
                        }
                    }
                    assert(inner_section.view()[j as int] != air_section()[j as int]);
                }
            }
        },
        None => {
            // no air in the palette
            proof {
                let l = inner_section.local(0) as int;
                assert(inner_section.local(0) < inner_section.block_mappings@.len());
                assert(inner_section.block_mappings@[l] != 0) by {
                    if inner_section.block_mappings@[l] == 0 {
                        assert(inner_section.block_mappings@.contains(0));
                    }
                }
                assert(inner_section.view()[0] != air_section()[0]);
            }
        },
    }
}

/// The palette of a section after its block `i` is set to `glob`, as
/// `set_block_in_section` leaves it; `None` when the section is left out as
/// all air. A missing section is first made an air section with palette
/// `[0]`. A state not in the palette yet takes the place of the old block's
/// entry when no other block uses that entry, and is appended otherwise; an
/// entry that no block uses any more is removed, which moves the later
/// entries down by one.
pub open spec fn palette_after(s: Option<WorldChunkSection>, i: int, glob: i32) -> Option<Seq<i32>> {
    match s {
        None => if glob == 0 {
            None
        } else {
            Some(seq![0i32, glob])
        },
        Some(x) => {
            let pal = x.block_mappings@;
            let ob = x.local(i) as int;
            if pal[ob] == glob {
                Some(pal)
            } else if !(exists|j: int|
                0 <= j < SECTION_VOLUME && j != i && #[trigger] x.local(j) == ob as u64) {
                if pal.contains(glob) {
                    if glob == 0 && x.view().update(i, glob) == air_section() {
                        None
                    } else {
                        Some(pal.remove(ob))
                    }
                } else {
                    Some(pal.update(ob, glob))
                }
            } else if pal.contains(glob) {
                Some(pal)
            } else {
                Some(pal.push(glob))
            }
        },
    }
}

/// The palette of a section that may be missing: `None` for a missing one.
pub open spec fn opt_palette(s: Option<WorldChunkSection>) -> Option<Seq<i32>> {
    match s {
        Some(x) => Some(x.block_mappings@),
        None => None,
    }
}

/// Sets block `i` of a section that may be all air to the global state `glob_block`,
/// keeping the palette to the states in use. Returns whether the block changed.
pub fn set_block_in_section(
    opt_section: &mut Option<WorldChunkSection>,
    iblock: Position,
    glob_block: i32,
) -> (changed: bool)
    requires
        opt_section_wf(*old(opt_section)),
        in_section(iblock),
    ensures
        opt_section_wf(*final(opt_section)),
        opt_section_view(*final(opt_section)) == opt_section_view(*old(opt_section)).update(
            block_index(iblock),
            glob_block,
        ),
        changed == (opt_section_view(*old(opt_section))[block_index(iblock)] != glob_block),
        opt_palette(*final(opt_section)) == palette_after(
            *old(opt_section),
            block_index(iblock),
            glob_block,
        ),
{
    let i = section_index(iblock);
    let ghost target = opt_section_view(*old(opt_section)).update(i as int, glob_block);
    if opt_section.is_none() {
        // if the target block is air too, then no need to anything at all
        if glob_block == 0 {
            assert(opt_section_view(*opt_section) =~= target);
            return false;
        }
        // initialize the section with air
        let fresh = WorldChunkSection { block_mappings: vec![0], blocks: vec![0u64; 256] };
        proof {
            lemma_bits_per_block(1);
            assert(fresh.bits() == 4) by {
                axiom_u32_leading_zeros(1u32);
                let lz = u32_leading_zeros(1u32);
                let sh = (31 - lz) as u32;
                assert((1u32 >> sh) & 1u32 != 0);
                assert(sh == 0) by (bit_vector)
                    requires
                        (1u32 >> sh) & 1u32 != 0,
                ;
            }
            assert forall|j: int| 0 <= j < SECTION_VOLUME implies #[trigger] fresh.local(j) == 0 by {
                assert(0 <= j / 16 < 256);
                lemma_field_zero((4 * (j % 16)) as u64, 4);
            }
            assert(fresh.used(0int)) by {
                assert(fresh.local(0) == 0);
            }
            assert(fresh.view() =~= opt_section_view(None));
        }
        *opt_section = Some(fresh);
    }
    let ghost before = opt_section_view(*opt_section);
    assert(before.update(i as int, glob_block) == target);
    let mut section = match opt_section.take() {
        Some(s) => s,
        None => {
            return false;
        },
    };
    let ghost old_s = section;
    proof {
        if old(opt_section).is_none() {
            let other: int = if i == 0 { 1 } else { 0 };
            assert(old_s.local(other) == 0);
            assert(!old_s.block_mappings@.contains(glob_block)) by {
                if old_s.block_mappings@.contains(glob_block) {
                    assert(old_s.block_mappings@[0] == glob_block);
                }
            }
            assert(old_s.block_mappings@.push(glob_block) =~= seq![0i32, glob_block]);
        }
        assert(palette_after(Some(old_s), i as int, glob_block) == palette_after(
            *old(opt_section),
            i as int,
            glob_block,
        ));
    }
    let old_block = get_local(&section, i);
    if section.block_mappings[old_block as usize] == glob_block {
        // Trying to set the block to the same
        assert(old_s.view() =~= target);
        *opt_section = Some(section);
        return false;
    }
    let ghost old_len = old_s.block_mappings@.len();
    // if there are no more blocks of type that was in this position previously
    // we will want to remove it from the palette
    let old_block_to_be_removed_from_palette = !other_block_has(&section, i, old_block);
    let new_block_position = palette_position(&section.block_mappings, glob_block);
    if old_block_to_be_removed_from_palette {
        match new_block_position {
            Some(_new_block_palette_position) => {
                // Remove the old block from the palette and then remap it,
                // because all of the blocks that go after that block in the palette
                // will be shifted
                // PLUS the bits_per_block might change after removing a block too
                // these are the GLOBAL palette indexes
                let mut blocks = decode_globals(&section);
                // remove the old block from the palette
                section.block_mappings.remove(old_block as usize);
                // and set the new block
                blocks.set(i, glob_block);
                let ghost pal = section.block_mappings@;
                proof {
                    assert(pal == old_s.block_mappings@.remove(old_block as int));
                    lemma_remove_no_duplicates(old_s.block_mappings@, old_block as int);
                    assert forall|j: int| 0 <= j < SECTION_VOLUME implies pal.contains(
                        #[trigger] blocks@[j],
                    ) by {
                        if j == i {
                            let p = _new_block_palette_position as int;
                            assert(p != old_block as int);
                            let p2 = if p < old_block as int {
                                p
                            } else {
                                p - 1
                            };
                            assert(pal[p2] == glob_block);
                        } else {
                            let l = old_s.local(j) as int;
                            assert(l != old_block as int);
                            let l2 = if l < old_block as int {
                                l
                            } else {
                                l - 1
                            };
                            assert(pal[l2] == blocks@[j]);
                        }
                    }
                }
                encode_globals(&mut section, &blocks);
                proof {
                    assert(section.view() =~= target);
                    assert forall|e: int| 0 <= e < pal.len() implies #[trigger] section.used(e) by {
                        let g = pal[e];
                        let e2 = if e < old_block as int {
                            e
                        } else {
                            e + 1
                        };
                        assert(old_s.block_mappings@[e2] == g);
                        let w = if g == glob_block {
                            i as int
                        } else {
                            assert(old_s.used(e2));
                            choose|w: int| 0 <= w < SECTION_VOLUME && #[trigger] old_s.local(w) == e2 as u64
                        };
                        assert(blocks@[w] == g);
                        let l = section.local(w) as int;
                        assert(pal[l] == g);
                        assert(l == e);
                    }
                }
                *opt_section = Some(section);
                // if the block was set to air, might want to remove the whole chunk section
                if glob_block == 0 {
                    check_if_section_empty(opt_section);
                }
                return true;
            },
            None => {
                // Since the old block needs to be removed from the palette and the new one
                // needs to be added we can simple change the global block id in the palette
                // and all will be done.
                section.block_mappings.set(old_block as usize, glob_block);
                proof {
                    assert forall|j: int| 0 <= j < SECTION_VOLUME implies #[trigger] section.local(j)
                        == old_s.local(j) by {
                    }
                    assert(section.view() =~= target);
                    let pal = section.block_mappings@;
                    assert forall|a: int, b: int|
                        0 <= a < pal.len() && 0 <= b < pal.len() && a != b implies pal[a]
                        != pal[b] by {
                        if a == old_block as int {
                            assert(!old_s.block_mappings@.contains(glob_block));
                            assert(old_s.block_mappings@[b] == pal[b]);
                        } else if b == old_block as int {
                            assert(!old_s.block_mappings@.contains(glob_block));
                            assert(old_s.block_mappings@[a] == pal[a]);
                        }
                    }
                    assert forall|e: int| 0 <= e < pal.len() implies #[trigger] section.used(e) by {
                        assert(old_s.used(e));
                        let w = choose|w: int| 0 <= w < SECTION_VOLUME && #[trigger] old_s.local(w) == e as u64;
                        assert(section.local(w) == e as u64);
                    }
                }
            },
        }
    } else {
        let ghost other = choose|j: int| 0 <= j < SECTION_VOLUME && j != i as int && #[trigger] old_s.local(j) == old_block;
        match new_block_position {
            Some(new_block_palette_position) => {
                // No need to do anything with the palette
                proof {
                    lemma_bits_per_block(old_len);
                }
                set_local(&mut section, i, new_block_palette_position as u64);
                proof {
                    assert(section.view() =~= target);
                    assert forall|e: int| 0 <= e < old_len implies #[trigger] section.used(e) by {
                        if e == new_block_palette_position as int {
                            assert(section.local(i as int) == e as u64);
                        } else if e == old_block as int {
                            assert(section.local(other) == e as u64);
                        } else {
                            assert(old_s.used(e));
                            let w = choose|w: int| 0 <= w < SECTION_VOLUME && #[trigger] old_s.local(w) == e as u64;
                            assert(section.local(w) == e as u64);
                        }
                    }
                }
            },
            None => {
                // We need to add the new block to the palette
                // If that changes the bits_per_block
                // We will need to remap the data
                proof {
                    lemma_palette_room(old_s, i as int, other);
                    lemma_bits_per_block(old_len + 1);
                }
                let old_bits_per_block = bits_per_block(section.block_mappings.len());
                let new_bits_per_block = bits_per_block(section.block_mappings.len() + 1);
                let new_local = section.block_mappings.len() as u64;
                if old_bits_per_block != new_bits_per_block {
                    // need to remap the data to fit the new bits_per_block
                    let mut blocks = decode_locals(&section);
                    // add the new block to the section
                    blocks.set(i, new_local);
                    // add the new block to the palette
                    section.block_mappings.push(glob_block);
                    assert forall|j: int| 0 <= j < SECTION_VOLUME implies #[trigger] blocks@[j]
                        < section.block_mappings@.len() by {
                        if j != i as int {
                            assert(blocks@[j] == old_s.local(j));
                        }
                    }
                    encode_locals(&mut section, &blocks);
                } else {
                    // yay just simply add it to the palette
                    section.block_mappings.push(glob_block);
                    assert forall|j: int| 0 <= j < SECTION_VOLUME implies #[trigger] section.local(j)
                        == old_s.local(j) by {
                    }
                    set_local(&mut section, i, new_local);
                }
                proof {
                    let pal = section.block_mappings@;
                    assert(pal == old_s.block_mappings@.push(glob_block));
                    assert(section.view() =~= target);
                    assert forall|a: int, b: int|
                        0 <= a < pal.len() && 0 <= b < pal.len() && a != b implies pal[a]
                        != pal[b] by {
                        if a == old_len as int {
                            assert(old_s.block_mappings@[b] == pal[b]);
                        } else if b == old_len as int {
                            assert(old_s.block_mappings@[a] == pal[a]);
                        }
                    }
                    assert forall|e: int| 0 <= e < pal.len() implies #[trigger] section.used(e) by {
                        if e == old_len as int {
                            assert(section.local(i as int) == e as u64);
                        } else if e == old_block as int {
                            assert(section.local(other) == e as u64);
                        } else {
                            assert(old_s.used(e));
                            let w = choose|w: int| 0 <= w < SECTION_VOLUME && #[trigger] old_s.local(w) == e as u64;
                            assert(section.local(w) == e as u64);
                        }
                    }
                }
            },
        }
    }
    *opt_section = Some(section);
    true
}

} // verus!
