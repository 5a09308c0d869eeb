//! Chunk columns and their 16x16x16 sections.
//!
//! A column is a fixed stack of sections covering the world's height range,
//! plus heightmaps. Sections are always present rather than lazily allocated:
//! an empty section is a single-value paletted container, which already costs
//! nothing, and keeping the stack dense removes a bounds-and-null check from
//! every block access.

use vstd::prelude::*;

use crate::protocol::nbt;
use crate::protocol::nbt::{NbtCompound, NbtTag, NbtValue};
use crate::protocol::types::ChunkPos;
use crate::protocol::wire;
use crate::protocol::writer::PacketWrite;
use crate::world::bitstorage;
use crate::world::bitstorage::BitStorage;
use crate::world::block::BlockStates;
use crate::world::palette;
use crate::world::palette::{ContainerKind, Form, PalettedContainer};

verus! {

/// Blocks along each edge of a section.
pub const SECTION_SIZE: usize = 16;

/// Blocks in a section.
pub const SECTION_VOLUME: usize = 4096;

/// Columns in a chunk (16x16).
pub const COLUMNS: usize = 256;

/// Bits of a biome id in the direct representation.
pub const BIOME_BITS: u32 = 6;

/// Vertical extent of a world, in blocks and sections.
#[derive(Debug, Clone, Copy, PartialEq, Eq, Structural)]
pub struct HeightLimits {
    pub min_y: i32,
    pub height: u32,
}

impl HeightLimits {
    /// The overworld's range since 1.18: -64 up to 319 inclusive.
    #[must_use]
    pub fn overworld() -> (limits: Self)
        ensures
            limits.min_y == -64,
            limits.height == 384,
    {
        HeightLimits { min_y: -64, height: 384 }
    }

    /// The highest `y`, and the one above it, are machine integers.
    pub open spec fn bounded(self) -> bool {
        i32::MIN < self.min_y + (self.height as i32) <= i32::MAX
    }

    /// The highest `y` of the world.
    pub open spec fn top(self) -> int {
        self.min_y + (self.height as i32) - 1
    }

    /// Whether `y` lies in the world.
    pub open spec fn holds(self, y: int) -> bool {
        self.min_y <= y <= self.top()
    }

    #[must_use]
    pub fn section_count(self) -> (count: usize)
        ensures
            count == self.height as int / 16,
    {
        (self.height / 16) as usize
    }

    #[must_use]
    pub fn max_y(self) -> (y: i32)
        requires
            self.bounded(),
        ensures
            y == self.top(),
    {
        self.min_y + self.height as i32 - 1
    }

    #[must_use]
    pub fn contains(self, y: i32) -> (inside: bool)
        requires
            self.bounded(),
        ensures
            inside == self.holds(y as int),
    {
        y >= self.min_y && y <= self.max_y()
    }

    /// Bits needed to store a heightmap value, which ranges over `height + 1`
    /// possibilities (one extra for "nothing in this column").
    #[must_use]
    pub fn heightmap_bits(self) -> (bits: u32)
        requires
            self.height < usize::MAX,
        ensures
            bits == map_bits(self),
            1 <= bits <= bitstorage::MAX_BITS,
            self.height <= bitstorage::mask_of(bits),
    {
        proof {
            lemma_map_bits(self);
        }
        palette::bits_for(self.height as usize + 1)
    }
}

/// Bits of a heightmap value.
pub open spec fn map_bits(limits: HeightLimits) -> u32 {
    palette::index_bits((limits.height + 1) as nat) as u32
}

proof fn lemma_map_bits(limits: HeightLimits)
    ensures
        map_bits(limits) == palette::index_bits((limits.height + 1) as nat),
        1 <= map_bits(limits) <= bitstorage::MAX_BITS,
        limits.height <= bitstorage::mask_of(map_bits(limits)),
{
    vstd::arithmetic::power2::lemma2_to64();
    palette::lemma_index_bits_bound((limits.height + 1) as nat, 32);
    palette::law_index_bits((limits.height + 1) as nat);
    bitstorage::lemma_mask_is_power(map_bits(limits));
}

/// Index of a block within a section, in Y-Z-X order: layers of 256, rows of 16
/// and blocks. Coordinates outside the section overlap bit by bit.
pub open spec fn block_index(x: usize, y: usize, z: usize) -> usize {
    if x < 16 && y < 16 && z < 16 {
        (y * 256 + z * 16 + x) as usize
    } else {
        (y << 8) | (z << 4) | x
    }
}

/// Index of a block within a section, in Y-Z-X order.
#[inline]
#[must_use]
pub fn section_index(x: usize, y: usize, z: usize) -> (index: usize)
    ensures
        index == block_index(x, y, z),
        x < 16 && y < 16 && z < 16 ==> index == y * 256 + z * 16 + x,
{
    assert(x < 16 && y < 16 && z < 16 ==> (y << 8) | (z << 4) | x == y * 256 + z * 16 + x)
        by (bit_vector);
    (y << 8) | (z << 4) | x
}

/// Within a section the index counts layers of 256, rows of 16 and blocks: it
/// is below the volume, and the place can be told from it.
pub proof fn law_block_index(x: usize, y: usize, z: usize)
    ensures
        x < 16 && y < 16 && z < 16 ==> ({
            let index = block_index(x, y, z);
            &&& index == y * 256 + z * 16 + x
            &&& index < SECTION_VOLUME
            &&& index % 16 == x
            &&& index / 16 % 16 == z
            &&& index / 256 == y
        }),
{
}

/// How many of some blocks are not air.
pub open spec fn non_air(ids: Seq<u32>, air: u32) -> nat {
    palette::count_where(ids, |id: u32| id != air)
}

/// Nothing is counted just where everything is air.
pub proof fn law_empty_is_all_air(ids: Seq<u32>, air: u32)
    ensures
        non_air(ids, air) == 0 <==> forall|i: int|
            0 <= i < ids.len() ==> #[trigger] ids[i] == air,
        non_air(ids, air) <= ids.len(),
    decreases ids.len(),
{
    if ids.len() > 0 {
        let before = ids.drop_last();
        law_empty_is_all_air(before, air);
        if forall|i: int| 0 <= i < ids.len() ==> #[trigger] ids[i] == air {
            assert forall|i: int| 0 <= i < before.len() implies #[trigger] before[i] == air by {
                assert(before[i] == ids[i]);
            }
            assert(ids[ids.len() - 1] == air);
        }
        if non_air(ids, air) == 0 {
            assert forall|i: int| 0 <= i < ids.len() implies #[trigger] ids[i] == air by {
                if i < before.len() {
                    assert(before[i] == air);
                }
            }
        }
    }
}

/// One 16x16x16 slice of a chunk.
#[derive(Debug, PartialEq, Eq)]
pub struct ChunkSection {
    block_states: PalettedContainer,
    biomes: PalettedContainer,
}

/// A section in the chunk-data wire format.
pub open spec fn section_bytes(section: ChunkSection, air: u32) -> Seq<u8> {
    wire::be16(non_air(section.blocks()@, air) as u16) + palette::container_bytes(
        section.blocks().id_bits(),
        section.blocks().form(),
    ) + palette::container_bytes(section.biome_cells().id_bits(), section.biome_cells().form())
}

impl Clone for ChunkSection {
    fn clone(&self) -> (copy: Self)
        ensures
            copy.same(*self),
    {
        ChunkSection { block_states: self.block_states.clone(), biomes: self.biomes.clone() }
    }
}

impl ChunkSection {
    /// Two sections hold the same in the same representation.
    pub open spec fn same(&self, other: ChunkSection) -> bool {
        self.blocks().same(other.blocks()) && self.biome_cells().same(other.biome_cells())
    }

    /// The container of block states.
    pub closed spec fn blocks(&self) -> PalettedContainer {
        self.block_states
    }

    /// The container of biomes.
    pub closed spec fn biome_cells(&self) -> PalettedContainer {
        self.biomes
    }

    pub open spec fn wf(&self) -> bool {
        &&& self.blocks().wf() && self.blocks().holds() == ContainerKind::Blocks
        &&& self.biome_cells().wf() && self.biome_cells().holds() == ContainerKind::Biomes
    }

    #[must_use]
    pub fn filled(states: &BlockStates, block: u32, biome: u32) -> (section: Self)
        ensures
            section.wf(),
            section.blocks().id_bits() == palette::index_bits(states.total_states as nat),
            section.blocks().form() == Form::Single(block),
            section.biome_cells().id_bits() == BIOME_BITS,
            section.biome_cells().form() == Form::Single(biome),
    {
        let direct_bits: u32 = states.direct_bits();
        ChunkSection {
            block_states: PalettedContainer::filled(ContainerKind::Blocks, direct_bits, block),
            biomes: PalettedContainer::filled(ContainerKind::Biomes, BIOME_BITS, biome),
        }
    }

    #[inline]
    #[must_use]
    pub fn block(&self, x: usize, y: usize, z: usize) -> (state: u32)
        requires
            self.wf(),
            block_index(x, y, z) < SECTION_VOLUME,
        ensures
            state == self.blocks()@[block_index(x, y, z) as int],
    {
        self.block_states.get(section_index(x, y, z))
    }

    #[inline]
    pub fn set_block(&mut self, x: usize, y: usize, z: usize, state: u32) -> (previous: u32)
        requires
            old(self).wf(),
            block_index(x, y, z) < SECTION_VOLUME,
            old(self).blocks().takes(state),
        ensures
            final(self).wf(),
            previous == old(self).blocks()@[block_index(x, y, z) as int],
            final(self).blocks()@ == old(self).blocks()@.update(
                block_index(x, y, z) as int,
                state,
            ),
            final(self).blocks().id_bits() == old(self).blocks().id_bits(),
            final(self).blocks().form() == palette::after_set(
                ContainerKind::Blocks,
                old(self).blocks().id_bits(),
                old(self).blocks().form(),
                block_index(x, y, z) as int,
                state,
            ),
            final(self).biome_cells() == old(self).biome_cells(),
    {
        self.block_states.set(section_index(x, y, z), state)
    }

    /// Replaces every block in the section with `state`.
    ///
    /// Collapses the container back to its single-value form, so filling a
    /// section is one step rather than 4096 writes.
    pub fn fill_blocks(&mut self, state: u32)
        requires
            old(self).wf(),
        ensures
            final(self).wf(),
            final(self).blocks().form() == Form::Single(state),
            final(self).blocks().id_bits() == old(self).blocks().id_bits(),
            final(self).biome_cells() == old(self).biome_cells(),
    {
        self.block_states.fill(state);
    }

    #[must_use]
    pub fn block_states(&self) -> (container: &PalettedContainer)
        ensures
            *container == self.blocks(),
    {
        &self.block_states
    }

    #[must_use]
    pub fn biomes(&self) -> (container: &PalettedContainer)
        ensures
            *container == self.biome_cells(),
    {
        &self.biomes
    }

    pub fn biomes_mut(&mut self) -> (container: &mut PalettedContainer)
        ensures
            *container == old(self).biome_cells(),
            final(self).biome_cells() == *final(container),
            final(self).blocks() == old(self).blocks(),
    {
        &mut self.biomes
    }

    /// Number of non-air blocks, the value the wire format carries.
    #[must_use]
    pub fn non_air_count(&self, states: &BlockStates) -> (count: u16)
        requires
            self.wf(),
        ensures
            count == non_air(self.blocks()@, states.air),
            count <= SECTION_VOLUME,
    {
        let solid = |id: u32| -> (solid: bool)
            ensures
                solid == (id != states.air),
        {
            !states.is_air(id)
        };
        let ghost holds = |id: u32| id != states.air;
        let count: usize = self.block_states.count(solid);
        proof {
            assert(palette::decides(solid, holds));
            law_empty_is_all_air(self.blocks()@, states.air);
        }
        count as u16
    }

    /// True when the section holds nothing but air, and so can be skipped.
    #[must_use]
    pub fn is_empty(&self, states: &BlockStates) -> (empty: bool)
        requires
            self.wf(),
        ensures
            empty <==> forall|i: int|
                0 <= i < self.blocks()@.len() ==> #[trigger] self.blocks()@[i] == states.air,
    {
        proof {
            law_empty_is_all_air(self.blocks()@, states.air);
        }
        self.non_air_count(states) == 0
    }

    /// Recomputes the minimal representation for both containers.
    pub fn shrink(&mut self)
        requires
            old(self).wf(),
        ensures
            final(self).wf(),
            final(self).blocks()@ == old(self).blocks()@,
            final(self).blocks().id_bits() == old(self).blocks().id_bits(),
            final(self).blocks().form() == palette::after_shrink(
                ContainerKind::Blocks,
                old(self).blocks().id_bits(),
                old(self).blocks().form(),
            ),
            final(self).biome_cells()@ == old(self).biome_cells()@,
            final(self).biome_cells().id_bits() == old(self).biome_cells().id_bits(),
            final(self).biome_cells().form() == palette::after_shrink(
                ContainerKind::Biomes,
                old(self).biome_cells().id_bits(),
                old(self).biome_cells().form(),
            ),
    {
        self.block_states.shrink();
        self.biomes.shrink();
    }

    /// Writes the section in the chunk-data wire format: non-air count, then
    /// the block and biome containers.
    pub fn write<W: PacketWrite>(&self, states: &BlockStates, out: &mut W)
        requires
            self.wf(),
        ensures
            final(out).written() == old(out).written() + section_bytes(*self, states.air),
    {
        out.write_u16(self.non_air_count(states));
        self.block_states.write(out);
        self.biomes.write(out);
        assert(out.written() =~= old(out).written() + section_bytes(*self, states.air));
    }

    /// Bytes [`ChunkSection::write`] will produce.
    #[must_use]
    pub fn wire_len(&self) -> (len: usize)
        requires
            self.wf(),
        ensures
            forall|air: u32| len == (#[trigger] section_bytes(*self, air)).len(),
            len <= 100_000,
    {
        2 + self.block_states.wire_len() + self.biomes.wire_len()
    }
}

/// The two heightmaps the client needs.
#[derive(Debug, PartialEq, Eq)]
pub struct Heightmaps {
    /// Highest block that blocks motion, per column.
    pub motion_blocking: BitStorage,
    /// Highest non-air block, per column.
    pub world_surface: BitStorage,
}

/// A heightmap has one value for each column, wide enough for the world.
pub open spec fn map_wf(map: BitStorage, limits: HeightLimits) -> bool {
    map.wf() && map.count() == COLUMNS && map.width() == map_bits(limits)
}

/// Cells as the signed numbers of a long array.
pub open spec fn signed_cells(cells: Seq<u64>) -> Seq<i64> {
    Seq::new(cells.len(), |i: int| cells[i] as i64)
}

fn signed(cells: &[u64]) -> (signed: Vec<i64>)
    ensures
        signed@ == signed_cells(cells@),
{
    let mut signed: Vec<i64> = Vec::with_capacity(cells.len());
    let mut i: usize = 0;
    while i < cells.len()
        invariant
            i <= cells@.len(),
            signed@ == signed_cells(cells@.take(i as int)),
        decreases cells@.len() - i,
    {
        signed.push(cells[i] as i64);
        assert(signed@ =~= signed_cells(cells@.take(i + 1)));
        i += 1;
    }
    assert(cells@.take(i as int) =~= cells@);
    signed
}

impl Clone for Heightmaps {
    fn clone(&self) -> (copy: Self)
        ensures
            copy.same(*self),
    {
        Heightmaps {
            motion_blocking: self.motion_blocking.clone(),
            world_surface: self.world_surface.clone(),
        }
    }
}

impl Heightmaps {
    /// The heightmaps as a chunk names them.
    pub open spec fn entries(&self) -> Seq<(Seq<char>, NbtValue)> {
        seq![
            (
                "MOTION_BLOCKING"@,
                NbtValue::LongArray(signed_cells(self.motion_blocking.cells())),
            ),
            ("WORLD_SURFACE"@, NbtValue::LongArray(signed_cells(self.world_surface.cells()))),
        ]
    }

    /// Two pairs of heightmaps hold the same heights in the same cells.
    pub open spec fn same(&self, other: Heightmaps) -> bool {
        &&& self.motion_blocking.same(other.motion_blocking)
        &&& self.world_surface.same(other.world_surface)
    }

    pub open spec fn wf(&self, limits: HeightLimits) -> bool {
        map_wf(self.motion_blocking, limits) && map_wf(self.world_surface, limits)
    }

    #[must_use]
    pub fn new(limits: HeightLimits) -> (maps: Self)
        requires
            limits.height < usize::MAX,
        ensures
            maps.wf(limits),
            maps.motion_blocking@ == Seq::new(COLUMNS as nat, |i: int| 0u32),
            maps.world_surface@ == Seq::new(COLUMNS as nat, |i: int| 0u32),
            maps.motion_blocking.cells() == bitstorage::zero_cells(
                COLUMNS as int,
                map_bits(limits),
            ),
            maps.world_surface.cells() == bitstorage::zero_cells(
                COLUMNS as int,
                map_bits(limits),
            ),
    {
        let bits: u32 = limits.heightmap_bits();
        Heightmaps {
            motion_blocking: BitStorage::new(COLUMNS, bits),
            world_surface: BitStorage::new(COLUMNS, bits),
        }
    }

    /// Serializes to the NBT compound carried in chunk data.
    #[must_use]
    pub fn to_nbt(&self) -> (tag: NbtTag)
        ensures
            tag@ == NbtValue::Compound(
                seq![
                    (
                        "MOTION_BLOCKING"@,
                        NbtValue::LongArray(signed_cells(self.motion_blocking.cells())),
                    ),
                    (
                        "WORLD_SURFACE"@,
                        NbtValue::LongArray(signed_cells(self.world_surface.cells())),
                    ),
                ],
            ),
            tag@ == NbtValue::Compound(self.entries()),
    {
        let mut compound = NbtCompound::with_capacity(2);
        let motion = NbtTag::LongArray(signed(self.motion_blocking.data()));
        let surface = NbtTag::LongArray(signed(self.world_surface.data()));
        let ghost values = (motion@, surface@);
        compound.put("MOTION_BLOCKING".to_owned(), motion);
        let ghost first = compound@;
        compound.put("WORLD_SURFACE".to_owned(), surface);
        proof {
            reveal_strlit("MOTION_BLOCKING");
            reveal_strlit("WORLD_SURFACE");
            assert("MOTION_BLOCKING"@.len() != "WORLD_SURFACE"@.len());
            assert(first =~= seq![("MOTION_BLOCKING"@, values.0)]);
            assert(first.skip(1) =~= Seq::<(Seq<char>, NbtValue)>::empty());
            assert(nbt::key_index(first.skip(1), "WORLD_SURFACE"@) == 0);
            assert(nbt::key_index(first, "WORLD_SURFACE"@) == 1);
            assert(compound@ =~= seq![
                ("MOTION_BLOCKING"@, values.0),
                ("WORLD_SURFACE"@, values.1),
            ]);
        }
        NbtTag::Compound(compound)
    }
}

/// Each heightmap stands under its own name, cell by cell, and there is nothing
/// else.
pub proof fn law_heightmaps_are_named(maps: Heightmaps, key: Seq<char>, i: int)
    ensures
        ({
            let entries = maps.entries();
            let motion = nbt::key_index(entries, "MOTION_BLOCKING"@) as int;
            let surface = nbt::key_index(entries, "WORLD_SURFACE"@) as int;
            &&& motion < entries.len() && surface < entries.len()
            &&& entries[motion].1 matches NbtValue::LongArray(cells) && {
                &&& cells.len() == maps.motion_blocking.cells().len()
                &&& 0 <= i < cells.len() ==> cells[i] == maps.motion_blocking.cells()[i] as i64
            }
            &&& entries[surface].1 matches NbtValue::LongArray(cells) && {
                &&& cells.len() == maps.world_surface.cells().len()
                &&& 0 <= i < cells.len() ==> cells[i] == maps.world_surface.cells()[i] as i64
            }
            &&& key != "MOTION_BLOCKING"@ && key != "WORLD_SURFACE"@ ==> nbt::key_index(
                entries,
                key,
            ) == entries.len()
        }),
{
    reveal_strlit("MOTION_BLOCKING");
    reveal_strlit("WORLD_SURFACE");
    assert("MOTION_BLOCKING"@.len() != "WORLD_SURFACE"@.len());
    let entries = maps.entries();
    let rest = entries.skip(1);
    let none = rest.skip(1);
    assert(none.len() == 0);
    assert(rest[0] == entries[1]);
    reveal_with_fuel(nbt::key_index, 3);
}

/// The block of a column `y` blocks above the bottom of the world.
pub open spec fn layer_block(sections: Seq<ChunkSection>, y: int, column: int) -> u32 {
    sections[y / 16].blocks()@[y % 16 * 256 + column]
}

/// One above the highest block below `level` that is not air, or zero.
pub open spec fn top_below(sections: Seq<ChunkSection>, air: u32, column: int, level: nat) -> nat
    decreases level,
{
    if level == 0 {
        0
    } else if layer_block(sections, level - 1, column) != air {
        level
    } else {
        top_below(sections, air, column, (level - 1) as nat)
    }
}

/// One above the highest block of a column that is not air, or zero where the
/// column has nothing in it.
pub open spec fn column_height(sections: Seq<ChunkSection>, air: u32, column: int) -> nat {
    top_below(sections, air, column, 16 * sections.len())
}

/// The height of every column.
pub open spec fn heights(sections: Seq<ChunkSection>, air: u32) -> Seq<u32> {
    Seq::new(COLUMNS as nat, |column: int| column_height(sections, air, column) as u32)
}

/// The recorded height is one above the highest block: the block below it is
/// not air, and everything from it upwards is.
pub proof fn law_column_height(sections: Seq<ChunkSection>, air: u32, column: int)
    ensures
        ({
            let height = column_height(sections, air, column);
            &&& height <= 16 * sections.len()
            &&& height > 0 ==> layer_block(sections, height - 1, column) != air
            &&& forall|y: int|
                height <= y < 16 * sections.len() ==> #[trigger] layer_block(sections, y, column)
                    == air
        }),
{
    lemma_top_below(sections, air, column, 16 * sections.len());
}

proof fn lemma_top_below(sections: Seq<ChunkSection>, air: u32, column: int, level: nat)
    ensures
        ({
            let height = top_below(sections, air, column, level);
            &&& height <= level
            &&& height > 0 ==> layer_block(sections, height - 1, column) != air
            &&& forall|y: int|
                height <= y < level ==> #[trigger] layer_block(sections, y, column) == air
        }),
    decreases level,
{
    if level > 0 {
        lemma_top_below(sections, air, column, (level - 1) as nat);
    }
}

/// A section of air lowers the level without finding anything.
proof fn lemma_skip_section(
    sections: Seq<ChunkSection>,
    air: u32,
    column: int,
    index: int,
    layers: nat,
)
    requires
        0 <= index < sections.len(),
        0 <= column < COLUMNS,
        layers <= 16,
        sections[index].blocks()@.len() == SECTION_VOLUME,
        forall|i: int|
            0 <= i < sections[index].blocks()@.len() ==> #[trigger] sections[index].blocks()@[i]
                == air,
    ensures
        top_below(sections, air, column, (16 * index + layers) as nat) == top_below(
            sections,
            air,
            column,
            (16 * index) as nat,
        ),
    decreases layers,
{
    if layers > 0 {
        let y = 16 * index + layers - 1;
        assert(y / 16 == index && y % 16 == layers - 1);
        assert(sections[index].blocks()@[y % 16 * 256 + column] == air);
        lemma_skip_section(sections, air, column, index, (layers - 1) as nat);
    }
}

/// What is known of a column after the scan has come down to `level`: its
/// height once it is found, and that nothing was found above otherwise.
spec fn settled(
    sections: Seq<ChunkSection>,
    air: u32,
    found: u32,
    column: int,
    level: nat,
) -> bool {
    if found != 0 {
        found == column_height(sections, air, column)
    } else {
        column_height(sections, air, column) == top_below(sections, air, column, level)
    }
}

/// How many columns have no height yet.
spec fn missing(found: Seq<u32>) -> nat {
    palette::count_where(found, |height: u32| height == 0)
}

proof fn lemma_missing_update(found: Seq<u32>, column: int, height: u32)
    requires
        0 <= column < found.len(),
        found[column] == 0,
        height != 0,
    ensures
        missing(found) > 0,
        missing(found.update(column, height)) == missing(found) - 1,
    decreases found.len(),
{
    let last = found.len() - 1;
    let before = found.drop_last();
    if column == last {
        assert(found.update(column, height).drop_last() =~= before);
    } else {
        lemma_missing_update(before, column, height);
        assert(found.update(column, height).drop_last() =~= before.update(column, height));
    }
}

proof fn lemma_missing_none(found: Seq<u32>)
    requires
        missing(found) == 0,
    ensures
        forall|i: int| 0 <= i < found.len() ==> #[trigger] found[i] != 0,
    decreases found.len(),
{
    if found.len() > 0 {
        let before = found.drop_last();
        lemma_missing_none(before);
        assert forall|i: int| 0 <= i < found.len() implies #[trigger] found[i] != 0 by {
            if i < before.len() {
                assert(before[i] != 0);
            }
        }
    }
}

/// A chunk column.
#[derive(Debug, PartialEq, Eq)]
pub struct Chunk {
    pos: ChunkPos,
    limits: HeightLimits,
    sections: Vec<ChunkSection>,
    heightmaps: Heightmaps,
}

/// Every section in the chunk-data wire format, from the bottom up.
pub open spec fn sections_bytes(sections: Seq<ChunkSection>, air: u32) -> Seq<u8>
    decreases sections.len(),
{
    if sections.len() == 0 {
        Seq::empty()
    } else {
        sections_bytes(sections.drop_last(), air) + section_bytes(sections.last(), air)
    }
}

/// The block at a place of a column of sections, air outside the world.
pub open spec fn block_of(
    sections: Seq<ChunkSection>,
    limits: HeightLimits,
    x: usize,
    y: int,
    z: usize,
    air: u32,
) -> u32 {
    if limits.holds(y) {
        let offset = y - limits.min_y;
        sections[offset / 16].blocks()@[block_index(x, (offset % 16) as usize, z) as int]
    } else {
        air
    }
}

impl Clone for Chunk {
    fn clone(&self) -> (copy: Self)
        ensures
            copy.same(*self),
            self.wf() ==> copy.wf(),
    {
        let mut sections: Vec<ChunkSection> = Vec::with_capacity(self.sections.len());
        let mut i: usize = 0;
        while i < self.sections.len()
            invariant
                i <= self.sections@.len(),
                sections@.len() == i,
                forall|k: int| 0 <= k < i ==> (#[trigger] sections@[k]).same(self.sections@[k]),
            decreases self.sections@.len() - i,
        {
            sections.push(self.sections[i].clone());
            i += 1;
        }
        let copy = Chunk {
            pos: self.pos,
            limits: self.limits,
            sections,
            heightmaps: self.heightmaps.clone(),
        };
        proof {
            assert forall|k: int| 0 <= k < copy.stack().len() implies (
            #[trigger] copy.stack()[k]).same(self.stack()[k]) by {}
            if self.wf() {
                assert forall|k: int| 0 <= k < copy.stack().len() implies (
                #[trigger] copy.stack()[k]).wf() by {
                    assert(self.stack()[k].wf());
                }
            }
        }
        copy
    }
}

impl Chunk {
    /// Two chunks lie at the same place of worlds of the same height, and hold
    /// the same in the same representation.
    pub open spec fn same(&self, other: Chunk) -> bool {
        &&& self.place() == other.place()
        &&& self.extent() == other.extent()
        &&& self.stack().len() == other.stack().len()
        &&& forall|i: int|
            0 <= i < self.stack().len() ==> (#[trigger] self.stack()[i]).same(other.stack()[i])
        &&& self.maps().same(other.maps())
    }

    /// Where the chunk lies.
    pub closed spec fn place(&self) -> ChunkPos {
        self.pos
    }

    /// The vertical extent of the chunk.
    pub closed spec fn extent(&self) -> HeightLimits {
        self.limits
    }

    /// The sections from the bottom up.
    pub closed spec fn stack(&self) -> Seq<ChunkSection> {
        self.sections@
    }

    /// The heightmaps as last recomputed.
    pub closed spec fn maps(&self) -> Heightmaps {
        self.heightmaps
    }

    /// There is a section for every sixteen blocks of height, each section is
    /// well formed, and so are the heightmaps.
    pub open spec fn wf(&self) -> bool {
        &&& self.stack().len() == self.extent().height as int / 16
        &&& forall|i: int| 0 <= i < self.stack().len() ==> (#[trigger] self.stack()[i]).wf()
        &&& self.maps().wf(self.extent())
    }

    /// The section that holds `y` exists, and the index of the block within it
    /// is one.
    pub open spec fn reaches(&self, x: usize, y: int, z: usize) -> bool {
        &&& self.extent().bounded()
        &&& self.extent().holds(y) ==> {
            let offset = y - self.extent().min_y;
            &&& offset / 16 < self.stack().len()
            &&& block_index(x, (offset % 16) as usize, z) < SECTION_VOLUME
        }
    }

    /// An entirely air-filled column.
    #[must_use]
    pub fn empty(pos: ChunkPos, limits: HeightLimits, states: &BlockStates) -> (chunk: Self)
        requires
            limits.height < usize::MAX,
        ensures
            chunk.wf(),
            chunk.place() == pos,
            chunk.extent() == limits,
            forall|i: int| 0 <= i < chunk.stack().len() ==> air_section(
                #[trigger] chunk.stack()[i],
                *states,
            ),
            zero_maps(chunk.maps(), limits),
    {
        let count: usize = limits.section_count();
        let mut sections: Vec<ChunkSection> = Vec::with_capacity(count);
        let mut i: usize = 0;
        while i < count
            invariant
                i <= count,
                sections@.len() == i,
                forall|k: int| 0 <= k < i ==> (#[trigger] sections@[k]).wf() && air_section(
                    sections@[k],
                    *states,
                ),
            decreases count - i,
        {
            sections.push(ChunkSection::filled(states, states.air, 0));
            i += 1;
        }
        Chunk { pos, limits, sections, heightmaps: Heightmaps::new(limits) }
    }

    #[must_use]
    pub fn pos(&self) -> (pos: ChunkPos)
        ensures
            pos == self.place(),
    {
        self.pos
    }

    #[must_use]
    pub fn limits(&self) -> (limits: HeightLimits)
        ensures
            limits == self.extent(),
    {
        self.limits
    }

    #[must_use]
    pub fn sections(&self) -> (sections: &[ChunkSection])
        ensures
            sections@ == self.stack(),
    {
        self.sections.as_slice()
    }

    #[must_use]
    pub fn heightmaps(&self) -> (maps: &Heightmaps)
        ensures
            *maps == self.maps(),
    {
        &self.heightmaps
    }

    /// Section holding absolute height `y`, and the layer within it, if within
    /// the world.
    #[inline]
    fn section_of(&self, y: i32) -> (found: Option<(usize, usize)>)
        requires
            self.extent().bounded(),
        ensures
            found is Some <==> self.extent().holds(y as int),
            found matches Some((index, layer)) ==> index == (y - self.extent().min_y) / 16 && layer
                == (y - self.extent().min_y) % 16,
    {
        if !self.limits.contains(y) {
            return None;
        }
        let offset: usize = (y - self.limits.min_y) as usize;
        Some((offset / 16, offset % 16))
    }

    /// Reads a block by chunk-local X/Z and absolute Y.
    ///
    /// Out-of-range heights read as air, matching how the game treats the void
    /// and the space above build height.
    #[must_use]
    pub fn block(&self, x: usize, y: i32, z: usize, states: &BlockStates) -> (state: u32)
        requires
            self.wf(),
            self.reaches(x, y as int, z),
        ensures
            state == block_of(self.stack(), self.extent(), x, y as int, z, states.air),
    {
        match self.section_of(y) {
            Some((index, layer)) => {
                assert(self.stack()[index as int].wf());
                self.sections[index].block(x, layer, z)
            },
            None => states.air,
        }
    }

    /// Writes a block, returning the previous state. Out-of-range writes are
    /// ignored and report air.
    pub fn set_block(
        &mut self,
        x: usize,
        y: i32,
        z: usize,
        state: u32,
        states: &BlockStates,
    ) -> (previous: u32)
        requires
            old(self).wf(),
            old(self).reaches(x, y as int, z),
            old(self).extent().holds(y as int) ==> old(self).stack()[(y - old(self).extent().min_y)
                / 16].blocks().takes(state),
        ensures
            final(self).wf(),
            final(self).place() == old(self).place(),
            final(self).extent() == old(self).extent(),
            final(self).maps() == old(self).maps(),
            previous == block_of(
                old(self).stack(),
                old(self).extent(),
                x,
                y as int,
                z,
                states.air,
            ),
            !old(self).extent().holds(y as int) ==> final(self).stack() == old(self).stack(),
            old(self).extent().holds(y as int) ==> block_written(
                old(self).stack(),
                final(self).stack(),
                old(self).extent(),
                x,
                y as int,
                z,
                state,
            ),
    {
        match self.section_of(y) {
            Some((index, layer)) => {
                assert(self.stack()[index as int].wf());
                let section = &mut self.sections[index];
                let previous: u32 = section.set_block(x, layer, z, state);
                assert(forall|i: int|
                    0 <= i < self.stack().len() && i != index ==> (#[trigger] self.stack()[i])
                        == old(self).stack()[i]);
                previous
            },
            None => states.air,
        }
    }

    pub fn section_mut(&mut self, index: usize) -> (section: Option<&mut ChunkSection>)
        ensures
            section is Some <==> index < old(self).stack().len(),
            final(self).place() == old(self).place(),
            final(self).extent() == old(self).extent(),
            final(self).maps() == old(self).maps(),
            match section {
                Some(s) => *s == old(self).stack()[index as int] && final(self).stack() == old(
                    self,
                ).stack().update(index as int, *final(s)),
                None => final(self).stack() == old(self).stack(),
            },
    {
        if index < self.sections.len() {
            Some(&mut self.sections[index])
        } else {
            None
        }
    }

    /// The height of every column, found by scanning downwards.
    ///
    /// Walks sections from the top down. An all-air section resolves nothing,
    /// and its emptiness is one question for a single-value container, so the
    /// tall empty stack above the surface costs one check per section instead
    /// of 16 reads per column.
    fn scan_heights(&self, states: &BlockStates) -> (found: Vec<u32>)
        requires
            self.wf(),
        ensures
            found@ == heights(self.stack(), states.air),
            forall|c: int| 0 <= c < COLUMNS ==> #[trigger] found@[c] <= self.extent().height,
    {
        // Heights are recorded as "one above the highest block", so a block at
        // the bottom reports 1 and a column with nothing in it reports 0. Zero
        // therefore doubles as "not yet resolved".
        let mut found: Vec<u32> = Vec::with_capacity(COLUMNS);
        let mut c: usize = 0;
        while c < COLUMNS
            invariant
                c <= COLUMNS,
                found@ == Seq::new(c as nat, |i: int| 0u32),
                missing(found@) == c,
            decreases COLUMNS - c,
        {
            found.push(0);
            assert(found@.drop_last() =~= Seq::new(c as nat, |i: int| 0u32));
            assert(found@ =~= Seq::new((c + 1) as nat, |i: int| 0u32));
            c += 1;
        }
        let mut unresolved: usize = COLUMNS;
        let mut index: usize = self.sections.len();
        while index > 0 && unresolved > 0
            invariant
                self.wf(),
                index <= self.stack().len(),
                found@.len() == COLUMNS,
                unresolved == missing(found@),
                forall|c: int| 0 <= c < COLUMNS ==> settled(
                    self.stack(),
                    states.air,
                    #[trigger] found@[c],
                    c,
                    (16 * index) as nat,
                ),
            decreases index,
        {
            index -= 1;
            let section = &self.sections[index];
            assert(*section == self.stack()[index as int] && section.wf());
            proof {
                section.blocks().lemma_wf();
            }
            if section.is_empty(states) {
                assert forall|c: int| 0 <= c < COLUMNS implies settled(
                    self.stack(),
                    states.air,
                    #[trigger] found@[c],
                    c,
                    (16 * index) as nat,
                ) by {
                    lemma_skip_section(self.stack(), states.air, c, index as int, 16);
                }
            } else {
                let ghost before = found@;
                unresolved = scan_section(
                    section,
                    index,
                    states,
                    &mut found,
                    unresolved,
                    Ghost(self.stack()),
                );
                proof {
                    if unresolved == 0 {
                        lemma_missing_none(found@);
                    }
                }
            }
        }
        proof {
            if unresolved == 0 {
                lemma_missing_none(found@);
            }
            assert forall|c: int| 0 <= c < COLUMNS implies #[trigger] found@[c] == column_height(
                self.stack(),
                states.air,
                c,
            ) && found@[c] <= self.extent().height by {
                assert(settled(self.stack(), states.air, found@[c], c, (16 * index) as nat));
                law_column_height(self.stack(), states.air, c);
            }
            assert(found@ =~= heights(self.stack(), states.air));
        }
        found
    }

    /// Recomputes both heightmaps from the current block data.
    pub fn recompute_heightmaps(&mut self, states: &BlockStates)
        requires
            old(self).wf(),
        ensures
            final(self).wf(),
            final(self).place() == old(self).place(),
            final(self).extent() == old(self).extent(),
            final(self).stack() == old(self).stack(),
            final(self).maps().motion_blocking@ == heights(old(self).stack(), states.air),
            final(self).maps().world_surface@ == heights(old(self).stack(), states.air),
            final(self).maps().motion_blocking.cells() == bitstorage::packed_over(
                old(self).maps().motion_blocking.cells(),
                heights(old(self).stack(), states.air),
                map_bits(old(self).extent()),
            ),
            final(self).maps().world_surface.cells() == bitstorage::packed_over(
                old(self).maps().world_surface.cells(),
                heights(old(self).stack(), states.air),
                map_bits(old(self).extent()),
            ),
    {
        let found = self.scan_heights(states);
        proof {
            lemma_map_bits(self.limits);
        }
        write_heights(&mut self.heightmaps.motion_blocking, &found, Ghost(self.limits));
        write_heights(&mut self.heightmaps.world_surface, &found, Ghost(self.limits));
    }

    /// Recomputes the minimal representation for every section.
    pub fn shrink(&mut self)
        requires
            old(self).wf(),
        ensures
            final(self).wf(),
            final(self).place() == old(self).place(),
            final(self).extent() == old(self).extent(),
            final(self).maps() == old(self).maps(),
            final(self).stack().len() == old(self).stack().len(),
            forall|i: int| 0 <= i < old(self).stack().len() ==> shrunk(
                old(self).stack()[i],
                #[trigger] final(self).stack()[i],
            ),
    {
        let mut i: usize = 0;
        while i < self.sections.len()
            invariant
                self.wf(),
                self.place() == old(self).place(),
                self.extent() == old(self).extent(),
                self.maps() == old(self).maps(),
                i <= self.stack().len(),
                self.stack().len() == old(self).stack().len(),
                forall|k: int| 0 <= k < i ==> shrunk(
                    old(self).stack()[k],
                    #[trigger] self.stack()[k],
                ),
                forall|k: int| i <= k < self.stack().len() ==> #[trigger] self.stack()[k] == old(
                    self,
                ).stack()[k],
            decreases self.stack().len() - i,
        {
            assert(self.stack()[i as int].wf());
            let ghost before = self.stack();
            self.sections[i].shrink();
            assert(forall|k: int|
                0 <= k < self.stack().len() && k != i ==> #[trigger] self.stack()[k] == before[k]);
            i += 1;
        }
    }

    /// Writes the section array carried in chunk data.
    ///
    /// This is the part of the chunk packet whose layout has been stable across
    /// releases; the surrounding envelope is assembled by the server.
    pub fn write_sections(&self, states: &BlockStates, out: &mut Vec<u8>)
        requires
            self.wf(),
        ensures
            final(out)@ == old(out)@ + sections_bytes(self.stack(), states.air),
    {
        let ghost all = self.stack();
        let mut i: usize = 0;
        assert(out@ =~= old(out)@ + sections_bytes(all.take(0), states.air));
        while i < self.sections.len()
            invariant
                self.wf(),
                all == self.stack(),
                i <= all.len(),
                out@ == old(out)@ + sections_bytes(all.take(i as int), states.air),
            decreases all.len() - i,
        {
            assert(self.stack()[i as int].wf());
            self.sections[i].write(states, out);
            assert(all.take(i + 1).drop_last() =~= all.take(i as int));
            assert(out@ =~= old(out)@ + sections_bytes(all.take(i + 1), states.air));
            i += 1;
        }
        assert(all.take(i as int) =~= all);
    }

    /// Bytes [`Chunk::write_sections`] will produce.
    #[must_use]
    pub fn sections_wire_len(&self) -> (len: usize)
        requires
            self.wf(),
            sections_bytes(self.stack(), 0).len() <= usize::MAX,
        ensures
            forall|air: u32| len == (#[trigger] sections_bytes(self.stack(), air)).len(),
    {
        let ghost all = self.stack();
        let mut total: usize = 0;
        let mut i: usize = 0;
        while i < self.sections.len()
            invariant
                self.wf(),
                all == self.stack(),
                i <= all.len(),
                sections_bytes(all, 0).len() <= usize::MAX,
                forall|air: u32|
                    total == (#[trigger] sections_bytes(all.take(i as int), air)).len(),
            decreases all.len() - i,
        {
            assert(self.stack()[i as int].wf());
            let len: usize = self.sections[i].wire_len();
            proof {
                let next = all.take(i + 1);
                assert(next.drop_last() =~= all.take(i as int));
                lemma_sections_bytes_grow(all, i + 1);
                assert(total == sections_bytes(all.take(i as int), 0).len());
                assert(len == section_bytes(next.last(), 0).len());
            }
            total += len;
            assert forall|air: u32| total == (#[trigger] sections_bytes(
                all.take(i + 1),
                air,
            )).len() by {
                assert(total - len == sections_bytes(all.take(i as int), air).len());
                assert(len == section_bytes(all.take(i + 1).last(), air).len());
            }
            i += 1;
        }
        assert(all.take(i as int) =~= all);
        total
    }
}

proof fn lemma_sections_bytes_grow(sections: Seq<ChunkSection>, n: int)
    requires
        0 <= n <= sections.len(),
    ensures
        sections_bytes(sections.take(n), 0).len() <= sections_bytes(sections, 0).len(),
    decreases sections.len() - n,
{
    if n == sections.len() {
        assert(sections.take(n) =~= sections);
    } else {
        assert(sections.take(n + 1).drop_last() =~= sections.take(n));
        lemma_sections_bytes_grow(sections, n + 1);
    }
}

/// A section of nothing but air, in its cheapest form.
pub open spec fn air_section(section: ChunkSection, states: BlockStates) -> bool {
    &&& section.blocks().form() == Form::Single(states.air)
    &&& section.blocks().id_bits() == palette::index_bits(states.total_states as nat)
    &&& section.biome_cells().form() == Form::Single(0)
    &&& section.biome_cells().id_bits() == BIOME_BITS
}

/// Heightmaps of columns with nothing in them.
pub open spec fn zero_maps(maps: Heightmaps, limits: HeightLimits) -> bool {
    &&& maps.motion_blocking.cells() == bitstorage::zero_cells(COLUMNS as int, map_bits(limits))
    &&& maps.world_surface.cells() == bitstorage::zero_cells(COLUMNS as int, map_bits(limits))
    &&& maps.motion_blocking@ == Seq::new(COLUMNS as nat, |i: int| 0u32)
    &&& maps.world_surface@ == Seq::new(COLUMNS as nat, |i: int| 0u32)
}

/// The section that holds `y` was written to, at one place, and no other.
pub open spec fn block_written(
    before: Seq<ChunkSection>,
    after: Seq<ChunkSection>,
    limits: HeightLimits,
    x: usize,
    y: int,
    z: usize,
    state: u32,
) -> bool {
    let offset = y - limits.min_y;
    let index = offset / 16;
    let place = block_index(x, (offset % 16) as usize, z) as int;
    &&& after.len() == before.len()
    &&& forall|i: int| 0 <= i < before.len() && i != index ==> #[trigger] after[i] == before[i]
    &&& after[index].blocks()@ == before[index].blocks()@.update(place, state)
    &&& after[index].blocks().id_bits() == before[index].blocks().id_bits()
    &&& after[index].blocks().form() == palette::after_set(
        ContainerKind::Blocks,
        before[index].blocks().id_bits(),
        before[index].blocks().form(),
        place,
        state,
    )
    &&& after[index].biome_cells() == before[index].biome_cells()
}

/// A section with the same contents in their narrowest form.
pub open spec fn shrunk(before: ChunkSection, after: ChunkSection) -> bool {
    &&& after.blocks()@ == before.blocks()@
    &&& after.blocks().id_bits() == before.blocks().id_bits()
    &&& after.blocks().form() == palette::after_shrink(
        ContainerKind::Blocks,
        before.blocks().id_bits(),
        before.blocks().form(),
    )
    &&& after.biome_cells()@ == before.biome_cells()@
    &&& after.biome_cells().id_bits() == before.biome_cells().id_bits()
    &&& after.biome_cells().form() == palette::after_shrink(
        ContainerKind::Biomes,
        before.biome_cells().id_bits(),
        before.biome_cells().form(),
    )
}

/// Scans one section downwards for the columns that have no height yet, and
/// returns how many still have none.
fn scan_section(
    section: &ChunkSection,
    index: usize,
    states: &BlockStates,
    found: &mut Vec<u32>,
    unresolved: usize,
    Ghost(stack): Ghost<Seq<ChunkSection>>,
) -> (left: usize)
    requires
        index < stack.len(),
        16 * stack.len() <= u32::MAX,
        *section == stack[index as int],
        section.wf(),
        old(found)@.len() == COLUMNS,
        unresolved == missing(old(found)@),
        forall|c: int| 0 <= c < COLUMNS ==> settled(
            stack,
            states.air,
            #[trigger] old(found)@[c],
            c,
            (16 * index + 16) as nat,
        ),
    ensures
        final(found)@.len() == COLUMNS,
        left == missing(final(found)@),
        left > 0 ==> forall|c: int| 0 <= c < COLUMNS ==> settled(
            stack,
            states.air,
            #[trigger] final(found)@[c],
            c,
            (16 * index) as nat,
        ),
        left == 0 ==> forall|c: int| 0 <= c < COLUMNS ==> #[trigger] final(found)@[c]
            == column_height(stack, states.air, c),
{
    let base: u32 = (index * SECTION_SIZE) as u32;
    let mut left: usize = unresolved;
    let mut layer: usize = SECTION_SIZE;
    proof {
        section.blocks().lemma_wf();
        if left == 0 {
            lemma_missing_none(found@);
        }
    }
    while layer > 0 && left > 0
        invariant
            layer <= SECTION_SIZE,
            base == 16 * index,
            index < stack.len(),
            16 * stack.len() <= u32::MAX,
            *section == stack[index as int],
            section.wf(),
            section.blocks()@.len() == SECTION_VOLUME,
            found@.len() == COLUMNS,
            left == missing(found@),
            forall|c: int| 0 <= c < COLUMNS ==> settled(
                stack,
                states.air,
                #[trigger] found@[c],
                c,
                (16 * index + layer) as nat,
            ),
        decreases layer,
    {
        layer -= 1;
        let ghost level = (16 * index + layer) as nat;
        let mut z: usize = 0;
        while z < SECTION_SIZE
            invariant
                z <= SECTION_SIZE,
                layer < SECTION_SIZE,
                level == 16 * index + layer,
                base == 16 * index,
                index < stack.len(),
                16 * stack.len() <= u32::MAX,
                *section == stack[index as int],
                section.wf(),
                section.blocks()@.len() == SECTION_VOLUME,
                found@.len() == COLUMNS,
                left == missing(found@),
                forall|c: int| 0 <= c < 16 * z ==> settled(
                    stack,
                    states.air,
                    #[trigger] found@[c],
                    c,
                    level,
                ),
                forall|c: int| 16 * z <= c < COLUMNS ==> settled(
                    stack,
                    states.air,
                    #[trigger] found@[c],
                    c,
                    level + 1,
                ),
            decreases SECTION_SIZE - z,
        {
            let mut x: usize = 0;
            while x < SECTION_SIZE
                invariant
                    x <= SECTION_SIZE,
                    z < SECTION_SIZE,
                    layer < SECTION_SIZE,
                    level == 16 * index + layer,
                    base == 16 * index,
                    index < stack.len(),
                    16 * stack.len() <= u32::MAX,
                    *section == stack[index as int],
                    section.wf(),
                    section.blocks()@.len() == SECTION_VOLUME,
                    found@.len() == COLUMNS,
                    left == missing(found@),
                    forall|c: int| 0 <= c < 16 * z + x ==> settled(
                        stack,
                        states.air,
                        #[trigger] found@[c],
                        c,
                        level,
                    ),
                    forall|c: int| 16 * z + x <= c < COLUMNS ==> settled(
                        stack,
                        states.air,
                        #[trigger] found@[c],
                        c,
                        level + 1,
                    ),
                decreases SECTION_SIZE - x,
            {
                let column: usize = z * SECTION_SIZE + x;
                let ghost before = found@;
                proof {
                    law_block_index(x, layer, z);
                    assert(level as int / 16 == index && level as int % 16 == layer);
                    assert(settled(stack, states.air, found@[column as int], column as int, level
                        + 1));
                    assert(layer_block(stack, level as int, column as int)
                        == section.blocks()@[block_index(x, layer, z) as int]);
                }
                // The first block found scanning downward wins, so a resolved
                // column is never revisited.
                if found[column] == 0 && !states.is_air(section.block(x, layer, z)) {
                    proof {
                        lemma_missing_update(found@, column as int, (level + 1) as u32);
                    }
                    found.set(column, base + layer as u32 + 1);
                    left -= 1;
                }
                assert(settled(stack, states.air, found@[column as int], column as int, level));
                assert(forall|c: int|
                    0 <= c < COLUMNS && c != column ==> #[trigger] found@[c] == before[c]);
                x += 1;
            }
            z += 1;
        }
    }
    proof {
        if left == 0 {
            lemma_missing_none(found@);
        }
    }
    left
}

/// Writes the height of every column into a heightmap.
fn write_heights(map: &mut BitStorage, found: &Vec<u32>, Ghost(limits): Ghost<HeightLimits>)
    requires
        map_wf(*old(map), limits),
        found@.len() == COLUMNS,
        forall|c: int| 0 <= c < COLUMNS ==> #[trigger] found@[c] <= bitstorage::mask_of(
            map_bits(limits),
        ),
    ensures
        map_wf(*final(map), limits),
        final(map)@ == found@,
        final(map).cells() == bitstorage::packed_over(
            old(map).cells(),
            found@,
            map_bits(limits),
        ),
{
    let ghost base = map.cells();
    let mut column: usize = 0;
    assert(found@.take(0) =~= Seq::<u32>::empty());
    while column < COLUMNS
        invariant
            column <= COLUMNS,
            map_wf(*map, limits),
            found@.len() == COLUMNS,
            forall|c: int| 0 <= c < COLUMNS ==> #[trigger] found@[c] <= bitstorage::mask_of(
                map_bits(limits),
            ),
            map@.len() == COLUMNS,
            forall|c: int| 0 <= c < column ==> #[trigger] map@[c] == found@[c],
            map.cells() == bitstorage::packed_over(
                base,
                found@.take(column as int),
                map_bits(limits),
            ),
        decreases COLUMNS - column,
    {
        let height: u32 = found[column];
        let _ = map.set(column, height);
        assert(found@.take(column + 1).drop_last() =~= found@.take(column as int));
        column += 1;
    }
    assert(found@.take(column as int) =~= found@);
    assert(map@ =~= found@);
}

/// A block that was written is read back, and every other block of the column
/// is the one that was there.
pub proof fn law_write_then_read(
    before: Seq<ChunkSection>,
    after: Seq<ChunkSection>,
    limits: HeightLimits,
    x: usize,
    y: int,
    z: usize,
    state: u32,
    other_x: usize,
    other_y: int,
    other_z: usize,
    air: u32,
)
    requires
        block_written(before, after, limits, x, y, z, state),
        limits.holds(y),
        x < 16 && z < 16 && other_x < 16 && other_z < 16,
        limits.holds(other_y) ==> (other_y - limits.min_y) / 16 < before.len(),
        (y - limits.min_y) / 16 < before.len(),
        before[(y - limits.min_y) / 16].blocks()@.len() == SECTION_VOLUME,
    ensures
        block_of(after, limits, other_x, other_y, other_z, air) == if (
            other_x,
            other_y,
            other_z,
        ) == (x, y, z) {
            state
        } else {
            block_of(before, limits, other_x, other_y, other_z, air)
        },
{
    let offset = y - limits.min_y;
    let other = other_y - limits.min_y;
    law_block_index(x, (offset % 16) as usize, z);
    if limits.holds(other_y) {
        law_block_index(other_x, (other % 16) as usize, other_z);
        if other / 16 != offset / 16 {
            assert(after[other / 16] == before[other / 16]);
        }
    }
}

/// Recomputing the heightmaps a second time changes no bit of them.
pub proof fn law_recompute_is_idempotent(
    cells: Seq<u64>,
    sections: Seq<ChunkSection>,
    limits: HeightLimits,
    air: u32,
)
    requires
        cells.len() == bitstorage::cells_for(COLUMNS as int, map_bits(limits)),
        sections.len() == limits.height as int / 16,
    ensures
        ({
            let bits = map_bits(limits);
            let once = bitstorage::packed_over(cells, heights(sections, air), bits);
            bitstorage::packed_over(once, heights(sections, air), bits) == once
        }),
{
    let bits = map_bits(limits);
    let found = heights(sections, air);
    let once = bitstorage::packed_over(cells, found, bits);
    lemma_map_bits(limits);
    assert forall|i: int| 0 <= i < found.len() implies #[trigger] found[i] <= bitstorage::mask_of(
        bits,
    ) by {
        law_column_height(sections, air, i);
    }
    assert forall|i: int| 0 <= i < found.len() implies #[trigger] found[i] == bitstorage::entry(
        once,
        bits,
        i,
    ) by {
        bitstorage::law_packed_over(cells, found, bits, COLUMNS as int, i);
    }
    bitstorage::law_packed_over(cells, found, bits, COLUMNS as int, 0);
    bitstorage::law_packed_over_same(once, found, bits, COLUMNS as int);
}

/// Columns of the same blocks have the same heights, in whatever form their
/// sections hold them.
pub proof fn law_heights_depend_on_blocks(
    a: Seq<ChunkSection>,
    b: Seq<ChunkSection>,
    air: u32,
)
    requires
        a.len() == b.len(),
        forall|i: int| 0 <= i < a.len() ==> (#[trigger] a[i]).blocks()@ == b[i].blocks()@,
    ensures
        heights(a, air) == heights(b, air),
{
    assert forall|c: int| 0 <= c < COLUMNS implies column_height(a, air, c) == column_height(
        b,
        air,
        c,
    ) by {
        lemma_same_tops(a, b, air, c, 16 * a.len());
    }
    assert(heights(a, air) =~= heights(b, air));
}

proof fn lemma_same_tops(
    a: Seq<ChunkSection>,
    b: Seq<ChunkSection>,
    air: u32,
    column: int,
    level: nat,
)
    requires
        a.len() == b.len(),
        level <= 16 * a.len(),
        forall|i: int| 0 <= i < a.len() ==> (#[trigger] a[i]).blocks()@ == b[i].blocks()@,
    ensures
        top_below(a, air, column, level) == top_below(b, air, column, level),
    decreases level,
{
    if level > 0 {
        lemma_same_tops(a, b, air, column, (level - 1) as nat);
        assert(a[(level - 1) / 16].blocks()@ == b[(level - 1) / 16].blocks()@);
    }
}

} // verus!
