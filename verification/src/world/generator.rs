//! Chunk generation.
//!
//! Only deterministic, cheap generators live here. Real terrain generation is
//! a separate concern that belongs behind this trait, not inside it.

use vstd::prelude::*;

use crate::protocol::types::ChunkPos;
use crate::world::bitstorage;
use crate::world::block::BlockStates;
use crate::world::chunk;
use crate::world::chunk::{Chunk, ChunkSection, HeightLimits, COLUMNS, SECTION_SIZE};
use crate::world::palette;
use crate::world::palette::{ContainerKind, Form};

verus! {

/// Produces chunks on demand.
pub trait ChunkGenerator: Send + Sync {
    /// The worlds that the generator can make chunks for.
    spec fn covers(&self, limits: HeightLimits, states: BlockStates) -> bool;

    /// What the generator makes at a place.
    spec fn makes(
        &self,
        pos: ChunkPos,
        limits: HeightLimits,
        states: BlockStates,
        chunk: Chunk,
    ) -> bool;

    fn generate(&self, pos: ChunkPos, limits: HeightLimits, states: &BlockStates) -> (chunk: Chunk)
        requires
            self.covers(limits, *states),
        ensures
            self.makes(pos, limits, *states, chunk),
    ;
}

/// An empty world.
#[derive(Debug, Clone, Copy)]
pub struct VoidGenerator;

impl Default for VoidGenerator {
    fn default() -> (generator: Self)
        ensures
            generator == VoidGenerator,
    {
        VoidGenerator
    }
}

impl ChunkGenerator for VoidGenerator {
    open spec fn covers(&self, limits: HeightLimits, states: BlockStates) -> bool {
        limits.height < usize::MAX
    }

    /// A column of nothing but air.
    open spec fn makes(
        &self,
        pos: ChunkPos,
        limits: HeightLimits,
        states: BlockStates,
        chunk: Chunk,
    ) -> bool {
        &&& chunk.wf() && chunk.place() == pos && chunk.extent() == limits
        &&& forall|i: int|
            0 <= i < chunk.stack().len() ==> chunk::air_section(#[trigger] chunk.stack()[i], states)
        &&& chunk::zero_maps(chunk.maps(), limits)
    }

    fn generate(&self, pos: ChunkPos, limits: HeightLimits, states: &BlockStates) -> (chunk:
        Chunk) {
        Chunk::empty(pos, limits, states)
    }
}

/// A superflat world: bedrock at the bottom, stone, then dirt and grass.
#[derive(Debug, Clone, Copy)]
pub struct FlatGenerator {
    /// Y of the topmost (grass) layer.
    pub surface_y: i32,
    /// How many dirt layers sit directly under the surface.
    pub dirt_depth: i32,
}

impl Default for FlatGenerator {
    fn default() -> (generator: Self)
        ensures
            generator.surface_y == -60,
            generator.dirt_depth == 2,
    {
        FlatGenerator { surface_y: -60, dirt_depth: 2 }
    }
}

impl FlatGenerator {
    /// The block that belongs at absolute height `y`.
    pub open spec fn layer(&self, y: int, limits: HeightLimits, states: BlockStates) -> u32 {
        if y == limits.min_y {
            states.bedrock
        } else if y == self.surface_y {
            states.grass_block
        } else if self.surface_y - self.dirt_depth <= y < self.surface_y {
            states.dirt
        } else if y < self.surface_y {
            states.stone
        } else {
            states.air
        }
    }

    /// Where the dirt starts is a machine integer, if it is ever asked for.
    pub open spec fn dirt_bounded(&self) -> bool {
        i32::MIN <= self.surface_y - self.dirt_depth <= i32::MAX
    }

    /// The block that belongs at absolute height `y`.
    pub fn block_at(&self, y: i32, limits: HeightLimits, states: &BlockStates) -> (state: u32)
        requires
            y != limits.min_y && y < self.surface_y ==> self.dirt_bounded(),
        ensures
            state == self.layer(y as int, limits, *states),
    {
        if y == limits.min_y {
            states.bedrock
        } else if y == self.surface_y {
            states.grass_block
        } else if y < self.surface_y && y >= self.surface_y - self.dirt_depth {
            states.dirt
        } else if y < self.surface_y {
            states.stone
        } else {
            states.air
        }
    }

    /// Whether the sixteen layers from `base` up are one block.
    pub open spec fn uniform(&self, base: int, limits: HeightLimits, states: BlockStates) -> bool {
        forall|k: int|
            0 <= k < 16 ==> #[trigger] self.layer(base + k, limits, states) == self.layer(
                base,
                limits,
                states,
            )
    }

    /// The representation of a section of air after the first `n` of its blocks
    /// have been laid in order. Layers of air are not written.
    pub open spec fn laid(
        &self,
        base: int,
        limits: HeightLimits,
        states: BlockStates,
        id_bits: u32,
        n: nat,
    ) -> Form
        decreases n,
    {
        if n == 0 {
            Form::Single(states.air)
        } else {
            let before = self.laid(base, limits, states, id_bits, (n - 1) as nat);
            let state = self.layer(base + (n - 1) / 256, limits, states);
            if state == states.air {
                before
            } else {
                palette::after_set(ContainerKind::Blocks, id_bits, before, n - 1, state)
            }
        }
    }

    /// The representation of the section whose lowest layer is `base`.
    pub open spec fn section_form(
        &self,
        base: int,
        limits: HeightLimits,
        states: BlockStates,
        id_bits: u32,
    ) -> Form {
        if self.uniform(base, limits, states) {
            Form::Single(self.layer(base, limits, states))
        } else {
            self.laid(base, limits, states, id_bits, 4096)
        }
    }

    /// Every block of a section is the one that belongs at its height, and the
    /// section is in its expected form.
    pub open spec fn section_made(
        &self,
        section: ChunkSection,
        base: int,
        limits: HeightLimits,
        states: BlockStates,
    ) -> bool {
        let id_bits = palette::index_bits(states.total_states as nat) as u32;
        &&& section.wf()
        &&& section.blocks()@ == Seq::new(
            4096,
            |i: int| self.layer(base + i / 256, limits, states),
        )
        &&& section.blocks().id_bits() == id_bits
        &&& section.blocks().form() == self.section_form(base, limits, states, id_bits)
        &&& section.biome_cells().form() == Form::Single(0)
        &&& section.biome_cells().id_bits() == chunk::BIOME_BITS
    }
}

impl ChunkGenerator for FlatGenerator {
    /// The world has a height that machine integers can count, and the dirt
    /// starts at one wherever there is a layer to ask it for.
    open spec fn covers(&self, limits: HeightLimits, states: BlockStates) -> bool {
        &&& limits.height <= i32::MAX && limits.height < usize::MAX
        &&& limits.min_y + 16 * (limits.height as int / 16) <= i32::MAX
        &&& limits.height >= 16 && limits.min_y + 1 < self.surface_y ==> self.dirt_bounded()
    }

    /// Every section holds what belongs at its height, and the heightmaps are
    /// those of the column.
    open spec fn makes(
        &self,
        pos: ChunkPos,
        limits: HeightLimits,
        states: BlockStates,
        chunk: Chunk,
    ) -> bool {
        let found = chunk::heights(chunk.stack(), states.air);
        let cells = bitstorage::packed(found, chunk::map_bits(limits), COLUMNS as int);
        &&& chunk.wf() && chunk.place() == pos && chunk.extent() == limits
        &&& forall|i: int|
            0 <= i < chunk.stack().len() ==> self.section_made(
                #[trigger] chunk.stack()[i],
                limits.min_y + 16 * i,
                limits,
                states,
            )
        &&& chunk.maps().motion_blocking@ == found && chunk.maps().world_surface@ == found
        &&& chunk.maps().motion_blocking.cells() == cells
        &&& chunk.maps().world_surface.cells() == cells
    }

    fn generate(&self, pos: ChunkPos, limits: HeightLimits, states: &BlockStates) -> (chunk:
        Chunk) {
        let mut chunk = Chunk::empty(pos, limits, states);
        let count: usize = limits.section_count();
        let mut index: usize = 0;
        while index < count
            invariant
                self.covers(limits, *states),
                count == limits.height as int / 16,
                index <= count,
                chunk.wf(),
                chunk.place() == pos,
                chunk.extent() == limits,
                chunk.stack().len() == count,
                chunk::zero_maps(chunk.maps(), limits),
                forall|i: int| index <= i < count ==> chunk::air_section(
                    #[trigger] chunk.stack()[i],
                    *states,
                ),
                forall|i: int| 0 <= i < index ==> self.section_made(
                    #[trigger] chunk.stack()[i],
                    limits.min_y + 16 * i,
                    limits,
                    *states,
                ),
            decreases count - index,
        {
            let base_y: i32 = limits.min_y + (index * SECTION_SIZE) as i32;
            let ghost before = chunk.stack();
            assert(before[index as int].wf());
            if let Some(section) = chunk.section_mut(index) {
                self.lay_section(section, base_y, limits, states);
            }
            assert(forall|i: int|
                0 <= i < count && i != index ==> #[trigger] chunk.stack()[i] == before[i]);
            index += 1;
        }
        chunk.recompute_heightmaps(states);
        chunk
    }
}

impl FlatGenerator {
    /// Lays the blocks of one section of air.
    ///
    /// A section whose whole range maps to one block is filled in one step
    /// instead of 4096 writes. In a superflat world that covers every section
    /// except the two or three around the surface.
    fn lay_section(
        &self,
        section: &mut ChunkSection,
        base_y: i32,
        limits: HeightLimits,
        states: &BlockStates,
    )
        requires
            old(section).wf(),
            chunk::air_section(*old(section), *states),
            limits.min_y <= base_y <= i32::MAX - 16,
            limits.min_y + 1 < self.surface_y ==> self.dirt_bounded(),
        ensures
            self.section_made(*final(section), base_y as int, limits, *states),
    {
        let first: u32 = self.block_at(base_y, limits, states);
        let mut same: usize = 0;
        while same < SECTION_SIZE && self.block_at(base_y + same as i32, limits, states) == first
            invariant
                same <= SECTION_SIZE,
                limits.min_y <= base_y <= i32::MAX - 16,
                limits.min_y + 1 < self.surface_y ==> self.dirt_bounded(),
                first == self.layer(base_y as int, limits, *states),
                forall|k: int| 0 <= k < same ==> #[trigger] self.layer(base_y + k, limits, *states)
                    == first,
            decreases SECTION_SIZE - same,
        {
            same += 1;
        }
        if same == SECTION_SIZE {
            section.fill_blocks(first);
            assert forall|i: int| 0 <= i < 4096 implies first == #[trigger] self.layer(
                base_y + i / 256,
                limits,
                *states,
            ) by {
                assert(0 <= i / 256 < 16);
            }
            assert(section.blocks()@ =~= Seq::new(
                4096,
                |i: int| self.layer(base_y + i / 256, limits, *states),
            ));
        } else {
            assert(self.layer(base_y + same as int, limits, *states) != first);
            self.lay_blocks(section, base_y, limits, states);
        }
    }

    /// Lays the blocks of one section of air one by one, from the bottom up.
    fn lay_blocks(
        &self,
        section: &mut ChunkSection,
        base_y: i32,
        limits: HeightLimits,
        states: &BlockStates,
    )
        requires
            old(section).wf(),
            chunk::air_section(*old(section), *states),
            limits.min_y <= base_y <= i32::MAX - 16,
            limits.min_y + 1 < self.surface_y ==> self.dirt_bounded(),
        ensures
            final(section).wf(),
            final(section).blocks()@ == Seq::new(
                4096,
                |i: int| self.layer(base_y + i / 256, limits, *states),
            ),
            final(section).blocks().id_bits() == old(section).blocks().id_bits(),
            final(section).blocks().form() == self.laid(
                base_y as int,
                limits,
                *states,
                old(section).blocks().id_bits(),
                4096,
            ),
            final(section).biome_cells() == old(section).biome_cells(),
    {
        let ghost id_bits = section.blocks().id_bits();
        let ghost biomes = section.biome_cells();
        let mut layer: usize = 0;
        proof {
            section.blocks().lemma_wf();
        }
        while layer < SECTION_SIZE
            invariant
                layer <= SECTION_SIZE,
                limits.min_y <= base_y <= i32::MAX - 16,
                limits.min_y + 1 < self.surface_y ==> self.dirt_bounded(),
                self.laying(*section, base_y as int, limits, *states, id_bits, 256 * layer as int),
                section.biome_cells() == biomes,
            decreases SECTION_SIZE - layer,
        {
            let state: u32 = self.block_at(base_y + layer as i32, limits, states);
            if states.is_air(state) {
                proof {
                    self.lemma_air_layer(
                        *section,
                        base_y as int,
                        limits,
                        *states,
                        id_bits,
                        layer as int,
                        256,
                    );
                }
            } else {
                self.lay_layer(section, base_y, layer, limits, states, state, Ghost(id_bits));
            }
            layer += 1;
        }
        assert(section.blocks()@ =~= Seq::new(
            4096,
            |i: int| self.layer(base_y + i / 256, limits, *states),
        ));
    }

    /// The first `n` blocks of a section have been laid, and the others are air.
    spec fn laying(
        &self,
        section: ChunkSection,
        base: int,
        limits: HeightLimits,
        states: BlockStates,
        id_bits: u32,
        n: int,
    ) -> bool {
        &&& section.wf()
        &&& section.blocks()@.len() == 4096
        &&& forall|i: int|
            0 <= i < 4096 ==> #[trigger] section.blocks()@[i] == if i < n {
                self.layer(base + i / 256, limits, states)
            } else {
                states.air
            }
        &&& section.blocks().id_bits() == id_bits
        &&& section.blocks().form() == self.laid(base, limits, states, id_bits, n as nat)
        &&& few_ids(section.blocks().form(), states)
    }

    /// Lays one layer of a block that is not air.
    fn lay_layer(
        &self,
        section: &mut ChunkSection,
        base_y: i32,
        layer: usize,
        limits: HeightLimits,
        states: &BlockStates,
        state: u32,
        Ghost(id_bits): Ghost<u32>,
    )
        requires
            layer < SECTION_SIZE,
            state == self.layer(base_y + layer as int, limits, *states),
            state != states.air,
            self.laying(*old(section), base_y as int, limits, *states, id_bits, 256 * layer as int),
        ensures
            self.laying(
                *final(section),
                base_y as int,
                limits,
                *states,
                id_bits,
                256 * (layer + 1),
            ),
            final(section).biome_cells() == old(section).biome_cells(),
    {
        let mut z: usize = 0;
        while z < SECTION_SIZE
            invariant
                z <= SECTION_SIZE,
                layer < SECTION_SIZE,
                state == self.layer(base_y + layer as int, limits, *states),
                state != states.air,
                self.laying(
                    *section,
                    base_y as int,
                    limits,
                    *states,
                    id_bits,
                    256 * layer + 16 * z,
                ),
                section.biome_cells() == old(section).biome_cells(),
            decreases SECTION_SIZE - z,
        {
            let mut x: usize = 0;
            while x < SECTION_SIZE
                invariant
                    x <= SECTION_SIZE,
                    z < SECTION_SIZE,
                    layer < SECTION_SIZE,
                    state == self.layer(base_y + layer as int, limits, *states),
                    state != states.air,
                    self.laying(
                        *section,
                        base_y as int,
                        limits,
                        *states,
                        id_bits,
                        256 * layer + 16 * z + x,
                    ),
                    section.biome_cells() == old(section).biome_cells(),
                decreases SECTION_SIZE - x,
            {
                let ghost n = 256 * layer + 16 * z + x;
                let ghost before = *section;
                proof {
                    chunk::law_block_index(x, layer, z);
                    section.blocks().lemma_wf();
                    assert(n / 256 == layer as int);
                    lemma_room_for_layer(
                        section.blocks().form(),
                        id_bits,
                        *states,
                        state,
                        n,
                    );
                }
                let _ = section.set_block(x, layer, z, state);
                assert forall|i: int| 0 <= i < 4096 implies #[trigger] section.blocks()@[i] == if i
                    < n + 1 {
                    self.layer(base_y + i / 256, limits, *states)
                } else {
                    states.air
                } by {
                    if i != n {
                        assert(section.blocks()@[i] == before.blocks()@[i]);
                    }
                }
                x += 1;
            }
            z += 1;
        }
    }

    /// A layer of air leaves a section as it is.
    proof fn lemma_air_layer(
        &self,
        section: ChunkSection,
        base: int,
        limits: HeightLimits,
        states: BlockStates,
        id_bits: u32,
        layer: int,
        k: nat,
    )
        requires
            0 <= layer < 16,
            k <= 256,
            self.layer(base + layer, limits, states) == states.air,
            self.laying(section, base, limits, states, id_bits, 256 * layer),
        ensures
            self.laying(section, base, limits, states, id_bits, 256 * layer + k),
        decreases k,
    {
        if k > 0 {
            self.lemma_air_layer(section, base, limits, states, id_bits, layer, (k - 1) as nat);
            let n = 256 * layer + k;
            assert((n - 1) / 256 == layer);
            assert forall|i: int| 0 <= i < 4096 implies #[trigger] section.blocks()@[i] == if i
                < n {
                self.layer(base + i / 256, limits, states)
            } else {
                states.air
            } by {
                if i == n - 1 {
                    assert(section.blocks()@[i] == states.air);
                }
            }
        }
    }
}

/// An id that a flat world is made of.
spec fn flat_id(id: u32, states: BlockStates) -> bool {
    id == states.air || id == states.bedrock || id == states.grass_block || id == states.dirt || id
        == states.stone
}

/// Only ids that a flat world is made of are named.
spec fn few_ids(form: Form, states: BlockStates) -> bool {
    match form {
        Form::Single(id) => flat_id(id, states),
        Form::Indirect { palette, bits, .. } => bits == 4 && palette.no_duplicates()
            && forall|i: int|
            0 <= i < palette.len() ==> flat_id(#[trigger] palette[i], states),
        Form::Direct(_) => false,
    }
}

/// There is always room for another id of a flat world: there are only five of
/// them, and the narrowest palette of blocks holds sixteen.
proof fn lemma_room_for_layer(
    form: Form,
    id_bits: u32,
    states: BlockStates,
    state: u32,
    index: int,
)
    requires
        palette::form_wf(ContainerKind::Blocks, id_bits, form),
        few_ids(form, states),
        flat_id(state, states),
        0 <= index < 4096,
    ensures
        palette::accepts(ContainerKind::Blocks, id_bits, form, state),
        few_ids(palette::after_set(ContainerKind::Blocks, id_bits, form, index, state), states),
{
    bitstorage::lemma_mask_is_power(4);
    vstd::arithmetic::power2::lemma2_to64();
    palette::law_set_contents(ContainerKind::Blocks, id_bits, form, index, state);
    if form is Indirect {
        lemma_five_ids(form->palette, states);
    }
}

/// Five different ids at most come from a choice of five.
proof fn lemma_five_ids(ids: Seq<u32>, states: BlockStates)
    requires
        ids.no_duplicates(),
        forall|i: int| 0 <= i < ids.len() ==> flat_id(#[trigger] ids[i], states),
    ensures
        ids.len() <= 5,
{
    let choice = set![states.air, states.bedrock, states.grass_block, states.dirt, states.stone];
    ids.unique_seq_to_set();
    assert forall|id: u32| ids.to_set().contains(id) implies choice.contains(id) by {
        let i = ids.index_of(id);
        assert(flat_id(ids[i], states));
    }
    vstd::set_lib::lemma_len_subset(ids.to_set(), choice);
    lemma_choice_len(states);
}

proof fn lemma_choice_len(states: BlockStates)
    ensures
        set![states.air, states.bedrock, states.grass_block, states.dirt, states.stone].len() <= 5,
        set![states.air, states.bedrock, states.grass_block, states.dirt, states.stone].finite(),
{
    let a = Set::<u32>::empty().insert(states.air);
    let b = a.insert(states.bedrock);
    let c = b.insert(states.grass_block);
    let d = c.insert(states.dirt);
    assert(a.len() <= 1);
    assert(b.len() <= 2);
    assert(c.len() <= 3);
    assert(d.len() <= 4);
}

/// Every block of a flat chunk is the one that belongs at its height, in every
/// column alike, whether its section was filled in one step or block by block.
pub proof fn law_flat_columns(
    generator: FlatGenerator,
    pos: ChunkPos,
    limits: HeightLimits,
    states: BlockStates,
    chunk: Chunk,
    x: usize,
    y: int,
    z: usize,
)
    requires
        generator.makes(pos, limits, states, chunk),
        limits.height <= i32::MAX,
        limits.holds(y),
        (y - limits.min_y) / 16 < chunk.stack().len(),
        x < 16 && z < 16,
    ensures
        chunk::block_of(chunk.stack(), limits, x, y, z, states.air) == generator.layer(
            y,
            limits,
            states,
        ),
{
    let offset = y - limits.min_y;
    let index = offset / 16;
    let layer = offset % 16;
    let section = chunk.stack()[index];
    assert(generator.section_made(section, limits.min_y + 16 * index, limits, states));
    chunk::law_block_index(x, layer as usize, z);
    let place = layer * 256 + z * 16 + x;
    assert(place / 256 == layer);
    assert(section.blocks()@[place] == generator.layer(
        limits.min_y + 16 * index + place / 256,
        limits,
        states,
    ));
}

/// A flat chunk whose surface is not the bottom layer, and whose grass is not
/// air, reports one above the surface as the height of every column.
pub proof fn law_flat_heights(
    generator: FlatGenerator,
    pos: ChunkPos,
    limits: HeightLimits,
    states: BlockStates,
    chunk: Chunk,
    column: int,
)
    requires
        generator.makes(pos, limits, states, chunk),
        limits.height <= i32::MAX,
        limits.min_y < generator.surface_y < limits.min_y + 16 * chunk.stack().len(),
        states.grass_block != states.air,
        0 <= column < COLUMNS,
    ensures
        chunk.maps().world_surface@[column] == generator.surface_y - limits.min_y + 1,
{
    let stack = chunk.stack();
    let surface = generator.surface_y - limits.min_y;
    let height = chunk::column_height(stack, states.air, column);
    chunk::law_column_height(stack, states.air, column);
    assert forall|y: int| 0 <= y < 16 * stack.len() implies #[trigger] chunk::layer_block(
        stack,
        y,
        column,
    ) == generator.layer(limits.min_y + y, limits, states) by {
        let index = y / 16;
        let place = y % 16 * 256 + column;
        assert(generator.section_made(stack[index], limits.min_y + 16 * index, limits, states));
        assert(place / 256 == y % 16);
        assert(stack[index].blocks()@[place] == generator.layer(
            limits.min_y + 16 * index + place / 256,
            limits,
            states,
        ));
    }
    assert(chunk::layer_block(stack, surface, column) == states.grass_block);
    if height > surface + 1 {
        assert(chunk::layer_block(stack, height - 1, column) == states.air);
    }
}

} // verus!
