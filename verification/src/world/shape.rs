//! What chunks are made of, whoever fills them.
//!
//! The laws here say what a container costs after a write and after a shrink,
//! which block stands at each height of a generated world, and what its
//! heightmaps show.

use vstd::arithmetic::power2;
use vstd::prelude::*;

use crate::protocol::types::ChunkPos;
use crate::world::bitstorage;
use crate::world::block::BlockStates;
use crate::world::chunk;
use crate::world::chunk::{Chunk, ChunkSection, HeightLimits};
use crate::world::generator::{ChunkGenerator, FlatGenerator, VoidGenerator};
use crate::world::palette;
use crate::world::palette::{ContainerKind, Form};

verus! {

/// The narrowest and the widest index of a palette: four to eight bits for
/// blocks, one to three for biomes.
pub open spec fn index_range(kind: ContainerKind) -> (nat, nat) {
    if kind == ContainerKind::Blocks {
        (4, 8)
    } else {
        (1, 3)
    }
}

/// How much `bits` bits can tell apart, for the widths of a palette index.
proof fn lemma_powers()
    ensures
        power2::pow2(0) == 1,
        power2::pow2(1) == 2,
        power2::pow2(2) == 4,
        power2::pow2(3) == 8,
        power2::pow2(4) == 16,
        power2::pow2(8) == 256,
{
    power2::lemma2_to64();
}

/// A write to a container of one id makes a palette of the old id and the new
/// one, at the narrowest width. A palette takes ids, in the order in which they
/// come, until its width names no more; then the width grows by one bit, and
/// after the widest the ids are stored themselves. An id that is known already
/// changes neither palette nor width.
pub proof fn law_palette_grows(
    kind: ContainerKind,
    direct_bits: u32,
    form: Form,
    index: int,
    value: u32,
)
    requires
        palette::form_wf(kind, direct_bits, form),
        0 <= index < palette::volume_of(kind),
    ensures
        ({
            let after = palette::after_set(kind, direct_bits, form, index, value);
            let (least, most) = index_range(kind);
            match form {
                Form::Single(id) => if id == value {
                    after == form
                } else {
                    &&& after matches Form::Indirect { palette, bits, cells }
                    &&& palette.len() == 2 && palette[0] == id && palette[1] == value
                    &&& bits == least
                },
                Form::Indirect { palette: known, bits: width, .. } => if known.contains(value) {
                    after matches Form::Indirect { palette, bits, cells } && palette == known
                        && bits == width
                } else if known.len() < power2::pow2(width as nat) {
                    after matches Form::Indirect { palette, bits, cells } && palette == known.push(
                        value,
                    ) && bits == width
                } else if width < most {
                    after matches Form::Indirect { palette, bits, cells } && palette == known.push(
                        value,
                    ) && bits == width + 1
                } else {
                    after is Direct
                },
                Form::Direct(_) => after is Direct,
            }
        }),
{
    if let Form::Indirect { bits, .. } = form {
        bitstorage::lemma_mask_is_power(bits);
    }
}

/// Ids without duplicates that all occur in `names` are no more than those.
proof fn lemma_fewer(ids: Seq<u32>, names: Seq<u32>)
    requires
        ids.no_duplicates(),
        forall|i: int| 0 <= i < ids.len() ==> names.contains(#[trigger] ids[i]),
    ensures
        ids.len() <= names.len(),
{
    broadcast use vstd::seq_lib::seq_to_set_is_finite;

    ids.unique_seq_to_set();
    names.lemma_cardinality_of_set();
    assert forall|id: u32| ids.to_set().contains(id) implies names.to_set().contains(id) by {
        let i = choose|i: int| 0 <= i < ids.len() && ids[i] == id;
        assert(names.contains(ids[i]));
    }
    vstd::set_lib::lemma_len_subset(ids.to_set(), names.to_set());
}

/// No list of the ids of a container is shorter than the distinct ones.
proof fn lemma_distinct_is_least(ids: Seq<u32>, names: Seq<u32>)
    requires
        forall|i: int| 0 <= i < ids.len() ==> names.contains(#[trigger] ids[i]),
    ensures
        palette::distinct(ids).len() <= names.len(),
{
    let known = palette::distinct(ids);
    palette::law_distinct(ids);
    assert forall|k: int| 0 <= k < known.len() implies names.contains(#[trigger] known[k]) by {
        assert(known.contains(known[k]));
        let i = choose|i: int| 0 <= i < ids.len() && ids[i] == known[k];
        assert(names.contains(ids[i]));
    }
    lemma_fewer(known, names);
}

/// The narrowest way to hold some ids. One id everywhere is a single value.
/// Otherwise a palette names every id that occurs, once, and no other, at the
/// narrowest width that tells them apart. Only where no palette can name them
/// all, which is 256 blocks or eight biomes at most, are the ids stored
/// themselves.
pub open spec fn narrowest(kind: ContainerKind, ids: Seq<u32>, form: Form) -> bool {
    let (least, most) = index_range(kind);
    match form {
        Form::Single(id) => forall|i: int| 0 <= i < ids.len() ==> #[trigger] ids[i] == id,
        Form::Indirect { palette, bits, cells } => {
            &&& palette.no_duplicates() && palette.len() >= 2
            &&& forall|id: u32| #[trigger] palette.contains(id) <==> ids.contains(id)
            &&& least <= bits <= most
            &&& palette.len() <= power2::pow2(bits as nat)
            &&& bits > least ==> palette.len() > power2::pow2((bits - 1) as nat)
        },
        Form::Direct(_) => forall|names: Seq<u32>|
            (forall|i: int| 0 <= i < ids.len() ==> #[trigger] names.contains(ids[i]))
                ==> #[trigger] names.len() > power2::pow2(most),
    }
}

/// After a shrink a container holds its ids in the narrowest way.
pub proof fn law_shrink_is_narrowest(kind: ContainerKind, direct_bits: u32, form: Form)
    requires
        palette::form_wf(kind, direct_bits, form),
    ensures
        narrowest(
            kind,
            palette::contents(kind, direct_bits, form),
            palette::after_shrink(kind, direct_bits, form),
        ),
{
    let ids = palette::contents(kind, direct_bits, form);
    let known = palette::distinct(ids);
    let count = known.len();
    let bits = palette::palette_bits(kind, count);
    let (least, most) = index_range(kind);
    lemma_powers();
    palette::law_distinct(ids);
    palette::law_index_bits(count);
    assert(ids.contains(ids[0]));
    assert(known.contains(ids[0]));
    if palette::index_bits(count) < least {
        power2::lemma_pow2_strictly_increases(palette::index_bits(count), least);
    }
    if bits > most && bits - 1 > most {
        power2::lemma_pow2_strictly_increases(most, (bits - 1) as nat);
    }
    match form {
        Form::Single(_) => {},
        Form::Indirect { palette: names, bits: width, cells } => {
            assert forall|i: int| 0 <= i < ids.len() implies names.contains(#[trigger] ids[i]) by {
                assert(bitstorage::entry(cells, width, i) < names.len());
            }
            lemma_distinct_is_least(ids, names);
            bitstorage::lemma_mask_is_power(width);
            if width < most {
                power2::lemma_pow2_strictly_increases(width as nat, most);
            }
        },
        Form::Direct(_) => {
            assert forall|names: Seq<u32>|
                (forall|i: int| 0 <= i < ids.len() ==> #[trigger] names.contains(
                    ids[i],
                )) implies #[trigger] names.len() >= count by {
                lemma_distinct_is_least(ids, names);
            }
        },
    }
    if count == 1 {
        assert forall|i: int| 0 <= i < ids.len() implies #[trigger] ids[i] == known[0] by {
            assert(ids.contains(ids[i]));
            assert(known.contains(ids[i]));
        }
    }
}

/// Shrinking a section keeps its blocks and its biomes, and leaves both in the
/// narrowest form.
pub proof fn law_sections_shrink(before: ChunkSection, after: ChunkSection)
    requires
        before.wf(),
        chunk::shrunk(before, after),
    ensures
        after.blocks()@ == before.blocks()@,
        after.biome_cells()@ == before.biome_cells()@,
        narrowest(ContainerKind::Blocks, before.blocks()@, after.blocks().form()),
        narrowest(ContainerKind::Biomes, before.biome_cells()@, after.biome_cells().form()),
{
    before.blocks().lemma_wf();
    before.biome_cells().lemma_wf();
    law_shrink_is_narrowest(
        ContainerKind::Blocks,
        before.blocks().id_bits(),
        before.blocks().form(),
    );
    law_shrink_is_narrowest(
        ContainerKind::Biomes,
        before.biome_cells().id_bits(),
        before.biome_cells().form(),
    );
}

/// A copy of a chunk lies where it lies, and holds the same blocks, biomes and
/// heights.
pub proof fn law_chunks_are_copied_whole(copy: Chunk, chunk: Chunk, i: int)
    requires
        copy.same(chunk),
        chunk.wf(),
    ensures
        copy.place() == chunk.place() && copy.extent() == chunk.extent(),
        copy.stack().len() == chunk.stack().len(),
        0 <= i < chunk.stack().len() ==> {
            &&& copy.stack()[i].blocks()@ == chunk.stack()[i].blocks()@
            &&& copy.stack()[i].biome_cells()@ == chunk.stack()[i].biome_cells()@
        },
        copy.maps().motion_blocking.cells() == chunk.maps().motion_blocking.cells(),
        copy.maps().world_surface.cells() == chunk.maps().world_surface.cells(),
{
    if 0 <= i < chunk.stack().len() {
        assert(copy.stack()[i].same(chunk.stack()[i]));
        copy.stack()[i].blocks().lemma_wf();
        copy.stack()[i].biome_cells().lemma_wf();
        chunk.stack()[i].blocks().lemma_wf();
        chunk.stack()[i].biome_cells().lemma_wf();
    }
}

/// The palette that a shrink makes lists the ids in the order in which they
/// first occur: before the place of an id stand only ids of earlier places.
pub proof fn law_palette_is_in_order(ids: Seq<u32>, k: int)
    requires
        0 <= k < palette::distinct(ids).len(),
    ensures
        exists|i: int|
            #![trigger ids[i]]
            {
                &&& 0 <= i < ids.len()
                &&& ids[i] == palette::distinct(ids)[k]
                &&& forall|j: int|
                    0 <= j < i ==> palette::distinct(ids).take(k).contains(#[trigger] ids[j])
            },
    decreases ids.len(),
{
    let rest = ids.drop_last();
    let before = palette::distinct(rest);
    let known = palette::distinct(ids);
    palette::law_distinct(rest);
    if k < before.len() {
        law_palette_is_in_order(rest, k);
        assert(known.take(k) =~= before.take(k));
        let i = choose|i: int|
            #![trigger rest[i]]
            {
                &&& 0 <= i < rest.len()
                &&& rest[i] == before[k]
                &&& forall|j: int| 0 <= j < i ==> before.take(k).contains(#[trigger] rest[j])
            };
        assert(ids[i] == known[k]);
        assert forall|j: int| 0 <= j < i implies known.take(k).contains(#[trigger] ids[j]) by {
            assert(rest[j] == ids[j]);
        }
    } else {
        let i = ids.len() - 1;
        assert(known.take(k) =~= before);
        assert(ids[i] == known[k]);
        assert forall|j: int| 0 <= j < i implies known.take(k).contains(#[trigger] ids[j]) by {
            assert(rest[j] == ids[j]);
            assert(rest.contains(rest[j]));
            assert(before.contains(rest[j]));
        }
    }
}

/// Counting goes entry by entry: nothing counts nothing, and one more entry
/// counts one more just where it is one of those that count.
pub proof fn law_count_of_entries(ids: Seq<u32>, id: u32, holds: spec_fn(u32) -> bool)
    ensures
        palette::count_where(Seq::empty(), holds) == 0,
        palette::count_where(ids.push(id), holds) == palette::count_where(ids, holds) + (if holds(
            id,
        ) {
            1nat
        } else {
            0nat
        }),
{
    assert(ids.push(id).drop_last() =~= ids);
}

proof fn lemma_answers_count(ids: Seq<u32>, answers: Seq<bool>, holds: spec_fn(u32) -> bool)
    requires
        answers.len() == ids.len(),
        forall|i: int| 0 <= i < ids.len() ==> #[trigger] answers[i] == holds(ids[i]),
    ensures
        palette::count_yes(answers) == palette::count_where(ids, holds),
    decreases ids.len(),
{
    if ids.len() > 0 {
        let (fewer, fewer_answers) = (ids.drop_last(), answers.drop_last());
        assert forall|i: int| 0 <= i < fewer.len() implies #[trigger] fewer_answers[i] == holds(
            fewer[i],
        ) by {
            assert(answers[i] == holds(ids[i]));
        }
        lemma_answers_count(fewer, fewer_answers, holds);
        assert(answers[ids.len() - 1] == holds(ids[ids.len() - 1]));
    }
}

/// However a container holds its entries, and however few questions that takes,
/// what is counted is how many entries the answer is yes to.
pub proof fn law_tally_is_count<P: FnMut(u32) -> bool>(
    predicate: P,
    holds: spec_fn(u32) -> bool,
    kind: ContainerKind,
    direct_bits: u32,
    form: Form,
    total: usize,
)
    requires
        palette::form_wf(kind, direct_bits, form),
        palette::tallies(predicate, kind, direct_bits, form, total),
        palette::decides(predicate, holds),
    ensures
        total == palette::count_where(palette::contents(kind, direct_bits, form), holds),
{
    let ids = palette::contents(kind, direct_bits, form);
    match form {
        Form::Single(id) => {
            let answer = choose|answer: bool| #[trigger]
                call_ensures(predicate, (id,), answer) && total == (if answer {
                    palette::volume_of(kind)
                } else {
                    0
                });
            lemma_answers_count(ids, Seq::new(ids.len(), |i: int| answer), holds);
            lemma_same_answers(ids.len(), answer);
        },
        Form::Indirect { palette: names, bits, cells } => {
            let answers = choose|answers: Seq<bool>| #[trigger]
                palette::answered(predicate, names, answers) && total == palette::count_yes(
                    palette::answers_by_slot(
                        answers,
                        cells,
                        bits,
                        palette::volume_of(kind) as nat,
                    ),
                );
            let by_slot = palette::answers_by_slot(
                answers,
                cells,
                bits,
                palette::volume_of(kind) as nat,
            );
            assert forall|i: int| 0 <= i < ids.len() implies #[trigger] by_slot[i] == holds(
                ids[i],
            ) by {
                let slot = bitstorage::entry(cells, bits, i) as int;
                assert(slot < names.len());
                assert(call_ensures(predicate, (names[slot],), answers[slot]));
            }
            lemma_answers_count(ids, by_slot, holds);
        },
        Form::Direct(_) => {
            let answers = choose|answers: Seq<bool>| #[trigger]
                palette::answered(predicate, ids, answers) && total == palette::count_yes(answers);
            assert forall|i: int| 0 <= i < ids.len() implies #[trigger] answers[i] == holds(
                ids[i],
            ) by {
                assert(call_ensures(predicate, (ids[i],), answers[i]));
            }
            lemma_answers_count(ids, answers, holds);
        },
    }
}

proof fn lemma_same_answers(n: nat, answer: bool)
    ensures
        palette::count_yes(Seq::new(n, |i: int| answer)) == if answer {
            n
        } else {
            0
        },
    decreases n,
{
    if n > 0 {
        lemma_same_answers((n - 1) as nat, answer);
        assert(Seq::new(n, |i: int| answer).drop_last() =~= Seq::new(
            (n - 1) as nat,
            |i: int| answer,
        ));
    }
}

/// A superflat world is bedrock at the bottom and grass at the surface, with
/// `dirt_depth` layers of dirt under it, stone below those and air above. It
/// stands where it was asked for, and every biome is the first.
pub proof fn law_flat_world(
    generator: FlatGenerator,
    pos: ChunkPos,
    limits: HeightLimits,
    states: BlockStates,
    chunk: Chunk,
    x: usize,
    y: int,
    z: usize,
)
    requires
        generator.makes(pos, limits, states, chunk),
        limits.height <= i32::MAX,
        limits.min_y <= y < limits.min_y + 16 * chunk.stack().len(),
        x < 16 && z < 16,
    ensures
        ({
            let block = chunk::block_of(chunk.stack(), limits, x, y, z, states.air);
            let depth = generator.surface_y - y;
            &&& y == limits.min_y ==> block == states.bedrock
            &&& y > limits.min_y && depth < 0 ==> block == states.air
            &&& y > limits.min_y && depth == 0 ==> block == states.grass_block
            &&& y > limits.min_y && 1 <= depth <= generator.dirt_depth ==> block == states.dirt
            &&& y > limits.min_y && depth >= 1 && depth > generator.dirt_depth ==> block
                == states.stone
        }),
        chunk.place() == pos,
        chunk.extent() == limits,
        forall|i: int, k: int|
            0 <= i < chunk.stack().len() && 0 <= k < 64
                ==> #[trigger] chunk.stack()[i].biome_cells()@[k] == 0,
{
    crate::world::generator::law_flat_columns(generator, pos, limits, states, chunk, x, y, z);
    assert forall|i: int, k: int|
        0 <= i < chunk.stack().len() && 0 <= k
            < 64 implies #[trigger] chunk.stack()[i].biome_cells()@[k] == 0 by {
        let section = chunk.stack()[i];
        assert(generator.section_made(section, limits.min_y + 16 * i, limits, states));
        section.biome_cells().lemma_wf();
    }
}

/// An empty world is air from bottom to top, of the first biome, and both its
/// heightmaps say that there is nothing in any column.
pub proof fn law_void_world(
    pos: ChunkPos,
    limits: HeightLimits,
    states: BlockStates,
    chunk: Chunk,
    index: int,
    place: int,
)
    requires
        VoidGenerator.makes(pos, limits, states, chunk),
        0 <= index < chunk.stack().len(),
    ensures
        chunk.place() == pos,
        chunk.extent() == limits,
        0 <= place < 4096 ==> chunk.stack()[index].blocks()@[place] == states.air,
        0 <= place < 64 ==> chunk.stack()[index].biome_cells()@[place] == 0,
        0 <= place < 256 ==> chunk.maps().motion_blocking@[place] == 0,
        0 <= place < 256 ==> chunk.maps().world_surface@[place] == 0,
{
    let section = chunk.stack()[index];
    assert(chunk::air_section(section, states));
    section.blocks().lemma_wf();
    section.biome_cells().lemma_wf();
}

/// The heightmaps list the columns row by row. The height of the column at `x`
/// and `z`, counted from the bottom of the world, is one above its highest block
/// that is not air: there is nothing at the height or above it, and something
/// just below it, unless the column is empty.
pub proof fn law_height_of_column(
    sections: Seq<ChunkSection>,
    limits: HeightLimits,
    air: u32,
    x: usize,
    z: usize,
    y: int,
)
    requires
        limits.height <= i32::MAX,
        16 * sections.len() <= limits.height,
        x < 16 && z < 16,
        limits.min_y <= y < limits.min_y + 16 * sections.len(),
    ensures
        chunk::heights(sections, air).len() == 256,
        ({
            let height = chunk::heights(sections, air)[16 * z + x] as int;
            let block = chunk::block_of(sections, limits, x, y, z, air);
            &&& y >= limits.min_y + height ==> block == air
            &&& y == limits.min_y + height - 1 ==> block != air
            &&& height <= 16 * sections.len()
        }),
{
    let column = 16 * z + x;
    let level = y - limits.min_y;
    chunk::law_column_height(sections, air, column);
    chunk::law_block_index(x, (level % 16) as usize, z);
    assert(chunk::layer_block(sections, level, column) == chunk::block_of(
        sections,
        limits,
        x,
        y,
        z,
        air,
    ));
}

/// A superflat world whose surface lies above the bottom, and whose grass is not
/// air, is one above the surface high in every column, in both heightmaps.
pub proof fn law_flat_heightmaps(
    generator: FlatGenerator,
    pos: ChunkPos,
    limits: HeightLimits,
    states: BlockStates,
    chunk: Chunk,
    column: int,
)
    requires
        generator.makes(pos, limits, states, chunk),
        limits.height <= i32::MAX,
        limits.min_y < generator.surface_y < limits.min_y + 16 * chunk.stack().len(),
        states.grass_block != states.air,
        0 <= column < 256,
    ensures
        chunk.maps().world_surface@[column] == generator.surface_y - limits.min_y + 1,
        chunk.maps().motion_blocking@[column] == generator.surface_y - limits.min_y + 1,
{
    crate::world::generator::law_flat_heights(generator, pos, limits, states, chunk, column);
}

/// A heightmap value is just wide enough for every height from none to the
/// whole of the world.
pub proof fn law_heightmap_width(limits: HeightLimits)
    ensures
        limits.height < power2::pow2(chunk::map_bits(limits) as nat),
        chunk::map_bits(limits) > 1 ==> limits.height >= power2::pow2(
            (chunk::map_bits(limits) - 1) as nat,
        ),
        1 <= chunk::map_bits(limits) <= 32,
{
    power2::lemma2_to64();
    palette::lemma_index_bits_bound((limits.height + 1) as nat, 32);
    palette::law_index_bits((limits.height + 1) as nat);
}

/// A world reaches from its lowest layer, `height` layers up.
pub proof fn law_world_extent(limits: HeightLimits, y: int)
    requires
        limits.height <= i32::MAX,
    ensures
        limits.holds(y) <==> 0 <= y - limits.min_y < limits.height,
        limits.top() - limits.min_y == limits.height - 1,
{
}

} // verus!
