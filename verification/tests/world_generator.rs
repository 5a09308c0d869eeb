//! Chunk generation.

use rukkit::protocol::ChunkPos;
use rukkit::world::chunk::SECTION_SIZE;
use rukkit::world::{
    BlockStates, Chunk, ChunkGenerator, FlatGenerator, HeightLimits, VoidGenerator,
};

fn states() -> BlockStates {
    BlockStates::placeholder()
}

#[test]
fn void_generator_produces_only_air() {
    let states = states();
    let chunk = VoidGenerator.generate(ChunkPos::new(0, 0), HeightLimits::overworld(), &states);
    for section in chunk.sections() {
        assert!(section.is_empty(&states));
    }
}

#[test]
fn flat_generator_lays_the_expected_column() {
    let states = states();
    let limits = HeightLimits::overworld();
    let generator = FlatGenerator::default();
    let chunk = generator.generate(ChunkPos::new(0, 0), limits, &states);

    assert_eq!(chunk.block(0, -64, 0, &states), states.bedrock);
    assert_eq!(chunk.block(0, -63, 0, &states), states.stone);
    assert_eq!(chunk.block(0, -62, 0, &states), states.dirt);
    assert_eq!(chunk.block(0, -61, 0, &states), states.dirt);
    assert_eq!(chunk.block(0, -60, 0, &states), states.grass_block);
    assert_eq!(chunk.block(0, -59, 0, &states), states.air);
    assert_eq!(chunk.block(0, 100, 0, &states), states.air);
}

#[test]
fn flat_generator_is_uniform_across_the_whole_chunk() {
    let states = states();
    let limits = HeightLimits::overworld();
    let chunk = FlatGenerator::default().generate(ChunkPos::new(3, -7), limits, &states);

    for x in 0..SECTION_SIZE {
        for z in 0..SECTION_SIZE {
            assert_eq!(chunk.block(x, -64, z, &states), states.bedrock, "{x},{z}");
            assert_eq!(
                chunk.block(x, -60, z, &states),
                states.grass_block,
                "{x},{z}"
            );
            assert_eq!(chunk.block(x, -59, z, &states), states.air, "{x},{z}");
        }
    }
}

#[test]
fn the_bulk_fill_path_agrees_with_a_per_block_sweep() {
    // The whole-section fast path must be indistinguishable from writing
    // every block individually.
    let states = states();
    let limits = HeightLimits::overworld();
    let generator = FlatGenerator::default();
    let fast = generator.generate(ChunkPos::new(0, 0), limits, &states);

    let mut slow = Chunk::empty(ChunkPos::new(0, 0), limits, &states);
    for y in limits.min_y..=limits.max_y() {
        let state = generator.block_at(y, limits, &states);
        if states.is_air(state) {
            continue;
        }
        for z in 0..SECTION_SIZE {
            for x in 0..SECTION_SIZE {
                slow.set_block(x, y, z, state, &states);
            }
        }
    }
    slow.recompute_heightmaps(&states);

    for y in limits.min_y..=limits.max_y() {
        assert_eq!(
            fast.block(0, y, 0, &states),
            slow.block(0, y, 0, &states),
            "y={y}"
        );
    }
    assert_eq!(fast.heightmaps(), slow.heightmaps());
}

#[test]
fn heightmaps_are_populated_by_generation() {
    let states = states();
    let limits = HeightLimits::overworld();
    let chunk = FlatGenerator::default().generate(ChunkPos::new(0, 0), limits, &states);
    // Surface at y=-60 is 4 above min_y, so the height is 5.
    assert_eq!(chunk.heightmaps().world_surface.get(0), 5);
}

#[test]
fn a_flat_chunk_still_serializes_small() {
    let states = states();
    let chunk = FlatGenerator::default().generate(
        ChunkPos::new(0, 0),
        HeightLimits::overworld(),
        &states,
    );
    let mut out = Vec::new();
    chunk.write_sections(&states, &mut out);
    // Only the bottom section carries real data; the rest stay single-valued.
    assert!(
        out.len() < 3_000,
        "flat chunk serialized to {} bytes",
        out.len()
    );
}
