//! Chunk columns and their sections.

use rukkit::protocol::nbt::NbtTag;
use rukkit::protocol::ChunkPos;
use rukkit::world::chunk::{section_index, COLUMNS, SECTION_SIZE, SECTION_VOLUME};
use rukkit::world::{BlockStates, Chunk, ChunkSection, HeightLimits};

fn states() -> BlockStates {
    BlockStates::placeholder()
}

/// Heightmap index for a chunk-local column.
fn column(x: usize, z: usize) -> usize {
    z * SECTION_SIZE + x
}

#[test]
fn section_index_uses_vanilla_y_z_x_order() {
    assert_eq!(section_index(0, 0, 0), 0);
    assert_eq!(section_index(1, 0, 0), 1);
    assert_eq!(section_index(0, 0, 1), 16);
    assert_eq!(section_index(0, 1, 0), 256);
    assert_eq!(section_index(15, 15, 15), 4095);
}

#[test]
fn section_indices_are_a_bijection() {
    let mut seen = vec![false; SECTION_VOLUME];
    for y in 0..16 {
        for z in 0..16 {
            for x in 0..16 {
                let index = section_index(x, y, z);
                assert!(!seen[index], "duplicate index for {x},{y},{z}");
                seen[index] = true;
            }
        }
    }
    assert!(seen.into_iter().all(|hit| hit));
}

#[test]
fn overworld_limits_match_the_modern_world_height() {
    let limits = HeightLimits::overworld();
    assert_eq!(limits.min_y, -64);
    assert_eq!(limits.max_y(), 319);
    assert_eq!(limits.section_count(), 24);
    assert!(limits.contains(-64));
    assert!(limits.contains(319));
    assert!(!limits.contains(-65));
    assert!(!limits.contains(320));
    // 385 possible values needs 9 bits.
    assert_eq!(limits.heightmap_bits(), 9);
}

#[test]
fn a_fresh_chunk_is_entirely_air() {
    let states = states();
    let chunk = Chunk::empty(ChunkPos::new(0, 0), HeightLimits::overworld(), &states);
    assert_eq!(chunk.sections().len(), 24);
    for section in chunk.sections() {
        assert!(section.is_empty(&states));
        assert_eq!(section.block_states().bits_per_entry(), 0);
    }
    assert_eq!(chunk.block(0, 0, 0, &states), states.air);
}

#[test]
fn blocks_round_trip_across_section_boundaries() {
    let states = states();
    let mut chunk = Chunk::empty(ChunkPos::new(1, -2), HeightLimits::overworld(), &states);

    // Deliberately straddle section boundaries and the negative Y range.
    let probes = [-64, -49, -48, -1, 0, 15, 16, 63, 318, 319];
    for (i, y) in probes.iter().enumerate() {
        let state = states.stone + i as u32;
        assert_eq!(chunk.set_block(3, *y, 9, state, &states), states.air);
        assert_eq!(chunk.block(3, *y, 9, &states), state, "y={y}");
    }
    // Neighbouring columns are untouched.
    assert_eq!(chunk.block(4, 0, 9, &states), states.air);
}

#[test]
fn out_of_range_heights_read_and_write_as_air() {
    let states = states();
    let mut chunk = Chunk::empty(ChunkPos::new(0, 0), HeightLimits::overworld(), &states);
    assert_eq!(chunk.block(0, -65, 0, &states), states.air);
    assert_eq!(chunk.block(0, 320, 0, &states), states.air);
    assert_eq!(
        chunk.set_block(0, 1000, 0, states.stone, &states),
        states.air
    );
    assert_eq!(chunk.block(0, 1000, 0, &states), states.air);
}

#[test]
fn non_air_count_tracks_writes() {
    let states = states();
    let mut section = ChunkSection::filled(&states, states.air, 0);
    assert_eq!(section.non_air_count(&states), 0);

    section.set_block(0, 0, 0, states.stone);
    assert_eq!(section.non_air_count(&states), 1);

    for x in 0..16 {
        for z in 0..16 {
            section.set_block(x, 0, z, states.stone);
        }
    }
    assert_eq!(section.non_air_count(&states), 256);

    // Overwriting back to air decrements again.
    section.set_block(0, 0, 0, states.air);
    assert_eq!(section.non_air_count(&states), 255);
}

#[test]
fn a_solid_section_counts_every_block() {
    let states = states();
    let section = ChunkSection::filled(&states, states.stone, 0);
    assert_eq!(section.non_air_count(&states), SECTION_VOLUME as u16);
    assert!(!section.is_empty(&states));
}

#[test]
fn heightmaps_report_one_above_the_highest_block() {
    let states = states();
    let mut chunk = Chunk::empty(ChunkPos::new(0, 0), HeightLimits::overworld(), &states);
    chunk.set_block(0, 0, 0, states.stone, &states);
    chunk.set_block(1, 100, 1, states.stone, &states);
    chunk.set_block(2, -64, 2, states.stone, &states);
    chunk.recompute_heightmaps(&states);

    let maps = chunk.heightmaps();
    // y=0 is 64 above min_y, so the recorded height is 65.
    assert_eq!(maps.world_surface.get(0), 65);
    // y=100 -> 100 + 64 + 1
    assert_eq!(maps.world_surface.get(column(1, 1)), 165);
    // A block at the very bottom reports 1.
    assert_eq!(maps.world_surface.get(column(2, 2)), 1);
    // An untouched column reports 0.
    assert_eq!(maps.world_surface.get(200), 0);
}

#[test]
fn heightmaps_take_the_highest_block_not_the_first_found() {
    let states = states();
    let mut chunk = Chunk::empty(ChunkPos::new(0, 0), HeightLimits::overworld(), &states);
    for y in [-10, 40, 200] {
        chunk.set_block(5, y, 5, states.stone, &states);
    }
    chunk.recompute_heightmaps(&states);
    assert_eq!(chunk.heightmaps().world_surface.get(column(5, 5)), 265);
}

/// Deliberately naive reference: scan every column from the top, one block
/// at a time, with no section skipping at all.
fn naive_heights(chunk: &Chunk, states: &BlockStates) -> Vec<u32> {
    let limits = chunk.limits();
    let mut out = vec![0u32; COLUMNS];
    for z in 0..SECTION_SIZE {
        for x in 0..SECTION_SIZE {
            for y in (limits.min_y..=limits.max_y()).rev() {
                if !states.is_air(chunk.block(x, y, z, states)) {
                    out[column(x, z)] = (y - limits.min_y + 1) as u32;
                    break;
                }
            }
        }
    }
    out
}

#[test]
fn the_section_skipping_heightmap_agrees_with_a_naive_scan() {
    // Guards the optimization: skipping empty sections must be invisible.
    let states = states();
    let limits = HeightLimits::overworld();
    let mut chunk = Chunk::empty(ChunkPos::new(0, 0), limits, &states);

    // A scattering of blocks across the full height range, including the
    // very top and bottom, plus columns left entirely empty.
    let mut seed = 0x1234_5678u32;
    for z in 0..SECTION_SIZE {
        for x in 0..SECTION_SIZE {
            seed = seed.wrapping_mul(1_103_515_245).wrapping_add(12345);
            if seed % 5 == 0 {
                continue; // leave this column empty
            }
            let count = (seed >> 8) % 4;
            for n in 0..count {
                let y = limits.min_y + ((seed >> (n * 3 + 4)) % limits.height) as i32;
                chunk.set_block(x, y, z, states.stone, &states);
            }
        }
    }
    chunk.set_block(0, limits.max_y(), 0, states.stone, &states);
    chunk.set_block(1, limits.min_y, 1, states.stone, &states);

    let expected = naive_heights(&chunk, &states);
    chunk.recompute_heightmaps(&states);

    for (index, &want) in expected.iter().enumerate() {
        assert_eq!(
            chunk.heightmaps().world_surface.get(index),
            want,
            "column {index}"
        );
    }
    // The extremes specifically.
    assert_eq!(
        chunk.heightmaps().world_surface.get(column(0, 0)),
        limits.height
    );
    assert_eq!(chunk.heightmaps().world_surface.get(column(1, 1)), 1);
}

#[test]
fn an_empty_chunk_has_all_zero_heightmaps() {
    let states = states();
    let mut chunk = Chunk::empty(ChunkPos::new(0, 0), HeightLimits::overworld(), &states);
    chunk.recompute_heightmaps(&states);
    for index in 0..COLUMNS {
        assert_eq!(chunk.heightmaps().world_surface.get(index), 0, "{index}");
    }
}

#[test]
fn recomputing_twice_is_idempotent() {
    let states = states();
    let mut chunk = Chunk::empty(ChunkPos::new(0, 0), HeightLimits::overworld(), &states);
    chunk.set_block(3, 70, 4, states.stone, &states);
    chunk.recompute_heightmaps(&states);
    let first = chunk.heightmaps().clone();
    chunk.recompute_heightmaps(&states);
    assert_eq!(chunk.heightmaps(), &first);
}

#[test]
fn clearing_a_column_lowers_its_height_on_recompute() {
    // Stale state would survive if resolved columns were never reset.
    let states = states();
    let mut chunk = Chunk::empty(ChunkPos::new(0, 0), HeightLimits::overworld(), &states);
    chunk.set_block(0, 200, 0, states.stone, &states);
    chunk.set_block(0, 10, 0, states.stone, &states);
    chunk.recompute_heightmaps(&states);
    assert_eq!(chunk.heightmaps().world_surface.get(column(0, 0)), 265);

    chunk.set_block(0, 200, 0, states.air, &states);
    chunk.recompute_heightmaps(&states);
    assert_eq!(chunk.heightmaps().world_surface.get(column(0, 0)), 75);

    chunk.set_block(0, 10, 0, states.air, &states);
    chunk.recompute_heightmaps(&states);
    assert_eq!(chunk.heightmaps().world_surface.get(column(0, 0)), 0);
}

#[test]
fn heightmap_nbt_has_both_long_arrays() {
    let states = states();
    let mut chunk = Chunk::empty(ChunkPos::new(0, 0), HeightLimits::overworld(), &states);
    chunk.recompute_heightmaps(&states);

    let NbtTag::Compound(compound) = chunk.heightmaps().to_nbt() else {
        panic!("expected a compound");
    };
    for key in ["MOTION_BLOCKING", "WORLD_SURFACE"] {
        match compound.get(key) {
            // 256 columns at 9 bits, 7 per long, is 37 longs.
            Some(NbtTag::LongArray(values)) => assert_eq!(values.len(), 37, "{key}"),
            other => panic!("{key}: expected a long array, got {other:?}"),
        }
    }
}

#[test]
fn section_wire_length_matches_what_is_written() {
    let states = states();
    let mut section = ChunkSection::filled(&states, states.air, 0);
    let mut out = Vec::new();

    section.write(&states, &mut out);
    assert_eq!(out.len(), section.wire_len(), "empty section");

    section.set_block(0, 0, 0, states.stone);
    out.clear();
    section.write(&states, &mut out);
    assert_eq!(out.len(), section.wire_len(), "indirect section");
}

#[test]
fn chunk_wire_length_matches_what_is_written() {
    let states = states();
    let mut chunk = Chunk::empty(ChunkPos::new(0, 0), HeightLimits::overworld(), &states);
    for y in -64..0 {
        for x in 0..16 {
            for z in 0..16 {
                chunk.set_block(x, y, z, states.stone, &states);
            }
        }
    }
    let mut out = Vec::new();
    chunk.write_sections(&states, &mut out);
    assert_eq!(out.len(), chunk.sections_wire_len());
}

#[test]
fn an_empty_chunk_serializes_compactly() {
    let states = states();
    let chunk = Chunk::empty(ChunkPos::new(0, 0), HeightLimits::overworld(), &states);
    let mut out = Vec::new();
    chunk.write_sections(&states, &mut out);
    // 24 sections at 2 bytes of count plus two 3-byte single-value
    // containers each.
    assert_eq!(out.len(), 24 * (2 + 3 + 3));
}

#[test]
fn shrink_does_not_change_block_contents() {
    let states = states();
    let mut chunk = Chunk::empty(ChunkPos::new(0, 0), HeightLimits::overworld(), &states);
    for i in 0..300u32 {
        chunk.set_block(
            (i % 16) as usize,
            i as i32 % 300,
            0,
            states.stone + i,
            &states,
        );
    }
    let before: Vec<u32> = (0..300)
        .map(|i: i32| chunk.block((i % 16) as usize, i % 300, 0, &states))
        .collect();

    chunk.shrink();

    let after: Vec<u32> = (0..300)
        .map(|i: i32| chunk.block((i % 16) as usize, i % 300, 0, &states))
        .collect();
    assert_eq!(before, after);
}

#[test]
fn a_clone_of_a_chunk_is_equal_and_apart() {
    let states = states();
    let mut chunk = Chunk::empty(ChunkPos::new(3, -4), HeightLimits::overworld(), &states);
    chunk.set_block(1, 64, 2, states.stone, &states);
    chunk.recompute_heightmaps(&states);

    let copy = chunk.clone();
    assert_eq!(copy, chunk);
    chunk.set_block(1, 70, 2, states.dirt, &states);
    chunk.recompute_heightmaps(&states);
    assert_ne!(copy, chunk);
    assert_eq!(copy.block(1, 70, 2, &states), states.air);
    assert_eq!(chunk.block(1, 70, 2, &states), states.dirt);
    assert_eq!(copy.heightmaps().world_surface.get(column(1, 2)), 64 + 64 + 1);
    assert_eq!(chunk.heightmaps().world_surface.get(column(1, 2)), 70 + 64 + 1);
}
