//! Promises of the world's storage, on concrete values.

use rukkit::protocol::ChunkPos;
use rukkit::world::bitstorage::{cells_required, reciprocal, BitStorage, MAX_LEN};
use rukkit::world::chunk::{section_index, COLUMNS, SECTION_VOLUME};
use rukkit::world::palette::bits_for;
use rukkit::world::{
    BlockStates, Chunk, ChunkGenerator, ContainerKind, FlatGenerator, HeightLimits,
    PalettedContainer, VoidGenerator,
};

#[test]
fn multiplying_by_the_reciprocal_divides() {
    for divisor in 1..=64u32 {
        let magic = reciprocal(divisor);
        for index in [0, 1, 63, 64, 65, 4095, MAX_LEN - 1] {
            let quotient = (index as u64 * magic) >> 32;
            assert_eq!(quotient, index as u64 / u64::from(divisor));
        }
    }
}

#[test]
fn replacing_an_entry_leaves_its_neighbours_alone() {
    for bits in 1..=32u32 {
        let most = u32::MAX >> (32 - bits);
        let mut storage = BitStorage::new(200, bits);
        for i in 0..200 {
            storage.set(i, most);
        }
        for i in (0..200).step_by(3) {
            assert_eq!(storage.set(i, 0), most);
        }
        for i in 0..200 {
            assert_eq!(storage.get(i), if i % 3 == 0 { 0 } else { most });
        }
    }
}

#[test]
fn packed_entries_are_read_back_from_their_cells() {
    let mut storage = BitStorage::new(100, 5);
    for i in 0..100 {
        storage.set(i, (i % 32) as u32);
    }
    assert_eq!(storage.data().len(), cells_required(100, 5));
    assert_eq!(cells_required(100, 5), 9);
    let copy = BitStorage::from_data(100, 5, storage.data().to_vec()).unwrap();
    assert_eq!(copy, storage);
    assert!(BitStorage::from_data(100, 5, vec![0; 8]).is_none());
    assert!(BitStorage::from_data(100, 5, vec![0; 10]).is_none());
    // The first cell holds twelve entries, the first in its lowest bits.
    assert_eq!(storage.data()[0] & 0x3FF, 1 << 5);

    let wide = storage.remap(7, |v| v + 64);
    assert_eq!(wide.bits(), 7);
    for i in 0..100 {
        assert_eq!(wide.get(i), (i % 32) as u32 + 64);
    }
}

#[test]
fn widths_are_enough_and_no_more() {
    assert_eq!(bits_for(1), 1);
    assert_eq!(bits_for(2), 1);
    for bits in 1..20u32 {
        assert_eq!(bits_for((1 << bits) + 1), bits + 1);
        assert_eq!(bits_for(1 << (bits + 1)), bits + 1);
    }
    let states = BlockStates::placeholder();
    assert_eq!(states.direct_bits(), 15);
    assert!(states.total_states - 1 < 1 << states.direct_bits());
}

#[test]
fn ids_survive_every_change_of_representation() {
    let mut container = PalettedContainer::filled(ContainerKind::Blocks, 15, 7);
    let volume = container.volume();
    let mut expected = vec![7u32; volume];
    assert_eq!(container.bits_per_entry(), 0);
    for (step, index) in (0..600).map(|i| (i, (i * 37) % volume)) {
        let id = 100 + step as u32;
        assert_eq!(container.set(index, id), expected[index]);
        expected[index] = id;
    }
    assert_eq!(container.bits_per_entry(), 15);
    for (index, id) in expected.iter().enumerate() {
        assert_eq!(container.get(index), *id);
    }

    // Back to few ids, then to one.
    for index in 0..volume {
        container.set(index, (index % 3) as u32);
    }
    container.shrink();
    assert_eq!(container.bits_per_entry(), 4);
    assert_eq!(container.palette_len(), 3);
    let shrunk = container.clone();
    container.shrink();
    assert_eq!(container, shrunk);
    for index in 0..volume {
        assert_eq!(container.get(index), (index % 3) as u32);
    }
    assert_eq!(container.count(|id| id == 0), volume.div_ceil(3));
    for index in 0..volume {
        container.set(index, 9);
    }
    container.shrink();
    assert_eq!(container.bits_per_entry(), 0);
    assert_eq!(container.get(volume - 1), 9);
}

#[test]
fn entries_are_visited_in_order() {
    let mut container = PalettedContainer::filled(ContainerKind::Biomes, 6, 0);
    container.set(63, 5);
    let mut seen = Vec::new();
    container.for_each(|index, id| seen.push((index, id)));
    let expected: Vec<(usize, u32)> = (0..64).map(|i| (i, if i == 63 { 5 } else { 0 })).collect();
    assert_eq!(seen, expected);
}

#[test]
fn places_and_indices_of_a_section_are_one_to_one() {
    let mut seen = vec![false; SECTION_VOLUME];
    for y in 0..16 {
        for z in 0..16 {
            for x in 0..16 {
                let index = section_index(x, y, z);
                assert_eq!(index, y * 256 + z * 16 + x);
                assert!(!seen[index]);
                seen[index] = true;
            }
        }
    }
    assert!(seen.into_iter().all(|taken| taken));
}

#[test]
fn a_written_block_is_read_back_and_no_other_changes() {
    let states = BlockStates::placeholder();
    let limits = HeightLimits::overworld();
    let mut chunk = Chunk::empty(ChunkPos::new(1, -1), limits, &states);
    assert_eq!(chunk.set_block(3, -64, 5, states.stone, &states), states.air);
    assert_eq!(chunk.set_block(3, 319, 5, states.dirt, &states), states.air);
    assert_eq!(chunk.set_block(3, 319, 5, states.bedrock, &states), states.dirt);
    // Outside the limits nothing is written.
    assert_eq!(chunk.set_block(3, 320, 5, states.dirt, &states), states.air);
    assert_eq!(chunk.set_block(3, -65, 5, states.dirt, &states), states.air);
    for y in -70..330 {
        let expected = match y {
            -64 => states.stone,
            319 => states.bedrock,
            _ => states.air,
        };
        assert_eq!(chunk.block(3, y, 5, &states), expected);
        assert_eq!(chunk.block(5, y, 3, &states), states.air);
    }
}

#[test]
fn heights_are_one_above_the_highest_block() {
    let states = BlockStates::placeholder();
    let limits = HeightLimits::overworld();
    let mut chunk = Chunk::empty(ChunkPos::new(0, 0), limits, &states);
    chunk.set_block(0, -64, 0, states.stone, &states);
    chunk.set_block(1, 319, 0, states.stone, &states);
    chunk.set_block(0, 0, 1, states.stone, &states);
    chunk.recompute_heightmaps(&states);
    let heights = |chunk: &Chunk| -> Vec<u32> {
        (0..COLUMNS)
            .map(|c| chunk.heightmaps().world_surface.get(c))
            .collect()
    };
    let found = heights(&chunk);
    assert_eq!(found[0], 1);
    assert_eq!(found[1], 384);
    assert_eq!(found[16], 65);
    assert!(found[2..16].iter().all(|height| *height == 0));

    // Neither recomputing nor shrinking changes them.
    chunk.recompute_heightmaps(&states);
    assert_eq!(heights(&chunk), found);
    chunk.shrink();
    chunk.recompute_heightmaps(&states);
    assert_eq!(heights(&chunk), found);
}

#[test]
fn nothing_is_counted_just_where_everything_is_air() {
    let states = BlockStates::placeholder();
    let mut chunk = Chunk::empty(ChunkPos::new(0, 0), HeightLimits::overworld(), &states);
    assert!(chunk.sections().iter().all(|s| s.is_empty(&states)));
    chunk.set_block(0, 0, 0, states.dirt, &states);
    let counts: Vec<u16> = chunk
        .sections()
        .iter()
        .map(|s| s.non_air_count(&states))
        .collect();
    assert_eq!(counts.iter().sum::<u16>(), 1);
    assert_eq!(counts[4], 1);
    assert!(!chunk.sections()[4].is_empty(&states));
}

#[test]
fn a_flat_world_is_layered_alike_everywhere() {
    let states = BlockStates::placeholder();
    let limits = HeightLimits::overworld();
    let generator = FlatGenerator {
        surface_y: 70,
        dirt_depth: 3,
    };
    let chunk = generator.generate(ChunkPos::new(-7, 9), limits, &states);
    for (x, z) in [(0, 0), (15, 15), (7, 3)] {
        for y in -64..320 {
            let expected = match y {
                -64 => states.bedrock,
                -63..=66 => states.stone,
                67..=69 => states.dirt,
                70 => states.grass_block,
                _ => states.air,
            };
            assert_eq!(chunk.block(x, y, z, &states), expected, "at {y}");
            assert_eq!(generator.block_at(y, limits, &states), expected);
        }
        assert_eq!(chunk.heightmaps().world_surface.get(z * 16 + x), 135);
        assert_eq!(chunk.heightmaps().motion_blocking.get(z * 16 + x), 135);
    }
}

#[test]
fn an_empty_world_is_air_throughout() {
    let states = BlockStates::placeholder();
    let chunk = VoidGenerator.generate(ChunkPos::new(0, 0), HeightLimits::overworld(), &states);
    assert_eq!(chunk.sections().len(), 24);
    assert!(chunk.sections().iter().all(|s| s.is_empty(&states)));
    let mut out = Vec::new();
    chunk.write_sections(&states, &mut out);
    assert_eq!(out.len(), chunk.sections_wire_len());
}

#[test]
fn biomes_can_be_changed_in_place() {
    let states = BlockStates::placeholder();
    let mut chunk = Chunk::empty(ChunkPos::new(0, 0), HeightLimits::overworld(), &states);
    let section = chunk.section_mut(3).unwrap();
    section.biomes_mut().set(5, 2);
    assert_eq!(chunk.sections()[3].biomes().get(5), 2);
    assert_eq!(chunk.sections()[3].biomes().get(4), 0);
    assert!(chunk.section_mut(24).is_none());
}
