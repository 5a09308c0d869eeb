//! Packed bit storage.

use rukkit::world::bitstorage::{cells_required, reciprocal, BitStorage, MAX_BITS};

#[test]
fn reciprocal_division_matches_real_division() {
    // The optimization the whole structure rests on.
    for bits in 1..=MAX_BITS {
        let vpl = 64 / bits;
        let magic = reciprocal(vpl);
        for index in 0..100_000usize {
            let fast = ((index as u64 * magic) >> 32) as usize;
            assert_eq!(
                fast,
                index / vpl as usize,
                "bits={bits} vpl={vpl} index={index}"
            );
        }
    }
}

#[test]
fn round_trips_every_value_at_every_width() {
    for bits in 1..=16u32 {
        let max = (1u64 << bits) - 1;
        let mut storage = BitStorage::new(64, bits);
        for i in 0..64usize {
            storage.set(i, (i as u64 % (max + 1)) as u32);
        }
        for i in 0..64usize {
            assert_eq!(
                storage.get(i),
                (i as u64 % (max + 1)) as u32,
                "bits={bits} index={i}"
            );
        }
    }
}

#[test]
fn set_returns_the_previous_value() {
    let mut storage = BitStorage::new(16, 5);
    assert_eq!(storage.set(3, 17), 0);
    assert_eq!(storage.set(3, 4), 17);
    assert_eq!(storage.get(3), 4);
}

#[test]
fn entries_never_straddle_two_cells() {
    // 5 bits gives 12 values per long with 4 bits left unused; writing the
    // last value in a cell must not disturb the next cell.
    let mut storage = BitStorage::new(24, 5);
    storage.set(11, 31);
    storage.set(12, 1);
    assert_eq!(storage.get(11), 31);
    assert_eq!(storage.get(12), 1);
    assert_eq!(storage.data().len(), 2);
    // The top 4 bits of the first cell stay clear.
    assert_eq!(storage.data()[0] >> 60, 0);
}

#[test]
fn cell_count_matches_vanilla_layout() {
    // 4096 blocks at 4 bits: 16 per long, 256 longs.
    assert_eq!(cells_required(4096, 4), 256);
    // 4096 at 5 bits: 12 per long, 342 longs (the last partly used).
    assert_eq!(cells_required(4096, 5), 342);
    // 4096 at 15 bits: 4 per long, 1024 longs.
    assert_eq!(cells_required(4096, 15), 1024);
    // 64 biomes at 3 bits: 21 per long, 4 longs.
    assert_eq!(cells_required(64, 3), 4);
}

#[test]
fn writes_do_not_bleed_into_neighbours() {
    let mut storage = BitStorage::new(4096, 6);
    for i in 0..4096 {
        storage.set(i, 63);
    }
    // Clear one entry and confirm only it changed.
    storage.set(1000, 0);
    for i in 0..4096 {
        let expected = if i == 1000 { 0 } else { 63 };
        assert_eq!(storage.get(i), expected, "index {i}");
    }
}

#[test]
fn for_each_visits_every_entry_in_order() {
    let mut storage = BitStorage::new(100, 7);
    for i in 0..100 {
        storage.set(i, (i % 128) as u32);
    }
    let mut seen = Vec::new();
    storage.for_each(|index, value| seen.push((index, value)));
    assert_eq!(seen.len(), 100);
    for (i, (index, value)) in seen.into_iter().enumerate() {
        assert_eq!(index, i);
        assert_eq!(value, (i % 128) as u32);
    }
}

#[test]
fn for_each_agrees_with_get() {
    for bits in [1u32, 4, 5, 6, 9, 15, 32] {
        let len = 300;
        let mut storage = BitStorage::new(len, bits);
        let max = ((1u64 << bits) - 1) as u32;
        for i in 0..len {
            storage.set(i, (i as u32).min(max));
        }
        storage.for_each(|index, value| {
            assert_eq!(value, storage.get(index), "bits={bits} index={index}");
        });
    }
}

#[test]
fn remap_preserves_logical_contents() {
    let mut storage = BitStorage::new(4096, 4);
    for i in 0..4096 {
        storage.set(i, (i % 16) as u32);
    }
    let wider = storage.remap(9, |v| v * 2);
    assert_eq!(wider.bits(), 9);
    assert_eq!(wider.len(), 4096);
    for i in 0..4096 {
        assert_eq!(wider.get(i), (i % 16) as u32 * 2, "index {i}");
    }
}

#[test]
fn from_data_rejects_a_wrong_sized_array() {
    assert!(BitStorage::from_data(4096, 4, vec![0; 256]).is_some());
    assert!(BitStorage::from_data(4096, 4, vec![0; 255]).is_none());
    assert!(BitStorage::from_data(4096, 4, vec![0; 257]).is_none());
    assert!(BitStorage::from_data(4096, 0, vec![]).is_none());
}

#[test]
fn from_data_preserves_the_bit_pattern() {
    let mut original = BitStorage::new(64, 6);
    for i in 0..64 {
        original.set(i, (i % 64) as u32);
    }
    let restored = BitStorage::from_data(64, 6, original.data().to_vec()).expect("valid data");
    assert_eq!(restored, original);
}

#[test]
fn a_clone_of_a_storage_is_equal_and_apart() {
    let mut storage = BitStorage::new(100, 5);
    for index in 0..100usize {
        storage.set(index, (index % 32) as u32);
    }
    let copy = storage.clone();
    assert_eq!(copy, storage);
    storage.set(7, 31);
    assert_eq!(copy.get(7), 7);
    assert_eq!(storage.get(7), 31);
}
