//! Paletted containers.

use rukkit::protocol::PacketReader;
use rukkit::world::palette::bits_for;
use rukkit::world::{ContainerKind, PalettedContainer};

const DIRECT_BITS: u32 = 15;
const AIR: u32 = 0;
const STONE: u32 = 1;

fn blocks(value: u32) -> PalettedContainer {
    PalettedContainer::filled(ContainerKind::Blocks, DIRECT_BITS, value)
}

#[test]
fn bits_for_counts_correctly() {
    assert_eq!(bits_for(0), 1);
    assert_eq!(bits_for(1), 1);
    assert_eq!(bits_for(2), 1);
    assert_eq!(bits_for(3), 2);
    assert_eq!(bits_for(4), 2);
    assert_eq!(bits_for(5), 3);
    assert_eq!(bits_for(256), 8);
    assert_eq!(bits_for(257), 9);
}

#[test]
fn a_uniform_container_stores_nothing_per_entry() {
    let container = blocks(STONE);
    assert_eq!(container.bits_per_entry(), 0);
    for i in 0..container.volume() {
        assert_eq!(container.get(i), STONE);
    }
}

#[test]
fn writing_the_same_value_does_not_promote() {
    let mut container = blocks(STONE);
    container.set(5, STONE);
    assert_eq!(
        container.bits_per_entry(),
        0,
        "should still be single-valued"
    );
}

#[test]
fn second_value_promotes_to_indirect_at_the_minimum_width() {
    let mut container = blocks(AIR);
    assert_eq!(container.set(10, STONE), AIR);
    assert_eq!(container.bits_per_entry(), 4, "blocks start at 4 bits");
    assert_eq!(container.get(10), STONE);
    assert_eq!(container.get(11), AIR);
}

#[test]
fn palette_widens_as_values_are_added() {
    let mut container = blocks(AIR);
    // 16 distinct ids fit in 4 bits; the 17th forces 5.
    for i in 0..16u32 {
        container.set(i as usize, i);
    }
    assert_eq!(container.bits_per_entry(), 4);
    container.set(16, 99);
    assert_eq!(container.bits_per_entry(), 5);

    for i in 0..16u32 {
        assert_eq!(container.get(i as usize), i, "index {i}");
    }
    assert_eq!(container.get(16), 99);
}

#[test]
fn exceeding_the_palette_limit_switches_to_direct() {
    let mut container = blocks(AIR);
    // 257 distinct values cannot fit an 8-bit palette.
    for i in 0..257usize {
        container.set(i, i as u32);
    }
    assert_eq!(
        container.bits_per_entry(),
        DIRECT_BITS,
        "should have gone direct"
    );
    for i in 0..257usize {
        assert_eq!(container.get(i), i as u32, "index {i}");
    }
    // Untouched entries kept their original value through both conversions.
    assert_eq!(container.get(1000), AIR);
}

#[test]
fn set_returns_the_previous_id_through_every_representation() {
    let mut container = blocks(AIR);
    assert_eq!(container.set(0, STONE), AIR);
    assert_eq!(container.set(0, 5), STONE);

    // Force a widen, then a direct conversion, checking the return each time.
    for i in 1..300usize {
        container.set(i, i as u32 + 100);
    }
    assert_eq!(container.set(0, 7), 5);
    assert_eq!(container.set(50, 8), 150);
}

#[test]
fn biomes_use_their_own_thresholds() {
    let mut container = PalettedContainer::filled(ContainerKind::Biomes, 6, 0);
    assert_eq!(container.volume(), 64);
    container.set(0, 1);
    assert_eq!(container.bits_per_entry(), 1, "biomes start at 1 bit");
    for i in 0..9u32 {
        container.set(i as usize, i);
    }
    // Beyond 3 bits biomes go direct.
    assert_eq!(container.bits_per_entry(), 6);
}

#[test]
fn fill_resets_to_single_value() {
    let mut container = blocks(AIR);
    for i in 0..100 {
        container.set(i, i as u32);
    }
    assert!(container.bits_per_entry() > 0);
    container.fill(STONE);
    assert_eq!(container.bits_per_entry(), 0);
    assert_eq!(container.get(4095), STONE);
}

#[test]
fn count_matches_a_manual_sweep() {
    let mut container = blocks(AIR);
    for i in 0..1000usize {
        container.set(i, STONE);
    }
    assert_eq!(container.count(|id| id == STONE), 1000);
    assert_eq!(container.count(|id| id == AIR), 4096 - 1000);
    assert_eq!(container.count(|id| id != AIR), 1000);

    // Uniform containers take the fast path but must agree.
    assert_eq!(blocks(STONE).count(|id| id != AIR), 4096);
    assert_eq!(blocks(AIR).count(|id| id != AIR), 0);
}

#[test]
fn for_each_agrees_with_get_in_every_representation() {
    let mut container = blocks(AIR);
    let check = |c: &PalettedContainer| {
        c.for_each(|index, id| assert_eq!(id, c.get(index), "index {index}"));
    };
    check(&container);

    container.set(1, STONE);
    check(&container);

    for i in 0..300usize {
        container.set(i, i as u32);
    }
    check(&container);
}

#[test]
fn shrink_recovers_a_single_value_container() {
    let mut container = blocks(AIR);
    for i in 0..500usize {
        container.set(i, i as u32);
    }
    assert!(container.bits_per_entry() > 0);

    container.fill(AIR);
    container.set(0, STONE);
    container.set(0, AIR);
    // Now uniform again but still carrying a palette.
    container.shrink();
    assert_eq!(container.bits_per_entry(), 0);
    assert_eq!(container.get(2000), AIR);
}

#[test]
fn shrink_narrows_an_oversized_palette() {
    let mut container = blocks(AIR);
    for i in 0..20u32 {
        container.set(i as usize, i);
    }
    assert_eq!(container.bits_per_entry(), 5);

    // Collapse back to two distinct values.
    for i in 0..20usize {
        container.set(i, if i % 2 == 0 { AIR } else { STONE });
    }
    container.shrink();
    assert_eq!(
        container.bits_per_entry(),
        4,
        "should narrow to the minimum"
    );
    for i in 0..20usize {
        let expected = if i % 2 == 0 { AIR } else { STONE };
        assert_eq!(container.get(i), expected, "index {i}");
    }
}

#[test]
fn shrink_preserves_contents_exactly() {
    let mut container = blocks(AIR);
    let mut expected = vec![AIR; 4096];
    for i in 0..4096usize {
        let value = (i % 7) as u32;
        container.set(i, value);
        expected[i] = value;
    }
    container.shrink();
    for i in 0..4096 {
        assert_eq!(container.get(i), expected[i], "index {i}");
    }
}

#[test]
fn wire_format_single_value_is_three_bytes() {
    let mut out = Vec::new();
    blocks(STONE).write(&mut out);
    // bits=0, value varint, empty data array length
    assert_eq!(out, vec![0, STONE as u8, 0]);
}

#[test]
fn wire_len_matches_what_write_produces() {
    let mut container = blocks(AIR);
    let mut out = Vec::new();

    container.write(&mut out);
    assert_eq!(out.len(), container.wire_len(), "single");

    container.set(0, STONE);
    out.clear();
    container.write(&mut out);
    assert_eq!(out.len(), container.wire_len(), "indirect");

    for i in 0..300usize {
        container.set(i, i as u32);
    }
    out.clear();
    container.write(&mut out);
    assert_eq!(out.len(), container.wire_len(), "direct");
}

#[test]
fn indirect_wire_format_has_palette_then_cells() {
    let mut container = blocks(AIR);
    container.set(0, STONE);
    let mut out = Vec::new();
    container.write(&mut out);

    let mut r = PacketReader::new(&out);
    assert_eq!(r.read_u8().unwrap(), 4, "bits per entry");
    assert_eq!(r.read_varint().unwrap(), 2, "palette length");
    assert_eq!(r.read_varint().unwrap(), AIR as i32);
    assert_eq!(r.read_varint().unwrap(), STONE as i32);
    assert_eq!(r.read_varint().unwrap(), 256, "cell count for 4-bit 4096");
    assert!(r.is_empty() || r.remaining() == 256 * 8);
}

#[test]
fn count_asks_once_for_each_id_of_a_palette() {
    // A question that is answered differently each time shows how often it is
    // asked: once for one id, once for each id of a palette, and once for each
    // entry where there is no palette.
    let mut asked = 0u32;
    let mut every_other = |_: u32| {
        asked += 1;
        asked % 2 == 1
    };
    assert_eq!(blocks(STONE).count(&mut every_other), 4096);
    assert_eq!(blocks(STONE).count(&mut every_other), 0);
    assert_eq!(asked, 2);

    let mut container = blocks(AIR);
    for i in 0..1000usize {
        container.set(i, STONE);
    }
    assert_eq!(container.palette_len(), 2);
    let mut asked = Vec::new();
    let total = container.count(|id| {
        asked.push(id);
        asked.len() == 2
    });
    assert_eq!(asked, [AIR, STONE]);
    assert_eq!(total, 1000);

    for i in 0..4096usize {
        container.set(i, i as u32);
    }
    let mut asked = 0u32;
    let total = container.count(|_| {
        asked += 1;
        asked <= 7
    });
    assert_eq!(asked, 4096);
    assert_eq!(total, 7);
}

#[test]
fn a_clone_of_a_container_is_equal_and_apart() {
    for ids in [1usize, 3, 4096] {
        let mut container = blocks(AIR);
        for i in 0..4096usize {
            container.set(i, (i % ids) as u32);
        }
        let copy = container.clone();
        assert_eq!(copy, container);
        assert_eq!(copy.bits_per_entry(), container.bits_per_entry());
        container.set(5, 77);
        assert_eq!(copy.get(5), (5 % ids) as u32);
        assert_eq!(container.get(5), 77);
        assert_ne!(copy, container);
    }
}
