//! Positions, modes and other small wire types.

use rukkit::protocol::nbt::NbtTag;
use rukkit::protocol::types::{Float32, Float64};
use rukkit::protocol::{BlockPos, ChunkPos, Difficulty, GameMode};

#[test]
fn block_pos_round_trips_including_negatives() {
    let cases = [
        BlockPos::new(0, 0, 0),
        BlockPos::new(1, 2, 3),
        BlockPos::new(-1, -1, -1),
        BlockPos::new(33_554_431, 2047, 33_554_431),
        BlockPos::new(-33_554_432, -2048, -33_554_432),
        BlockPos::new(1_000_000, -64, -1_000_000),
    ];
    for pos in cases {
        assert_eq!(BlockPos::decode(pos.encode()), pos, "round trip {pos:?}");
    }
}

#[test]
fn block_pos_packing_matches_vanilla_layout() {
    // x=1, y=2, z=3 packs to the documented bit pattern.
    let packed = BlockPos::new(1, 2, 3).encode();
    assert_eq!(packed, (1i64 << 38) | (3i64 << 12) | 2);
}

#[test]
fn chunk_pos_long_round_trips() {
    for pos in [
        ChunkPos::new(0, 0),
        ChunkPos::new(-1, 5),
        ChunkPos::new(i32::MIN, i32::MAX),
    ] {
        assert_eq!(ChunkPos::from_long(pos.to_long()), pos);
    }
}

#[test]
fn block_to_chunk_floors_toward_negative_infinity() {
    assert_eq!(BlockPos::new(0, 0, 0).chunk(), ChunkPos::new(0, 0));
    assert_eq!(BlockPos::new(15, 0, 15).chunk(), ChunkPos::new(0, 0));
    assert_eq!(BlockPos::new(16, 0, 16).chunk(), ChunkPos::new(1, 1));
    // -1 must land in chunk -1, not chunk 0.
    assert_eq!(BlockPos::new(-1, 0, -1).chunk(), ChunkPos::new(-1, -1));
    assert_eq!(BlockPos::new(-16, 0, -16).chunk(), ChunkPos::new(-1, -1));
    assert_eq!(BlockPos::new(-17, 0, -17).chunk(), ChunkPos::new(-2, -2));
}

#[test]
fn view_distance_uses_chebyshev_not_euclidean() {
    let origin = ChunkPos::new(0, 0);
    assert_eq!(origin.chebyshev_distance(ChunkPos::new(3, 4)), 4);
    assert_eq!(origin.chebyshev_distance(ChunkPos::new(-5, 2)), 5);
}

#[test]
fn invalid_enum_ids_are_rejected() {
    assert!(GameMode::from_id(4).is_err());
    assert!(GameMode::from_id(-1).is_err());
    assert!(Difficulty::from_id(9).is_err());
}

#[test]
fn numbers_are_compared_as_numbers() {
    let values = [0.0, -0.0, 1.0, -1.0, f32::MIN_POSITIVE, 1e-45, f32::INFINITY, f32::NAN, -f32::NAN];
    for a in values {
        for b in values {
            let (x, y) = (a.to_bits(), b.to_bits());
            assert_eq!(Float32 { bits: x } == Float32 { bits: y }, a == b, "{a} {b}");
            let (a, b) = (f64::from(a), f64::from(b));
            let (x, y) = (a.to_bits(), b.to_bits());
            assert_eq!(Float64 { bits: x } == Float64 { bits: y }, a == b, "{a} {b}");
        }
    }
    let not_a_number = Float64 {
        bits: f64::NAN.to_bits(),
    };
    assert_ne!(NbtTag::Double(not_a_number), NbtTag::Double(not_a_number));
}
