//! Block state ids.

use rukkit::world::BlockStates;

#[test]
fn air_is_zero_so_empty_sections_are_all_zero_bits() {
    assert_eq!(BlockStates::placeholder().air, 0);
}

#[test]
fn direct_width_covers_the_registry() {
    let states = BlockStates::placeholder();
    let bits = states.direct_bits();
    assert_eq!(bits, 15);
    assert!(
        1u32 << bits >= states.total_states,
        "{bits} bits cannot index {} states",
        states.total_states
    );
}

#[test]
fn is_air_only_matches_air() {
    let states = BlockStates::placeholder();
    assert!(states.is_air(states.air));
    assert!(!states.is_air(states.stone));
    assert!(!states.is_air(states.bedrock));
}
