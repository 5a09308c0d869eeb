//! Block state identifiers.
//!
//! Block *state* ids are assigned by the game's own registry and change between
//! versions, so they are data, not code. This module keeps the small set the
//! built-in generators need behind a struct that a real registry load can
//! replace wholesale, rather than scattering magic numbers through the world
//! code.

use vstd::prelude::*;

use crate::world::palette;
use crate::world::palette::bits_for;

verus! {

/// The block states the built-in generators refer to, plus the registry size
/// that fixes the direct-palette width.
#[derive(Debug, Clone, Copy, PartialEq, Eq, Structural)]
pub struct BlockStates {
    pub air: u32,
    pub stone: u32,
    pub dirt: u32,
    pub grass_block: u32,
    pub bedrock: u32,
    /// Total number of block states in the registry.
    pub total_states: u32,
}

impl BlockStates {
    /// Placeholder ids for running without a loaded registry.
    ///
    /// `air` is 0, which the format genuinely guarantees: an all-zero section
    /// is an empty one. The rest are sequential stand-ins: they exercise every
    /// storage path correctly, but a real client needs ids from the version's
    /// block report to render the right blocks.
    #[must_use]
    pub fn placeholder() -> (states: Self)
        ensures
            states == (BlockStates {
                air: 0,
                stone: 1,
                dirt: 2,
                grass_block: 3,
                bedrock: 4,
                total_states: 27_000,
            }),
    {
        BlockStates {
            air: 0,
            stone: 1,
            dirt: 2,
            grass_block: 3,
            bedrock: 4,
            // Roughly the order of magnitude of a modern registry, which is
            // what decides the direct palette width (15 bits).
            total_states: 27_000,
        }
    }

    /// Bit width the direct palette uses, from the registry size.
    #[must_use]
    pub fn direct_bits(&self) -> (bits: u32)
        ensures
            bits == palette::index_bits(self.total_states as nat),
    {
        bits_for(self.total_states as usize)
    }

    /// Whether a state is air, i.e. does not count toward a section's block
    /// count and does not block light.
    #[inline]
    #[must_use]
    pub fn is_air(&self, state: u32) -> (air: bool)
        ensures
            air == (state == self.air),
    {
        state == self.air
    }
}

impl Default for BlockStates {
    fn default() -> (states: Self)
        ensures
            states == (BlockStates {
                air: 0,
                stone: 1,
                dirt: 2,
                grass_block: 3,
                bedrock: 4,
                total_states: 27_000,
            }),
    {
        BlockStates::placeholder()
    }
}

/// Every state of the registry fits the direct width.
pub proof fn law_direct_width_covers_registry(states: BlockStates, state: u32)
    requires
        state < states.total_states,
    ensures
        state < vstd::arithmetic::power2::pow2(palette::index_bits(states.total_states as nat)),
{
    palette::law_index_bits(states.total_states as nat);
}

} // verus!
