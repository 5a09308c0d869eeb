//! The game version this build speaks.

use vstd::prelude::*;

verus! {

/// Network protocol number advertised in the handshake and status response.
pub const PROTOCOL_VERSION: i32 = 776;

/// Human-readable version shown in the server list.
pub const MINECRAFT_VERSION: &'static str = "26.2";

/// World storage data version, written into chunk and level NBT.
pub const DATA_VERSION: i32 = 4903;

/// Name reported in the server brand plugin message (`minecraft:brand`).
pub const SERVER_BRAND: &'static str = "Rukkit";

/// True when `protocol` is the exact version this build implements.
///
/// Packet ids are renumbered nearly every release, so anything other than an
/// exact match is rejected at handshake time.
#[inline]
pub fn is_supported(protocol: i32) -> (supported: bool)
    ensures
        supported == (protocol == PROTOCOL_VERSION),
{
    protocol == PROTOCOL_VERSION
}

} // verus!
