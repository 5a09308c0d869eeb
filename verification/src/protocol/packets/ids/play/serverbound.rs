//! Packets that the client sends.

use vstd::prelude::*;

verus! {

pub const ACCEPT_TELEPORTATION: i32 = 0x00;

pub const CHAT_COMMAND: i32 = 0x05;

pub const CHAT: i32 = 0x07;

pub const CLIENT_TICK_END: i32 = 0x0B;

pub const PLUGIN_MESSAGE: i32 = 0x15;

pub const KEEP_ALIVE: i32 = 0x1A;

pub const MOVE_PLAYER_POS: i32 = 0x1C;

pub const MOVE_PLAYER_POS_ROT: i32 = 0x1D;

pub const MOVE_PLAYER_ROT: i32 = 0x1E;

pub const MOVE_PLAYER_STATUS_ONLY: i32 = 0x1F;

} // verus!
