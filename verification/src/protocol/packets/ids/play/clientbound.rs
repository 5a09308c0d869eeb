//! Packets that the server sends.

use vstd::prelude::*;

verus! {

pub const KEEP_ALIVE: i32 = 0x26;

pub const CHUNK_DATA: i32 = 0x27;

pub const GAME_EVENT: i32 = 0x22;

pub const LOGIN: i32 = 0x2C;

pub const DISCONNECT: i32 = 0x1D;

pub const PLAYER_POSITION: i32 = 0x42;

pub const SET_CHUNK_CACHE_CENTER: i32 = 0x58;

pub const SET_DEFAULT_SPAWN_POSITION: i32 = 0x5A;

pub const SYSTEM_CHAT: i32 = 0x73;

} // verus!
