//! Packets that the server sends.

use vstd::prelude::*;

verus! {

pub const STATUS_RESPONSE: i32 = 0x00;

pub const PONG_RESPONSE: i32 = 0x01;

} // verus!
