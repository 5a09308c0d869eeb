//! Packets that the client sends.

use vstd::prelude::*;

verus! {

pub const STATUS_REQUEST: i32 = 0x00;

pub const PING_REQUEST: i32 = 0x01;

} // verus!
