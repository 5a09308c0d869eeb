//! Packets that the client sends.

use vstd::prelude::*;

verus! {

pub const INTENTION: i32 = 0x00;

} // verus!
