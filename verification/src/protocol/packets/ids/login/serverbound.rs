//! Packets that the client sends.

use vstd::prelude::*;

verus! {

pub const HELLO: i32 = 0x00;

pub const ENCRYPTION_RESPONSE: i32 = 0x01;

pub const PLUGIN_RESPONSE: i32 = 0x02;

pub const LOGIN_ACKNOWLEDGED: i32 = 0x03;

pub const COOKIE_RESPONSE: i32 = 0x04;

} // verus!
