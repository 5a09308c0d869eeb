//! Packets that the server sends.

use vstd::prelude::*;

verus! {

pub const LOGIN_DISCONNECT: i32 = 0x00;

pub const ENCRYPTION_REQUEST: i32 = 0x01;

pub const LOGIN_SUCCESS: i32 = 0x02;

pub const SET_COMPRESSION: i32 = 0x03;

pub const PLUGIN_REQUEST: i32 = 0x04;

pub const COOKIE_REQUEST: i32 = 0x05;

} // verus!
