//! Packets that the server sends.

use vstd::prelude::*;

verus! {

pub const COOKIE_REQUEST: i32 = 0x00;

pub const PLUGIN_MESSAGE: i32 = 0x01;

pub const DISCONNECT: i32 = 0x02;

pub const FINISH_CONFIGURATION: i32 = 0x03;

pub const KEEP_ALIVE: i32 = 0x04;

pub const PING: i32 = 0x05;

pub const RESET_CHAT: i32 = 0x06;

pub const REGISTRY_DATA: i32 = 0x07;

pub const REMOVE_RESOURCE_PACK: i32 = 0x08;

pub const ADD_RESOURCE_PACK: i32 = 0x09;

pub const STORE_COOKIE: i32 = 0x0A;

pub const TRANSFER: i32 = 0x0B;

pub const UPDATE_ENABLED_FEATURES: i32 = 0x0C;

pub const UPDATE_TAGS: i32 = 0x0D;

pub const SELECT_KNOWN_PACKS: i32 = 0x0E;

pub const CUSTOM_REPORT_DETAILS: i32 = 0x0F;

pub const SERVER_LINKS: i32 = 0x10;

} // verus!
