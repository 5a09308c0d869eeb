//! Packet ids, gathered in one place.
//!
//! Minecraft renumbers packet ids nearly every release, so isolating them here
//! keeps a version bump in one directory instead of a hunt through the packet
//! structs.
//!
//! The handshaking, status, login and configuration tables are settled. The
//! **play** table is provisional: play ids churn between releases and cannot be
//! confirmed from the wire format alone. [`play::PROVISIONAL`] records that, and
//! the server logs a warning when a connection reaches play.

pub mod configuration;
pub mod handshaking;
pub mod login;
pub mod play;
pub mod status;
