//! A Minecraft Java Edition server core, verified with Verus.
//!
//! * [`protocol`] turns bytes into packets and back: the primitive wire
//!   formats, NBT, text components, the frame codec and the packets themselves.
//! * [`world`] is bit-packed block storage, chunk columns and their generation.
//! * [`server`] holds the rules of the server: its configuration, the player
//!   list, the server-list status, tick timing and the connection state machine.

pub mod protocol;
pub mod server;
pub mod world;
