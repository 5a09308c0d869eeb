//! The handshaking state.

pub mod serverbound;
