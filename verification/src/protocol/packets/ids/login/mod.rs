//! The login state.

pub mod clientbound;
pub mod serverbound;
