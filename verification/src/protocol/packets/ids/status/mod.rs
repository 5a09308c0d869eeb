//! The status state.

pub mod clientbound;
pub mod serverbound;
