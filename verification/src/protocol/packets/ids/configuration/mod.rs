//! The configuration state.

pub mod clientbound;
pub mod serverbound;
