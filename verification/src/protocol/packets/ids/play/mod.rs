//! The play state.

use vstd::prelude::*;

pub mod clientbound;
pub mod serverbound;

verus! {

/// Set while the play ids are unverified against 26.2.
pub const PROVISIONAL: bool = true;

} // verus!
