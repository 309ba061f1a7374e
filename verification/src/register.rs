//! Register map of the chip, as its datasheet gives it.

use vstd::prelude::*;

pub mod common;

verus! {

/// Block select of the common register block.
pub const COMMON: u8 = 0x00;

} // verus!
