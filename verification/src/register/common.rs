//! Offsets within the common register block.

use vstd::prelude::*;

verus! {

/// Gateway address register, four bytes.
pub const GATEWAY: u16 = 0x0001;

/// Subnet mask register, four bytes.
pub const SUBNET_MASK: u16 = 0x0005;

/// Source hardware address register, six bytes.
pub const MAC: u16 = 0x0009;

/// Source IP address register, four bytes.
pub const IP: u16 = 0x000F;

} // verus!
