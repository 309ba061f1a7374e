//! Network identity of a W5500 Ethernet controller: hardware address, IP
//! address, gateway and subnet mask.
//!
//! The chip is reached over a register bus ([`bus`]). A [`HostConfig`] holds
//! the four settings, either as they were last written to the chip or as
//! they are wanted. [`Host::write_settings`] compares the two and writes the
//! settings that changed, one register write each, in a fixed order, and
//! takes each over into the cached configuration as soon as the bus has
//! accepted it. What this guarantees, also where the bus fails halfway, is
//! proved in [`laws`].

pub mod bus;
pub mod host;
pub mod laws;
pub mod net;
pub mod register;

pub use bus::{Bus, Traced, Transport};
pub use host::{Host, HostConfig, Manual};
pub use net::{Ipv4Address, MacAddress};
