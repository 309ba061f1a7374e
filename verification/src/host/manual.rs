//! The static strategy: the settings are given once and do not change.

use crate::bus::Bus;
use crate::host::{reconciled, Host, HostConfig};
use crate::laws::{law_failure_keeps_prefix, law_writes_in_order};
use crate::net::{Ipv4Address, MacAddress};
use vstd::prelude::*;

verus! {

/// A host whose settings are fixed when it is made.
pub struct Manual {
    settings: HostConfig,
    current: HostConfig,
}

impl Manual {
    /// The settings that this host is to have.
    pub closed spec fn wanted(&self) -> HostConfig {
        self.settings
    }

    /// The settings that the chip has, as far as this host has written them.
    pub closed spec fn cached(&self) -> HostConfig {
        self.current
    }

    /// A host with the given settings, none of which is on the chip yet.
    pub fn new(mac: MacAddress, ip: Ipv4Address, gateway: Ipv4Address, subnet: Ipv4Address) -> (host:
        Manual)
        ensures
            host.wanted() == (HostConfig { mac, ip, gateway, subnet }),
            host.cached().is_unspecified(),
    {
        Manual { settings: HostConfig { mac, ip, gateway, subnet }, current: HostConfig::default() }
    }

    /// The settings that this host is to have.
    pub fn settings(&self) -> (settings: &HostConfig)
        ensures
            *settings == self.wanted(),
    {
        &self.settings
    }

    /// The settings that the chip has, as far as this host has written them.
    pub fn current(&self) -> (current: &HostConfig)
        ensures
            *current == self.cached(),
    {
        &self.current
    }
}

impl Host for Manual {
    /// Writes to the chip what is still missing of the settings.
    fn refresh<SpiBus: Bus>(&mut self, bus: &mut SpiBus) -> (r: Result<(), SpiBus::Error>)
        ensures
            final(self).wanted() == old(self).wanted(),
            reconciled(
                old(bus).exchanges(),
                old(self).cached(),
                old(self).wanted(),
                final(bus).exchanges(),
                final(self).cached(),
                r,
            ),
    {
        let ghost before = bus.exchanges();
        let ghost start = self.current;
        let r = Self::write_settings(bus, &mut self.current, &self.settings);
        proof {
            law_writes_in_order(before, start, self.settings, bus.exchanges(), self.current, r);
            if r is Err {
                law_failure_keeps_prefix(
                    before,
                    start,
                    self.settings,
                    bus.exchanges(),
                    self.current,
                    r,
                );
                assert(bus.exchanges().last().outcome == r);
            }
        }
        r
    }
}

} // verus!
