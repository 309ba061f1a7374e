//! Address types: plain octets in transmit order.
//!
//! For each type the meaning of `==` (`eq_spec`) is written ahead of the
//! operator (`eq`) that is proved against it. Written the other way round,
//! `eq` no longer verifies once a provided method of a trait compares two
//! addresses.

use vstd::prelude::*;
use vstd::std_specs::cmp::PartialEqSpecImpl;

verus! {

/// A six-byte hardware (MAC) address.
#[derive(Debug, Clone, Copy, Eq)]
pub struct MacAddress {
    pub octets: [u8; 6],
}

/// A four-byte IPv4 address.
#[derive(Debug, Clone, Copy, Eq)]
pub struct Ipv4Address {
    pub octets: [u8; 4],
}

impl MacAddress {
    /// The address `n0:n1:n2:n3:n4:n5`.
    pub fn new(n0: u8, n1: u8, n2: u8, n3: u8, n4: u8, n5: u8) -> (addr: MacAddress)
        ensures
            addr.octets@ == seq![n0, n1, n2, n3, n4, n5],
    {
        let addr = MacAddress { octets: [n0, n1, n2, n3, n4, n5] };
        assert(addr.octets@ =~= seq![n0, n1, n2, n3, n4, n5]);
        addr
    }
}

impl Default for MacAddress {
    /// The unspecified address `00:00:00:00:00:00`.
    fn default() -> (addr: MacAddress)
        ensures
            addr.octets@ == seq![0u8, 0u8, 0u8, 0u8, 0u8, 0u8],
    {
        MacAddress::new(0, 0, 0, 0, 0, 0)
    }
}

impl PartialEqSpecImpl for MacAddress {
    open spec fn obeys_eq_spec() -> bool {
        true
    }

    open spec fn eq_spec(&self, other: &Self) -> bool {
        *self == *other
    }
}

impl PartialEq for MacAddress {
    fn eq(&self, other: &Self) -> (r: bool) {
        let a = &self.octets;
        let b = &other.octets;
        let r = a[0] == b[0] && a[1] == b[1] && a[2] == b[2] && a[3] == b[3] && a[4] == b[4]
            && a[5] == b[5];
        proof {
            if r {
                assert(self.octets =~= other.octets);
            }
        }
        r
    }
}

impl Ipv4Address {
    /// The address `a.b.c.d`.
    pub fn new(a: u8, b: u8, c: u8, d: u8) -> (addr: Ipv4Address)
        ensures
            addr.octets@ == seq![a, b, c, d],
    {
        let addr = Ipv4Address { octets: [a, b, c, d] };
        assert(addr.octets@ =~= seq![a, b, c, d]);
        addr
    }

    /// The unspecified address `0.0.0.0`.
    pub fn unspecified() -> (addr: Ipv4Address)
        ensures
            addr.octets@ == seq![0u8, 0u8, 0u8, 0u8],
    {
        Ipv4Address::new(0, 0, 0, 0)
    }

    /// The four bytes of the address, first byte first.
    pub fn octets(&self) -> (o: [u8; 4])
        ensures
            o == self.octets,
    {
        self.octets
    }
}

impl PartialEqSpecImpl for Ipv4Address {
    open spec fn obeys_eq_spec() -> bool {
        true
    }

    open spec fn eq_spec(&self, other: &Self) -> bool {
        *self == *other
    }
}

impl PartialEq for Ipv4Address {
    fn eq(&self, other: &Self) -> (r: bool) {
        let a = &self.octets;
        let b = &other.octets;
        let r = a[0] == b[0] && a[1] == b[1] && a[2] == b[2] && a[3] == b[3];
        proof {
            if r {
                assert(self.octets =~= other.octets);
            }
        }
        r
    }
}

} // verus!
