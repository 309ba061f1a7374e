use embedded_nal::Ipv4Addr;
use w5500_host::register;
use w5500_host::{HostConfig, Ipv4Address, MacAddress};

#[test]
fn default_configuration_is_unspecified() {
    let config = HostConfig::default();
    assert_eq!(config.mac.octets, [0, 0, 0, 0, 0, 0]);
    assert_eq!(config.ip.octets, [0, 0, 0, 0]);
    assert_eq!(config.gateway.octets, [0, 0, 0, 0]);
    assert_eq!(config.subnet.octets, [0, 0, 0, 0]);
}

#[test]
fn default_hardware_address_is_all_zero() {
    assert_eq!(MacAddress::default().octets, [0; 6]);
    assert_eq!(MacAddress::default(), MacAddress::new(0, 0, 0, 0, 0, 0));
}

#[test]
fn unspecified_ip_is_all_zero() {
    assert_eq!(Ipv4Address::unspecified().octets(), [0, 0, 0, 0]);
    assert_eq!(Ipv4Address::unspecified(), Ipv4Address::new(0, 0, 0, 0));
}

#[test]
fn addresses_keep_their_octets_in_order() {
    assert_eq!(Ipv4Address::new(192, 168, 1, 50).octets(), [192, 168, 1, 50]);
    assert_eq!(Ipv4Address::new(192, 168, 1, 50).octets, [192, 168, 1, 50]);
    assert_eq!(
        MacAddress::new(0xAA, 0xBB, 0xCC, 0xDD, 0xEE, 0xFF).octets,
        [0xAA, 0xBB, 0xCC, 0xDD, 0xEE, 0xFF]
    );
}

#[test]
fn ip_addresses_compare_by_every_octet() {
    let base = Ipv4Address::new(1, 2, 3, 4);
    assert!(base == Ipv4Address::new(1, 2, 3, 4));
    assert!(base != Ipv4Address::new(9, 2, 3, 4));
    assert!(base != Ipv4Address::new(1, 9, 3, 4));
    assert!(base != Ipv4Address::new(1, 2, 9, 4));
    assert!(base != Ipv4Address::new(1, 2, 3, 9));
}

#[test]
fn hardware_addresses_compare_by_every_octet() {
    let base = MacAddress::new(1, 2, 3, 4, 5, 6);
    assert!(base == MacAddress::new(1, 2, 3, 4, 5, 6));
    for place in 0..6 {
        let mut other = base;
        other.octets[place] = 9;
        assert!(base != other);
    }
}

#[test]
fn configurations_compare_by_every_setting() {
    let base = HostConfig {
        mac: MacAddress::new(1, 2, 3, 4, 5, 6),
        ip: Ipv4Address::new(10, 0, 0, 2),
        gateway: Ipv4Address::new(10, 0, 0, 1),
        subnet: Ipv4Address::new(255, 0, 0, 0),
    };
    assert!(base == base.clone());
    assert!(base != HostConfig { mac: MacAddress::default(), ..base });
    assert!(base != HostConfig { ip: Ipv4Address::unspecified(), ..base });
    assert!(base != HostConfig { gateway: Ipv4Address::unspecified(), ..base });
    assert!(base != HostConfig { subnet: Ipv4Address::unspecified(), ..base });
    // Gateway and IP address are told apart though they hold the same kind
    // of value.
    let swapped = HostConfig { ip: base.gateway, gateway: base.ip, ..base };
    assert!(base != swapped);
}

#[test]
fn octets_agree_with_the_network_abstraction_layer() {
    let theirs = Ipv4Addr::new(192, 168, 1, 50);
    let ours = Ipv4Address { octets: theirs.octets() };
    assert_eq!(ours, Ipv4Address::new(192, 168, 1, 50));
    let [a, b, c, d] = ours.octets();
    assert_eq!(Ipv4Addr::new(a, b, c, d), theirs);
    assert_eq!(Ipv4Address::unspecified().octets(), Ipv4Addr::new(0, 0, 0, 0).octets());
}

#[test]
fn register_map_follows_the_datasheet() {
    assert_eq!(register::COMMON, 0x00);
    assert_eq!(register::common::GATEWAY, 0x0001);
    assert_eq!(register::common::SUBNET_MASK, 0x0005);
    assert_eq!(register::common::MAC, 0x0009);
    assert_eq!(register::common::IP, 0x000F);
}
