use w5500_host::{Bus, Host, HostConfig, Ipv4Address, MacAddress, Manual, Traced, Transport};

/// A transport that keeps what it is given and refuses the writes whose
/// number, counted from zero over its lifetime, is listed in `refuse`.
struct Recorder {
    frames: Vec<(u8, u16, Vec<u8>)>,
    refuse: Vec<usize>,
}

impl Transport for Recorder {
    type Error = String;

    fn transmit(&mut self, block: u8, address: u16, data: &[u8]) -> Result<(), String> {
        let number = self.frames.len();
        self.frames.push((block, address, data.to_vec()));
        if self.refuse.contains(&number) {
            Err(format!("write {} refused", number))
        } else {
            Ok(())
        }
    }
}

fn host() -> Manual {
    Manual::new(
        MacAddress::new(0x02, 0x00, 0x00, 0x00, 0x00, 0x01),
        Ipv4Address::new(10, 0, 0, 2),
        Ipv4Address::new(10, 0, 0, 1),
        Ipv4Address::new(255, 255, 255, 0),
    )
}

fn all_frames() -> Vec<(u8, u16, Vec<u8>)> {
    vec![
        (0x00, 0x0001, vec![10, 0, 0, 1]),
        (0x00, 0x0005, vec![255, 255, 255, 0]),
        (0x00, 0x0009, vec![0x02, 0x00, 0x00, 0x00, 0x00, 0x01]),
        (0x00, 0x000F, vec![10, 0, 0, 2]),
    ]
}

#[test]
fn manual_host_starts_with_nothing_on_the_chip() {
    let host = host();
    assert_eq!(*host.current(), HostConfig::default());
    assert_eq!(
        *host.settings(),
        HostConfig {
            mac: MacAddress::new(0x02, 0x00, 0x00, 0x00, 0x00, 0x01),
            ip: Ipv4Address::new(10, 0, 0, 2),
            gateway: Ipv4Address::new(10, 0, 0, 1),
            subnet: Ipv4Address::new(255, 255, 255, 0),
        }
    );
}

#[test]
fn manual_refresh_writes_the_settings_once() {
    let mut bus = Traced::new(Recorder { frames: Vec::new(), refuse: Vec::new() });
    let mut host = host();
    assert_eq!(host.refresh(&mut bus), Ok(()));
    assert_eq!(bus.transport().frames, all_frames());
    assert_eq!(host.current(), host.settings());
    assert_eq!(host.refresh(&mut bus), Ok(()));
    assert_eq!(bus.transport().frames, all_frames());
    assert_eq!(host.current(), host.settings());
}

#[test]
fn manual_refresh_hands_the_error_of_the_bus_on() {
    let mut bus = Traced::new(Recorder { frames: Vec::new(), refuse: vec![2] });
    let mut host = host();
    assert_eq!(host.refresh(&mut bus), Err(String::from("write 2 refused")));
    assert_eq!(bus.transport().frames, all_frames()[..3].to_vec());
    assert_eq!(host.current().gateway, Ipv4Address::new(10, 0, 0, 1));
    assert_eq!(host.current().subnet, Ipv4Address::new(255, 255, 255, 0));
    assert_eq!(host.current().mac, MacAddress::default());
    assert_eq!(host.current().ip, Ipv4Address::unspecified());
    assert_eq!(host.settings().mac, MacAddress::new(0x02, 0x00, 0x00, 0x00, 0x00, 0x01));
}

#[test]
fn manual_refresh_after_a_failure_writes_the_rest() {
    let mut bus = Traced::new(Recorder { frames: Vec::new(), refuse: vec![2] });
    let mut host = host();
    assert!(host.refresh(&mut bus).is_err());
    assert_eq!(host.refresh(&mut bus), Ok(()));
    let mut expected = all_frames()[..3].to_vec();
    expected.extend_from_slice(&all_frames()[2..]);
    assert_eq!(bus.transport().frames, expected);
    assert_eq!(host.current(), host.settings());
}

#[test]
fn manual_host_shares_the_reconciliation_of_every_host() {
    let mut bus = Traced::new(Recorder { frames: Vec::new(), refuse: Vec::new() });
    let mut current = HostConfig::default();
    let mut desired = HostConfig::default();
    desired.subnet = Ipv4Address::new(255, 255, 0, 0);
    assert_eq!(Manual::write_settings(&mut bus, &mut current, &desired), Ok(()));
    assert_eq!(bus.write_frame(1, 2, &[3]), Ok(()));
    assert_eq!(
        bus.into_inner().frames,
        vec![(0x00, 0x0005, vec![255, 255, 0, 0]), (1, 2, vec![3])]
    );
    assert_eq!(current, desired);
}
