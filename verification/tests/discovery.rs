use sharself::common::txt::TxtRecord;
use sharself::discovery::broadcast::{device_found_event, device_id, generate_device_id, BroadcastEvent, BroadcastPacket};
use sharself::discovery::resolver::{ResolveOptions, ResolveTarget, ServiceResolver};
use sharself::discovery::scan::{generate_network_range, networks_around};
use sharself::discovery::service::{DiscoveryEvent, DiscoveryState};
use sharself::discovery::types::{DeviceInfo, IpAddress, PeerAddress};
use sharself::common::error::Error;

#[test]
fn test_network_range_generation() {
    let ips = generate_network_range("192.168.1.0/24");
    assert_eq!(ips.len(), 253);
    assert_eq!(ips[0], "192.168.1.1");
    assert_eq!(ips[252], "192.168.1.253");
}

#[test]
fn test_single_ip() {
    let ips = generate_network_range("192.168.1.100");
    assert_eq!(ips.len(), 1);
    assert_eq!(ips[0], "192.168.1.100");
}

#[test]
fn test_device_id_generation() {
    let id1 = generate_device_id();
    let id2 = generate_device_id();
    assert_ne!(id1, id2);
    assert_eq!(id1.len(), 16);
}

#[test]
fn device_id_is_lowercase_hex() {
    let id = generate_device_id();
    assert!(id.chars().all(|c| c.is_ascii_digit() || ('a'..='f').contains(&c)));
}

#[test]
fn networks_around_an_address() {
    let nets = networks_around(Some("10.0.5.7".to_string()));
    assert_eq!(nets.len(), 253);
    assert_eq!(nets[0], "10.0.5.1");
    assert_eq!(nets[252], "10.0.5.253");
    assert_eq!(
        networks_around(None),
        vec!["192.168.1.1", "192.168.0.1", "10.0.0.1", "172.16.0.1"]
    );
    assert!(networks_around(Some("localhost".to_string())).is_empty());
}

fn device(name: &str, last_seen_ms: u64) -> DeviceInfo {
    DeviceInfo {
        name: name.to_string(),
        hostname: format!("{}.local", name),
        addresses: vec![PeerAddress { ip: IpAddress::V4([192, 168, 1, 20]), port: 8080 }],
        port: 8080,
        txt_records: TxtRecord::new(),
        service_type: "_shareself._tcp.local".to_string(),
        last_seen_ms,
    }
}

#[test]
fn discovery_state_found_then_updated() {
    let mut state = DiscoveryState::new();
    match state.update_device(device("alpha", 1000)) {
        DiscoveryEvent::DeviceFound(d) => assert_eq!(d.name, "alpha"),
        other => panic!("unexpected {:?}", other),
    }
    match state.update_device(device("alpha", 2000)) {
        DiscoveryEvent::DeviceUpdated(d) => assert_eq!(d.last_seen_ms, 2000),
        other => panic!("unexpected {:?}", other),
    }
    assert_eq!(state.get_all_devices().len(), 1);
    assert_eq!(state.get_device("alpha").unwrap().last_seen_ms, 2000);
}

#[test]
fn discovery_state_remove_reports_lost_once() {
    let mut state = DiscoveryState::new();
    state.update_device(device("alpha", 1000));
    state.update_device(device("beta", 1000));
    match state.remove_device("alpha") {
        Some(DiscoveryEvent::DeviceLost(n)) => assert_eq!(n, "alpha"),
        other => panic!("unexpected {:?}", other),
    }
    assert!(state.remove_device("alpha").is_none());
    assert!(state.get_device("alpha").is_none());
    assert_eq!(state.get_all_devices()[0].name, "beta");
}

#[test]
fn discovery_state_cleanup_drops_silent_devices() {
    let mut state = DiscoveryState::new();
    state.update_device(device("old", 0));
    state.update_device(device("fresh", 100_000));
    // At 130 s, "old" has been silent for 130 s, "fresh" for 30 s.
    let events = state.cleanup_expired_at(130_000, 120);
    assert_eq!(events.len(), 1);
    match &events[0] {
        DiscoveryEvent::DeviceLost(n) => assert_eq!(n, "old"),
        other => panic!("unexpected {:?}", other),
    }
    let left = state.get_all_devices();
    assert_eq!(left.len(), 1);
    assert_eq!(left[0].name, "fresh");
}

#[test]
fn expiry_counts_whole_seconds() {
    let d = device("x", 1000);
    assert!(!d.is_expired_at(121_999, 120));
    assert!(d.is_expired_at(122_000, 120));
    assert!(!d.is_expired_at(0, 0));
}

#[test]
fn resolver_reports_not_implemented() {
    let r = ServiceResolver::new();
    match r.resolve("a", "_shareself._tcp", "local") {
        Err(Error::Other(m)) => assert_eq!(m, "Resolver not implemented yet"),
        _ => panic!("expected an error"),
    }
    let targets = vec![
        ResolveTarget { instance_name: "a".into(), service_type: "t".into(), domain: "local".into() },
        ResolveTarget { instance_name: "b".into(), service_type: "t".into(), domain: "local".into() },
    ];
    let results = r.resolve_batch(targets);
    assert_eq!(results.len(), 2);
    assert!(results.iter().all(|x| x.is_err()));
    let o = ResolveOptions::default();
    assert!(o.include_ipv6);
    assert_eq!(o.timeout_ms, 3000);
}

#[test]
fn device_id_is_the_hex_of_the_number_high_byte_first() {
    assert_eq!(device_id(0x0102030405060708), "0102030405060708");
    assert_eq!(device_id(0), "0000000000000000");
    assert_eq!(device_id(u64::MAX), "ffffffffffffffff");
    assert_eq!(device_id(0xab), "00000000000000ab");
}

#[test]
fn own_announcements_are_not_reported() {
    let mut p = BroadcastPacket::new("laptop".to_string(), 8080);
    p.id = "00000000000000ab".to_string();
    assert!(device_found_event(p.clone(), "10.0.0.2".to_string(), "00000000000000ab").is_none());
    match device_found_event(p, "10.0.0.2".to_string(), "0000000000000001") {
        Some(BroadcastEvent::DeviceFound { name, address, port, packet }) => {
            assert_eq!(name, "laptop");
            assert_eq!(address, "10.0.0.2");
            assert_eq!(port, 8080);
            assert_eq!(packet.id, "00000000000000ab");
        }
        other => panic!("unexpected {:?}", other),
    }
}

#[test]
fn info_url_names_the_host_port_and_path() {
    assert_eq!(sharself::discovery::scan::info_url("192.168.1.7", 53317), "http://192.168.1.7:53317/api/info");
}

#[test]
fn different_numbers_give_different_device_ids() {
    assert_ne!(device_id(1), device_id(2));
    assert_ne!(device_id(1 << 56), device_id(1));
}
