use metalbond::convert::ConversionError;
use metalbond::net::{IpAddr, IpNet};
use metalbond::pb;
use metalbond::pb::{hop_type_of_word, next_hop_type_from_str, NextHopType};
use metalbond::types::{
    retry_delay, ConnectionState, Destination, Duration, InvalidMessageType, IpVersion, MessageType,
    NextHop, UpdateAction,
};
use metalbond::Config;

fn prefix(text: &str) -> IpNet {
    IpNet::from_str(text).unwrap()
}

fn v4(a: u8, b: u8, c: u8, d: u8) -> IpAddr {
    IpAddr::from_slice(&[a, b, c, d]).unwrap()
}

fn hop(target_address: IpAddr, target_vni: u32) -> NextHop {
    NextHop {
        target_address,
        target_vni,
        hop_type: pb::NextHopType::Standard,
        nat_port_range_from: 0,
        nat_port_range_to: 0,
    }
}

#[test]
fn test_destination_display() {
    let dest = Destination { prefix: prefix("192.168.1.0/24") };
    assert_eq!(dest.to_string(), "192.168.1.0/24");

    let dest_v6 = Destination { prefix: prefix("2001:db8::/64") };
    assert_eq!(dest_v6.to_string(), "2001:db8::/64");
}

#[test]
fn test_destination_from_str() {
    let dest = Destination::from_str("192.168.1.0/24").unwrap();
    assert_eq!(dest.prefix, prefix("192.168.1.0/24"));
    assert_eq!(dest.prefix, IpNet::new(v4(192, 168, 1, 0), 24).unwrap());

    let dest_v6 = Destination::from_str("2001:db8::/64").unwrap();
    assert_eq!(dest_v6.prefix, prefix("2001:db8::/64"));
    assert_eq!(dest_v6.prefix, IpNet::new(IpAddr::V6(0x2001_0db8 << 96), 64).unwrap());

    let result = Destination::from_str("invalid");
    assert!(result.is_err());
}

#[test]
fn test_destination_ip_version() {
    let dest_v4 = Destination { prefix: prefix("192.168.1.0/24") };
    assert_eq!(dest_v4.ip_version(), IpVersion::V4);

    let dest_v6 = Destination { prefix: prefix("2001:db8::/64") };
    assert_eq!(dest_v6.ip_version(), IpVersion::V6);
}

#[test]
fn test_next_hop_display() {
    let nh = hop(v4(10, 0, 0, 1), 200);
    assert_eq!(nh.to_string(), "10.0.0.1 (VNI: 200)");

    let nh_no_vni = hop(v4(10, 0, 0, 1), 0);
    assert_eq!(nh_no_vni.to_string(), "10.0.0.1");

    let nh_v6 = hop(IpAddr::V6((0x2001_0db8 << 96) + 1), 200);
    assert_eq!(nh_v6.to_string(), "2001:db8::1 (VNI: 200)");
}

#[test]
fn test_connection_state_display() {
    assert_eq!(ConnectionState::Connecting.to_string(), "CONNECTING");
    assert_eq!(ConnectionState::HelloSent.to_string(), "HELLO_SENT");
    assert_eq!(ConnectionState::HelloReceived.to_string(), "HELLO_RECEIVED");
    assert_eq!(ConnectionState::Established.to_string(), "ESTABLISHED");
    assert_eq!(ConnectionState::Retry.to_string(), "RETRY");
    assert_eq!(ConnectionState::Closed.to_string(), "CLOSED");
}

#[test]
fn test_ip_version_conversion() {
    assert_eq!(IpVersion::from(pb::IpVersion::IPv4), IpVersion::V4);
    assert_eq!(IpVersion::from(pb::IpVersion::IPv6), IpVersion::V6);

    assert_eq!(pb::IpVersion::from(IpVersion::V4), pb::IpVersion::IPv4);
    assert_eq!(pb::IpVersion::from(IpVersion::V6), pb::IpVersion::IPv6);
}

#[test]
fn test_update_action_conversion() {
    assert_eq!(UpdateAction::from(pb::Action::Add), UpdateAction::Add);
    assert_eq!(UpdateAction::from(pb::Action::Remove), UpdateAction::Remove);

    assert_eq!(pb::Action::from(UpdateAction::Add), pb::Action::Add);
    assert_eq!(pb::Action::from(UpdateAction::Remove), pb::Action::Remove);
}

#[test]
fn test_destination_conversion() {
    let dest = Destination { prefix: prefix("192.168.1.0/24") };
    let message = pb::Destination::try_from(dest).unwrap();
    assert_eq!(message.ip_version, 0);
    assert_eq!(message.prefix, vec![192, 168, 1, 0]);
    assert_eq!(message.prefix_length, 24);
    assert_eq!(Destination::try_from(message), Ok(dest));

    let dest_v6 = Destination { prefix: prefix("2001:db8::/64") };
    let message = pb::Destination::try_from(dest_v6).unwrap();
    assert_eq!(message.ip_version, 1);
    assert_eq!(message.prefix.len(), 16);
    assert_eq!(message.prefix[..5], [0x20, 0x01, 0x0d, 0xb8, 0]);
    assert_eq!(Destination::try_from(message), Ok(dest_v6));
}

#[test]
fn test_next_hop_conversion() {
    let nh = NextHop {
        target_address: v4(10, 0, 0, 1),
        target_vni: 200,
        hop_type: pb::NextHopType::Nat,
        nat_port_range_from: 1024,
        nat_port_range_to: 2048,
    };
    let message = pb::NextHop::try_from(nh).unwrap();
    assert_eq!(message.target_address, vec![10, 0, 0, 1]);
    assert_eq!(message.target_vni, 200);
    assert_eq!(message.hop_type, 1);
    assert_eq!(message.nat_port_range_from, 1024);
    assert_eq!(message.nat_port_range_to, 2048);
    assert_eq!(NextHop::try_from(message), Ok(nh));
}

#[test]
fn destination_conversion_errors() {
    let short = pb::Destination { ip_version: 0, prefix: vec![10, 0, 0], prefix_length: 8 };
    assert_eq!(Destination::try_from(short), Err(ConversionError::AddressLength(3)));
    let long = pb::Destination { ip_version: 0, prefix: vec![10, 0, 0, 0], prefix_length: 33 };
    assert_eq!(Destination::try_from(long), Err(ConversionError::PrefixLength(33)));
    // Of the prefix length only the last eight bits count, and the family is not read.
    let odd = pb::Destination { ip_version: 1, prefix: vec![10, 0, 0, 0], prefix_length: 256 + 8 };
    assert_eq!(
        Destination::try_from(odd).unwrap(),
        Destination { prefix: prefix("10.0.0.0/8") }
    );
}

#[test]
fn next_hop_conversion_edges() {
    let message = pb::NextHop {
        target_address: vec![10, 0, 0, 1],
        target_vni: 7,
        hop_type: 99,
        nat_port_range_from: 65536 + 5,
        nat_port_range_to: 70000,
    };
    let nh = NextHop::try_from(message).unwrap();
    assert_eq!(nh.hop_type, pb::NextHopType::Standard);
    assert_eq!(nh.nat_port_range_from, 5);
    assert_eq!(nh.nat_port_range_to, 4464);

    let none = pb::NextHop {
        target_address: vec![],
        target_vni: 0,
        hop_type: 0,
        nat_port_range_from: 0,
        nat_port_range_to: 0,
    };
    assert_eq!(NextHop::try_from(none), Err(ConversionError::AddressLength(0)));
}

#[test]
fn message_type_codes() {
    assert_eq!(MessageType::Hello.code(), 1);
    assert_eq!(MessageType::Keepalive.code(), 2);
    assert_eq!(MessageType::Subscribe.code(), 3);
    assert_eq!(MessageType::Unsubscribe.code(), 4);
    assert_eq!(MessageType::Update.code(), 5);
    for code in 1..=5u8 {
        assert_eq!(MessageType::try_from(code).unwrap().code(), code);
    }
    assert_eq!(MessageType::try_from(0), Err(InvalidMessageType(0)));
    assert_eq!(MessageType::try_from(6), Err(InvalidMessageType(6)));
}

#[test]
fn config_defaults() {
    let config = Config::default();
    assert_eq!(config.keepalive_interval, Duration::from_secs(5));
    assert_eq!(config.retry_interval_min, Duration::from_secs(5));
    assert_eq!(config.retry_interval_max, Duration::from_secs(10));
    assert_eq!(Duration::from_millis(1500), Duration { secs: 1, nanos: 500_000_000 });
    assert_eq!(Duration::from_millis(1500).as_secs(), 1);
}

#[test]
fn order_of_destinations_and_next_hops() {
    let a = Destination { prefix: prefix("10.0.0.0/8") };
    let b = Destination { prefix: prefix("10.0.0.0/16") };
    let c = Destination { prefix: prefix("9.255.0.0/16") };
    let d = Destination { prefix: prefix("::/0") };
    let mut list = vec![d, b, a, c];
    list.sort();
    assert_eq!(list, vec![c, a, b, d]);
    assert!(a < b && b < d && c < a);

    let x = hop(v4(10, 0, 0, 1), 1);
    let y = hop(v4(10, 0, 0, 1), 2);
    let z = NextHop { hop_type: pb::NextHopType::Nat, ..y };
    let u = NextHop { nat_port_range_from: 1, ..z };
    let w = NextHop { nat_port_range_to: 1, ..z };
    let mut hops = vec![u, w, z, y, x];
    hops.sort();
    assert_eq!(hops, vec![x, y, z, w, u]);
    assert!(x < y && y < z && z < w && w < u);
}

#[test]
fn next_hop_types_from_words() {
    assert_eq!(next_hop_type_from_str("std"), NextHopType::Standard);
    assert_eq!(next_hop_type_from_str("Standard"), NextHopType::Standard);
    assert_eq!(next_hop_type_from_str("NAT"), NextHopType::Nat);
    assert_eq!(next_hop_type_from_str("Nat"), NextHopType::Nat);
    assert_eq!(next_hop_type_from_str("LB"), NextHopType::LoadbalancerTarget);
    assert_eq!(next_hop_type_from_str("LoadBalancer"), NextHopType::LoadbalancerTarget);
    assert_eq!(next_hop_type_from_str("LOADBALANCER_TARGET"), NextHopType::LoadbalancerTarget);
    assert_eq!(next_hop_type_from_str("other"), NextHopType::Standard);
    assert_eq!(next_hop_type_from_str(""), NextHopType::Standard);
    assert_eq!(hop_type_of_word(&"nat".to_string()), NextHopType::Nat);
    assert_eq!(hop_type_of_word(&"NAT".to_string()), NextHopType::Standard);
}

#[test]
fn enum_numbers() {
    assert_eq!(i32::from(pb::Action::Remove), 1);
    assert_eq!(i32::from(pb::IpVersion::IPv6), 1);
    assert_eq!(i32::from(pb::NextHopType::LoadbalancerTarget), 2);
    assert_eq!(pb::Action::try_from(1), Ok(pb::Action::Remove));
    assert_eq!(pb::Action::try_from(2), Err(pb::UnknownEnumValue(2)));
    assert_eq!(pb::NextHopType::try_from(1), Ok(pb::NextHopType::Nat));
    assert_eq!(pb::NextHopType::try_from(-1), Err(pb::UnknownEnumValue(-1)));
}

#[test]
fn retry_delays_double_up_to_the_greatest() {
    let config = Config {
        retry_interval_min: Duration::from_secs(1),
        retry_interval_max: Duration::from_secs(30),
        ..Config::default()
    };
    let secs: Vec<u64> = (0..8).map(|n| retry_delay(config, n).as_secs()).collect();
    assert_eq!(secs, vec![1, 2, 4, 8, 16, 30, 30, 30]);
    assert_eq!(retry_delay(config, u32::MAX), Duration::from_secs(30));
    let millis = Config { retry_interval_min: Duration::from_millis(700), ..config };
    assert_eq!(retry_delay(millis, 1), Duration::from_millis(1400));
    let none = Config { retry_interval_min: Duration::from_secs(0), ..config };
    assert_eq!(retry_delay(none, u32::MAX), Duration::from_secs(0));
    // A greatest time below the least one does not count.
    let odd = Config { retry_interval_max: Duration::from_millis(1), ..config };
    assert_eq!(retry_delay(odd, 3), Duration::from_secs(1));
    let huge = Config { retry_interval_max: Duration::from_secs(u64::MAX), ..config };
    assert_eq!(retry_delay(huge, u32::MAX), Duration::from_secs(u64::MAX));
}
