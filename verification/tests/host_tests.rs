use metalbond::cli::{
    assemble_announcement, netlink_config, parse_announcement, parse_table_mapping,
    parse_table_mappings, AnnouncementError, MappingError,
};
use metalbond::client::DummyClient;
use metalbond::http_server::get_route_data;
use metalbond::net::{IpAddr, IpNet};
use metalbond::netlink::{
    NetlinkClient, NetlinkClientConfig, NetlinkError, RouteAttribute, RouteMessage,
};
use metalbond::pb::NextHopType;
use metalbond::routetable::RouteTable;
use metalbond::sorting::sort;
use metalbond::text::{parse_i32, parse_unsigned, push_decimal, split};
use metalbond::types::{Destination, IpVersion, NextHop};
use std::collections::HashMap;

fn dest(text: &str) -> Destination {
    Destination { prefix: IpNet::from_str(text).unwrap() }
}

fn hop(text: &str) -> NextHop {
    NextHop {
        target_address: IpAddr::from_str(text).unwrap(),
        target_vni: 0,
        hop_type: NextHopType::Standard,
        nat_port_range_from: 0,
        nat_port_range_to: 0,
    }
}

#[test]
fn announcements() {
    let plain = parse_announcement("100#192.168.1.0/24#10.0.0.1").unwrap();
    assert_eq!(plain.vni, 100);
    assert_eq!(plain.destination, dest("192.168.1.0/24"));
    assert_eq!(plain.next_hop, hop("10.0.0.1"));

    let nat = parse_announcement("100#10.0.0.0/8#192.168.0.1#nat#1024#2048").unwrap();
    assert_eq!(nat.next_hop.hop_type, NextHopType::Nat);
    assert_eq!(nat.next_hop.nat_port_range_from, 1024);
    assert_eq!(nat.next_hop.nat_port_range_to, 2048);
    assert_eq!(nat.next_hop.target_vni, 0);

    let lb = parse_announcement("23#10.0.23.0/24#2001:db8::1#LB").unwrap();
    assert_eq!(lb.next_hop.hop_type, NextHopType::LoadbalancerTarget);
    assert_eq!(lb.next_hop.target_address, IpAddr::from_str("2001:db8::1").unwrap());
    let std = parse_announcement("+23#::/0#2001:db8::1#STD").unwrap();
    assert_eq!(std.next_hop.hop_type, NextHopType::Standard);
}

#[test]
fn announcement_errors() {
    let error = |text: &str| parse_announcement(text).unwrap_err();
    assert_eq!(error(""), AnnouncementError::Malformed);
    assert_eq!(error("100#10.0.0.0/8"), AnnouncementError::Malformed);
    assert_eq!(error("1#10.0.0.0/8#1.1.1.1#nat#1#2#3"), AnnouncementError::Malformed);
    assert_eq!(error("x#10.0.0.0/8#1.1.1.1"), AnnouncementError::InvalidVni);
    assert_eq!(error("4294967296#10.0.0.0/8#1.1.1.1"), AnnouncementError::InvalidVni);
    assert_eq!(error("1#10.0.0.0#1.1.1.1"), AnnouncementError::InvalidPrefix);
    assert_eq!(error("1#10.0.0.0/8#host"), AnnouncementError::InvalidNextHop);
    assert_eq!(error("1#10.0.0.0/8#1.1.1.1#nat"), AnnouncementError::MalformedNat);
    assert_eq!(error("1#10.0.0.0/8#1.1.1.1#nat#1"), AnnouncementError::MalformedNat);
    assert_eq!(error("1#10.0.0.0/8#1.1.1.1#nat#65536#1"), AnnouncementError::InvalidFromPort);
    assert_eq!(error("1#10.0.0.0/8#1.1.1.1#nat#1#-1"), AnnouncementError::InvalidToPort);
    assert_eq!(error("1#10.0.0.0/8#1.1.1.1#std#1#2"), AnnouncementError::UnexpectedPortRange);
    // The first thing that is wrong is reported.
    assert_eq!(error("x#y#z"), AnnouncementError::InvalidVni);
    assert_eq!(error("1#y#z"), AnnouncementError::InvalidPrefix);
}

#[test]
fn announcements_from_their_parts() {
    let parts = vec!["7".to_string(), "p".to_string(), "h".to_string(), "t".to_string()];
    let (d, ip) = (dest("10.0.0.0/8"), IpAddr::V4(1));
    let made =
        assemble_announcement(&parts, Some(d), Some(ip), NextHopType::LoadbalancerTarget).unwrap();
    assert_eq!(made.vni, 7);
    assert_eq!(made.destination, d);
    assert_eq!(made.next_hop.hop_type, NextHopType::LoadbalancerTarget);
    assert_eq!(
        assemble_announcement(&parts, None, Some(ip), NextHopType::Standard),
        Err(AnnouncementError::InvalidPrefix)
    );
    assert_eq!(
        assemble_announcement(&parts, Some(d), None, NextHopType::Standard),
        Err(AnnouncementError::InvalidNextHop)
    );
    assert_eq!(
        assemble_announcement(&parts, Some(d), Some(ip), NextHopType::Nat),
        Err(AnnouncementError::MalformedNat)
    );
}

#[test]
fn table_mappings() {
    assert_eq!(parse_table_mapping("100#10"), Ok((100, 10)));
    assert_eq!(parse_table_mapping("23#2147483647"), Ok((23, i32::MAX)));
    assert_eq!(parse_table_mapping("23"), Err(MappingError::Malformed));
    assert_eq!(parse_table_mapping("23#1#2"), Err(MappingError::Malformed));
    assert_eq!(parse_table_mapping("-1#1"), Err(MappingError::InvalidVni));
    assert_eq!(parse_table_mapping("1#2147483648"), Err(MappingError::InvalidTable));
    assert_eq!(parse_table_mapping("1#0"), Err(MappingError::NoSuchTable(0)));
    assert_eq!(parse_table_mapping("1#-2147483648"), Err(MappingError::NoSuchTable(i32::MIN)));

    let list = |texts: &[&str]| texts.iter().map(|t| t.to_string()).collect::<Vec<String>>();
    let map = parse_table_mappings(&list(&["1#10", "2#20", "1#30"])).unwrap();
    assert_eq!(map.len(), 2);
    assert_eq!(map[&1], 30);
    assert_eq!(map[&2], 20);
    assert_eq!(
        parse_table_mappings(&list(&["1#10", "2#x", "3"])).unwrap_err(),
        MappingError::InvalidTable
    );

    assert!(netlink_config(&list(&[]), None, true).unwrap().is_none());
    assert_eq!(
        netlink_config(&list(&["1#10"]), None, true).unwrap_err(),
        MappingError::MissingInterface
    );
    assert_eq!(
        netlink_config(&list(&["1"]), Some("tun0".to_string()), true).unwrap_err(),
        MappingError::Malformed
    );
    let config = netlink_config(&list(&["1#10"]), Some("tun0".to_string()), true).unwrap().unwrap();
    assert_eq!(config.vni_table_map[&1], 10);
    assert_eq!(config.link_name, "tun0");
    assert!(config.ipv4_only);
}

#[test]
fn numbers_and_parts() {
    assert_eq!(split("", '#'), vec![""]);
    assert_eq!(split("#", '#'), vec!["", ""]);
    assert_eq!(split("a#b##c", '#'), vec!["a", "b", "", "c"]);
    assert_eq!(split("\u{e9}#\u{20ac}", '#'), vec!["\u{e9}", "\u{20ac}"]);
    assert_eq!(split("a#b##c", '#').join("#"), "a#b##c");

    for text in ["0", "+0", "007", "65535", "65536", "", "+", "-", "-1", "1 ", " 1", "1_0", "+-1", "\u{0663}"] {
        assert_eq!(parse_unsigned(text, 65535).map(|v| v as u16), text.parse::<u16>().ok(), "{}", text);
    }
    for text in ["0", "-0", "+5", "-5", "2147483647", "2147483648", "-2147483648", "-2147483649", "--1", "", "-", "x"] {
        assert_eq!(parse_i32(text), text.parse::<i32>().ok(), "{}", text);
    }
    for value in [0, 9, 10, 4711, u64::MAX] {
        let mut out = "n".to_string();
        push_decimal(value, &mut out);
        assert_eq!(out, format!("n{}", value));
    }
}

fn client(ipv4_only: bool) -> NetlinkClient {
    let mut vni_table_map = HashMap::new();
    vni_table_map.insert(1, 100);
    vni_table_map.insert(2, 0);
    vni_table_map.insert(3, -5);
    vni_table_map.insert(4, 1000);
    let config = NetlinkClientConfig { vni_table_map, link_name: "tun0".to_string(), ipv4_only };
    NetlinkClient::new(config, Some(7)).unwrap()
}

#[test]
fn routes_that_are_installed() {
    let client = client(false);
    let message = client.add_route(1, dest("10.1.2.3/16"), hop("2001:db8::1")).unwrap().unwrap();
    assert_eq!(message.address_family, IpVersion::V4);
    assert_eq!(message.destination_prefix_length, 16);
    assert_eq!(message.table, 100);
    assert_eq!(message.protocol, 254);
    assert_eq!(message.scope, 0);
    assert_eq!(message.kind, 1);
    assert_eq!(
        message.attributes,
        vec![
            RouteAttribute::Destination(IpAddr::from_str("10.1.0.0").unwrap()),
            RouteAttribute::Oif(7),
            RouteAttribute::Gateway(IpAddr::from_str("2001:db8::1").unwrap()),
        ]
    );
    assert!(message.belongs_to_metalbond(100, 7));
    assert!(!message.belongs_to_metalbond(101, 7));
    assert!(!message.belongs_to_metalbond(100, 8));

    // A next hop with an IPv4 address is no gateway.
    let message = client.remove_route(4, dest("2001:db8::/64"), hop("10.0.0.1")).unwrap().unwrap();
    assert_eq!(message.address_family, IpVersion::V6);
    assert_eq!(message.table, 1000);
    assert_eq!(message.attributes.len(), 2);
    assert!(message.belongs_to_metalbond(1000, 7));
    assert!(!message.belongs_to_metalbond(232, 7));
    let built = client.build_route_message(i32::MAX, dest("::/0"), IpAddr::V4(1));
    assert_eq!(built.table, 2147483647);
}

#[test]
fn routes_that_are_not_installed() {
    let (v4, v6) = (dest("10.0.0.0/8"), dest("2001:db8::/64"));
    let nh = hop("2001:db8::1");
    assert!(client(true).add_route(1, v4, nh).unwrap().is_some());
    assert!(client(true).add_route(1, v6, nh).unwrap().is_none());
    // Not even an error for a virtual network without a table.
    assert!(client(true).remove_route(9, v6, nh).unwrap().is_none());
    assert_eq!(client(false).add_route(9, v4, nh).unwrap_err(), NetlinkError::NoTable(9));
    assert_eq!(client(false).add_route(2, v4, nh).unwrap_err(), NetlinkError::InvalidTable(0, 2));
    assert_eq!(client(false).remove_route(3, v4, nh).unwrap_err(), NetlinkError::InvalidTable(-5, 3));
    let nat = NextHop { hop_type: NextHopType::Nat, ..nh };
    assert!(client(false).add_route(1, v4, nat).unwrap().is_none());
    assert_eq!(client(false).add_route(9, v4, nat).unwrap_err(), NetlinkError::NoTable(9));

    assert_eq!(client(false).clear_routes_for_vni(4), Ok(1000));
    assert_eq!(client(false).clear_routes_for_vni(9), Err(NetlinkError::NoTable(9)));
    assert_eq!(client(false).clear_routes_for_vni(2), Err(NetlinkError::InvalidTable(0, 2)));
    let mut tables = client(false).config.tables_to_clear();
    tables.sort();
    assert_eq!(tables, vec![(1, 100), (4, 1000)]);
    let config = client(false).config;
    assert_eq!(NetlinkClient::new(config, None).unwrap_err(), NetlinkError::LinkNotFound);
}

#[test]
fn routes_of_others_stay() {
    let message = |protocol: u8, attributes: Vec<RouteAttribute>| RouteMessage {
        address_family: IpVersion::V4,
        destination_prefix_length: 8,
        table: 100,
        protocol,
        scope: 0,
        kind: 1,
        attributes,
    };
    assert!(message(254, vec![RouteAttribute::Other, RouteAttribute::Oif(7)]).belongs_to_metalbond(100, 7));
    assert!(!message(254, vec![RouteAttribute::Oif(7)]).belongs_to_metalbond(356, 7));
    assert!(!message(3, vec![RouteAttribute::Oif(7)]).belongs_to_metalbond(100, 7));
    assert!(!message(254, vec![]).belongs_to_metalbond(100, 7));
    assert!(!message(254, vec![RouteAttribute::Oif(8), RouteAttribute::Oif(7)]).belongs_to_metalbond(100, 7));
}

#[test]
fn a_dummy_takes_everything() {
    let dummy = DummyClient::new().unwrap();
    assert!(dummy.add_route(1, dest("10.0.0.0/8"), hop("1.1.1.1")).is_ok());
    assert!(dummy.remove_route(1, dest("10.0.0.0/8"), hop("1.1.1.1")).is_ok());
    assert!(dummy.clear_routes_for_vni(1).is_ok());
}

#[test]
fn routes_on_the_dashboard() {
    let mut table = RouteTable::new();
    assert!(get_route_data(&table).is_empty());
    let (d1, d2, d3) = (dest("9.0.0.0/8"), dest("10.0.0.0/8"), dest("::/0"));
    for vni in [300, 2, 10] {
        for d in [d3, d2, d1] {
            for h in ["9.0.0.1", "10.0.0.1", "2001:db8::1"] {
                table.add_next_hop(vni, d, hop(h), None);
            }
        }
    }
    let rows = get_route_data(&table);
    assert_eq!(rows.iter().map(|r| r.vni).collect::<Vec<u32>>(), vec![2, 10, 300]);
    for row in &rows {
        let shown: Vec<Destination> = row.destinations.iter().map(|d| d.destination).collect();
        assert_eq!(shown, vec![d1, d2, d3]);
        for d in &row.destinations {
            // By text, not by number.
            assert_eq!(d.next_hops, vec![hop("10.0.0.1"), hop("2001:db8::1"), hop("9.0.0.1")]);
        }
    }
    assert_eq!(sort(&vec![3u32, 1, 2]), vec![1, 2, 3]);
}
