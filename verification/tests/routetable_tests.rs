use metalbond::net::{IpAddr, IpNet, SocketAddr};
use metalbond::pb::NextHopType;
use metalbond::routetable::{
    RouteTable, RouteTableCommand, RouteTableError, RouteTableMsg, RouteTableReply,
};
use metalbond::types::{Destination, NextHop, Vni};

fn dest(text: &str) -> Destination {
    Destination { prefix: IpNet::from_str(text).unwrap() }
}

fn hop(target_address: IpAddr) -> NextHop {
    NextHop {
        target_address,
        target_vni: 200,
        hop_type: NextHopType::Standard,
        nat_port_range_from: 0,
        nat_port_range_to: 0,
    }
}

fn v4(a: u8, b: u8, c: u8, d: u8) -> IpAddr {
    IpAddr::from_slice(&[a, b, c, d]).unwrap()
}

#[test]
fn test_add_and_query_route() {
    let mut route_table = RouteTable::new();
    let vni: Vni = 100;
    let dest = dest("192.168.1.0/24");
    let next_hop = hop(v4(10, 0, 0, 1));
    let peer: Option<SocketAddr> = None; // Local route

    let added = route_table.add_next_hop(vni, dest, next_hop, peer);
    assert!(added);

    let exists = route_table.next_hop_exists(vni, dest, next_hop, peer);
    assert!(exists);

    let vnis = route_table.get_vnis();
    assert_eq!(vnis.len(), 1);
    assert_eq!(vnis[0], vni);

    let destinations = route_table.get_destinations_by_vni(vni);
    assert_eq!(destinations.len(), 1);
    assert!(destinations.contains_key(&dest));

    let next_hops = route_table.get_next_hops_by_destination(vni, dest);
    assert_eq!(next_hops.len(), 1);
    assert_eq!(next_hops[0], next_hop);
}

#[test]
fn test_remove_route() {
    let mut route_table = RouteTable::new();
    let vni: Vni = 100;
    let dest = dest("192.168.1.0/24");
    let next_hop = hop(v4(10, 0, 0, 1));
    let peer: Option<SocketAddr> = None;

    route_table.add_next_hop(vni, dest, next_hop, peer);
    let remaining = route_table.remove_next_hop(vni, dest, next_hop, peer).unwrap();
    assert_eq!(remaining, 0);

    let exists = route_table.next_hop_exists(vni, dest, next_hop, peer);
    assert!(!exists);

    // VNI should be cleaned up
    let vnis = route_table.get_vnis();
    assert_eq!(vnis.len(), 0);
}

#[test]
fn test_multiple_next_hops() {
    let mut route_table = RouteTable::new();
    let vni: Vni = 100;
    let dest = dest("192.168.1.0/24");
    let next_hop1 = hop(v4(10, 0, 0, 1));
    let next_hop2 = hop(v4(10, 0, 0, 2));
    let peer: Option<SocketAddr> = None;

    route_table.add_next_hop(vni, dest, next_hop1, peer);
    route_table.add_next_hop(vni, dest, next_hop2, peer);

    let next_hops = route_table.get_next_hops_by_destination(vni, dest);
    assert_eq!(next_hops.len(), 2);
    assert!(next_hops.contains(&next_hop1));
    assert!(next_hops.contains(&next_hop2));

    let remaining = route_table.remove_next_hop(vni, dest, next_hop1, peer).unwrap();

    let exists1 = route_table.next_hop_exists(vni, dest, next_hop1, peer);
    assert!(!exists1, "next_hop1 should be removed");

    let exists2 = route_table.next_hop_exists(vni, dest, next_hop2, peer);
    assert!(exists2, "next_hop2 should still exist");

    let next_hops = route_table.get_next_hops_by_destination(vni, dest);
    let actual_remaining = next_hops.len();

    assert_eq!(actual_remaining, 1, "There should be exactly 1 next hop remaining");
    assert_eq!(next_hops[0], next_hop2, "If a next hop remains, it should be next_hop2");

    println!("Reported remaining: {}, Actual remaining: {}", remaining, actual_remaining);
}

#[test]
fn test_peer_routes() {
    let mut route_table = RouteTable::new();
    let vni: Vni = 100;
    let dest = dest("192.168.1.0/24");
    let next_hop = hop(v4(10, 0, 0, 1));
    let peer = Some(SocketAddr::new(v4(192, 168, 1, 10), 4711));

    route_table.add_next_hop(vni, dest, next_hop, peer);

    let destinations = route_table.get_destinations_by_vni_with_peer(vni);
    assert_eq!(destinations.len(), 1);
    assert!(destinations.contains_key(&dest));
    let peers = destinations.get(&dest).unwrap().get(&next_hop).unwrap();
    assert_eq!(peers.len(), 1);
    assert_eq!(peers[0], peer);

    let removed = route_table.remove_routes_from_peer(peer.unwrap());
    assert_eq!(removed.len(), 1);
    assert_eq!(removed[0], (vni, dest, next_hop));

    let exists = route_table.next_hop_exists(vni, dest, next_hop, peer);
    assert!(!exists);
}

#[test]
fn test_same_route_different_peers() {
    let mut route_table = RouteTable::new();
    let vni: Vni = 100;
    let dest = dest("192.168.1.0/24");
    let next_hop = hop(v4(10, 0, 0, 1));
    let peer1 = Some(SocketAddr::new(v4(192, 168, 1, 10), 4711));
    let peer2 = Some(SocketAddr::new(v4(192, 168, 1, 11), 4711));

    route_table.add_next_hop(vni, dest, next_hop, peer1);
    route_table.add_next_hop(vni, dest, next_hop, peer2);

    let destinations = route_table.get_destinations_by_vni_with_peer(vni);
    let peers = destinations.get(&dest).unwrap().get(&next_hop).unwrap();
    assert_eq!(peers.len(), 2);
    assert!(peers.contains(&peer1));
    assert!(peers.contains(&peer2));

    let removed = route_table.remove_routes_from_peer(peer1.unwrap());
    assert_eq!(removed.len(), 1);

    // Route should still exist due to second peer
    let exists = route_table.next_hop_exists(vni, dest, next_hop, peer2);
    assert!(exists);

    let removed = route_table.remove_routes_from_peer(peer2.unwrap());
    assert_eq!(removed.len(), 1);

    let exists = route_table.next_hop_exists(vni, dest, next_hop, peer2);
    assert!(!exists);
}

#[test]
fn test_ipv6_routes() {
    let mut route_table = RouteTable::new();
    let vni: Vni = 100;
    let dest = dest("2001:db8::/64");
    let next_hop = hop(IpAddr::from_str("2001:db8::1").unwrap());
    let peer: Option<SocketAddr> = None;

    let added = route_table.add_next_hop(vni, dest, next_hop, peer);
    assert!(added);

    let exists = route_table.next_hop_exists(vni, dest, next_hop, peer);
    assert!(exists);

    let next_hops = route_table.get_next_hops_by_destination(vni, dest);
    assert_eq!(next_hops.len(), 1);
    assert_eq!(next_hops[0], next_hop);
}

#[test]
fn removal_errors() {
    let mut table = RouteTable::new();
    let (d1, d2) = (dest("10.0.0.0/8"), dest("11.0.0.0/8"));
    let (h1, h2) = (hop(v4(1, 1, 1, 1)), hop(v4(2, 2, 2, 2)));
    let peer = Some(SocketAddr::new(v4(192, 168, 1, 10), 4711));
    assert_eq!(table.remove_next_hop(1, d1, h1, None), Err(RouteTableError::VniNotFound(1)));
    table.add_next_hop(1, d1, h1, None);
    assert_eq!(table.remove_next_hop(1, d2, h1, None), Err(RouteTableError::DestinationNotFound(d2, 1)));
    assert_eq!(table.remove_next_hop(1, d1, h2, None), Err(RouteTableError::NextHopNotFound(h2, d1)));
    assert_eq!(table.remove_next_hop(1, d1, h1, peer), Err(RouteTableError::PeerNotFound(peer, h1)));
    assert!(table.next_hop_exists(1, d1, h1, None));
    assert!(!table.add_next_hop(1, d1, h1, None));
    assert!(table.add_next_hop(1, d1, h1, peer));
    assert_eq!(table.remove_next_hop(1, d1, h1, None), Ok(1));
    assert!(table.has_next_hop(1, d1, h1));
    assert_eq!(table.remove_next_hop(1, d1, h1, peer), Ok(0));
    assert!(!table.has_next_hop(1, d1, h1));
    assert!(table.get_vnis().is_empty());
}

#[test]
fn a_view_has_no_routes() {
    let mut view = RouteTable::new_view();
    let (d, h) = (dest("10.0.0.0/8"), hop(v4(1, 1, 1, 1)));
    assert!(!view.add_next_hop(1, d, h, None));
    assert!(!view.next_hop_exists(1, d, h, None));
    assert_eq!(view.remove_next_hop(1, d, h, None), Err(RouteTableError::NotAvailable));
    assert!(view.get_vnis().is_empty());
    assert_eq!(view.get_destinations_by_vni(1).len(), 0);
    assert_eq!(view.get_local_announcements().len(), 0);
    let (reply, notices) = view.handle(RouteTableCommand::AddNextHop(1, d, h, None));
    assert!(matches!(reply, RouteTableReply::Added(false)));
    assert!(notices.is_empty());
}

#[test]
fn local_announcements() {
    let mut table = RouteTable::new();
    let (d1, d2) = (dest("10.0.0.0/8"), dest("11.0.0.0/8"));
    let (h1, h2) = (hop(v4(1, 1, 1, 1)), hop(v4(2, 2, 2, 2)));
    let peer = Some(SocketAddr::new(v4(192, 168, 1, 10), 4711));
    table.add_next_hop(1, d1, h1, None);
    table.add_next_hop(1, d1, h2, peer);
    table.add_next_hop(1, d2, h1, peer);
    table.add_next_hop(2, d1, h1, peer);
    table.add_next_hop(3, d2, h2, peer);
    table.add_next_hop(3, d2, h2, None);
    let local = table.get_local_announcements();
    assert_eq!(local.len(), 2);
    assert!(!local.contains_key(&2));
    let first = local.get(&1).unwrap();
    assert_eq!(first.len(), 1);
    assert_eq!(*first.get(&d1).unwrap(), vec![h1]);
    assert_eq!(*local.get(&3).unwrap().get(&d2).unwrap(), vec![h2]);

    let mut removed = table.remove_routes_from_peer(peer.unwrap());
    removed.sort();
    assert_eq!(removed, vec![(1, d1, h2), (1, d2, h1), (2, d1, h1), (3, d2, h2)]);
    let mut vnis = table.get_vnis();
    vnis.sort();
    assert_eq!(vnis, vec![1, 3]);
    assert!(table.remove_routes_from_peer(peer.unwrap()).is_empty());
}

#[test]
fn commands_answers_and_notices() {
    let mut table = RouteTable::new();
    let (d, h) = (dest("10.0.0.0/8"), hop(v4(1, 1, 1, 1)));
    let addr = SocketAddr::new(v4(192, 168, 1, 10), 4711);
    let peer = Some(addr);

    let (reply, notices) = table.handle(RouteTableCommand::AddNextHop(1, d, h, peer));
    assert!(matches!(reply, RouteTableReply::Added(true)));
    assert_eq!(notices, vec![RouteTableMsg::RouteAdded(1, d, h, peer)]);
    // The watchers are told again.
    let (reply, notices) = table.handle(RouteTableCommand::AddNextHop(1, d, h, peer));
    assert!(matches!(reply, RouteTableReply::Added(false)));
    assert_eq!(notices, vec![RouteTableMsg::RouteAdded(1, d, h, peer)]);

    let (reply, notices) = table.handle(RouteTableCommand::NextHopExists(1, d, h, peer));
    assert!(matches!(reply, RouteTableReply::Exists(true)));
    assert!(notices.is_empty());
    assert!(matches!(table.handle(RouteTableCommand::GetVnis).0, RouteTableReply::Vnis(v) if v == vec![1]));
    assert!(matches!(
        table.handle(RouteTableCommand::GetNextHopsByDestination(1, d)).0,
        RouteTableReply::NextHops(hops) if hops == vec![h]
    ));
    assert!(matches!(
        table.handle(RouteTableCommand::GetDestinationsByVni(1)).0,
        RouteTableReply::Destinations(map) if map.len() == 1
    ));
    assert!(matches!(
        table.handle(RouteTableCommand::GetDestinationsByVniWithPeer(1)).0,
        RouteTableReply::DestinationsWithPeer(map) if map.len() == 1
    ));
    assert!(matches!(
        table.handle(RouteTableCommand::GetLocalAnnouncements).0,
        RouteTableReply::LocalAnnouncements(map) if map.len() == 0
    ));

    let (reply, notices) = table.handle(RouteTableCommand::RemoveNextHop(2, d, h, peer));
    assert!(matches!(reply, RouteTableReply::Removed(Err(RouteTableError::VniNotFound(2)))));
    assert!(notices.is_empty());
    let (reply, notices) = table.handle(RouteTableCommand::RemoveRoutesFromPeer(addr));
    assert!(matches!(reply, RouteTableReply::RoutesRemoved(list) if list == vec![(1, d, h)]));
    assert_eq!(notices, vec![RouteTableMsg::RouteRemoved(1, d, h, peer)]);

    table.add_next_hop(1, d, h, None);
    let (reply, notices) = table.handle(RouteTableCommand::RemoveNextHop(1, d, h, None));
    assert!(matches!(reply, RouteTableReply::Removed(Ok(0))));
    assert_eq!(notices, vec![RouteTableMsg::RouteRemoved(1, d, h, None)]);
}

#[test]
fn routes_that_others_announced() {
    let mut table = RouteTable::new();
    let (d1, d2) = (dest("10.0.0.0/8"), dest("11.0.0.0/8"));
    let h = hop(v4(1, 1, 1, 1));
    let a = SocketAddr::new(v4(192, 168, 1, 10), 4711);
    let b = SocketAddr::new(v4(192, 168, 1, 11), 4711);
    table.add_next_hop(1, d1, h, Some(a));
    table.add_next_hop(1, d2, h, Some(a));
    table.add_next_hop(1, d2, h, Some(b));
    assert_eq!(table.routes_from_others(1, a), vec![(d2, h)]);
    assert_eq!(table.routes_from_others(1, b).len(), 2);
    assert!(table.routes_from_others(2, a).is_empty());
}
