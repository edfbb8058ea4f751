use bytes::BytesMut;
use metalbond::codec::{GeneratedMessage, MetalBondCodec};
use metalbond::metalbond::{Multicast, PeerProgress, RouteOutcome};
use metalbond::net::{IpAddr, IpNet, SocketAddr};
use metalbond::pb::NextHopType;
use metalbond::peer::{PeerEffect, PeerMessage, WireState};
use metalbond::types::{Config, ConnectionState, Destination, Duration, NextHop, Vni};
use metalbond::MetalBond;
use std::collections::{HashMap, VecDeque};

fn test_config() -> Config {
    Config {
        keepalive_interval: Duration::from_millis(100),
        retry_interval_min: Duration::from_millis(50),
        retry_interval_max: Duration::from_millis(100),
    }
}

fn addr(node: usize) -> SocketAddr {
    SocketAddr::new(IpAddr::V6(1), 4711 + node as u16)
}

fn dest(text: &str) -> Destination {
    Destination { prefix: IpNet::from_str(text).unwrap() }
}

fn hop(last: u8, target_vni: u32) -> NextHop {
    NextHop {
        target_address: IpAddr::from_slice(&[10, 0, 0, last]).unwrap(),
        target_vni,
        hop_type: NextHopType::Standard,
        nat_port_range_from: 0,
        nat_port_range_to: 0,
    }
}

/// Nodes with wires between them. The first node is the server.
struct Network {
    nodes: Vec<MetalBond>,
    to_peers: VecDeque<(usize, SocketAddr, PeerMessage)>,
    /// What is on its way to a node from another.
    wires: HashMap<(usize, usize), BytesMut>,
}

impl Network {
    fn new(clients: usize) -> Network {
        let mut nodes = vec![MetalBond::new(test_config(), true)];
        for _ in 0..clients {
            nodes.push(MetalBond::new(test_config(), false));
        }
        Network { nodes, to_peers: VecDeque::new(), wires: HashMap::new() }
    }

    fn node_at(&self, addr: SocketAddr) -> usize {
        (addr.port - 4711) as usize
    }

    fn write(&mut self, from: usize, to: SocketAddr, message: GeneratedMessage) {
        let wire = self.wires.entry((self.node_at(to), from)).or_default();
        MetalBondCodec {}.encode(message, wire).unwrap();
    }

    fn connect(&mut self, client: usize) {
        let server = addr(0);
        assert_eq!(self.nodes[0].add_peer(addr(client)), PeerProgress::Done(Ok(())));
        assert_eq!(self.nodes[client].add_peer(server), PeerProgress::Connect(server));
        let (result, hello) = self.nodes[client].finish_add_peer(server, true, WireState::Ready);
        assert!(result.is_ok(), "Failed to add peer: {:?}", result);
        self.write(client, server, hello.unwrap());
        self.settle();
    }

    fn cast(&mut self, node: usize, cast: Option<Multicast>) {
        if let Some(cast) = cast {
            for to in cast.to {
                self.to_peers.push_back((node, to, cast.message));
            }
        }
    }

    fn effect(&mut self, node: usize, peer: SocketAddr, effect: PeerEffect) {
        match effect {
            PeerEffect::Nothing => {}
            PeerEffect::RequestSubscriptions => {
                for message in self.nodes[node].greetings(peer) {
                    self.to_peers.push_back((node, peer, message));
                }
            }
            PeerEffect::RemovePeer(gone) => {
                let (_, outcomes) = self.nodes[node].remove_peer(gone);
                for RouteOutcome { cast, .. } in outcomes {
                    self.cast(node, cast);
                }
            }
        }
    }

    /// Delivers everything that is on its way.
    fn settle(&mut self) {
        loop {
            while let Some((node, peer, message)) = self.to_peers.pop_front() {
                let step = self.nodes[node].peer_message(peer, message, WireState::Ready).unwrap();
                if let Some(message) = step.message {
                    self.write(node, peer, message);
                }
                self.effect(node, peer, step.effect);
            }
            let Some(key) = self.wires.iter().find(|(_, wire)| !wire.is_empty()).map(|(key, _)| *key)
            else {
                return;
            };
            let (node, from) = (key.0, addr(key.1));
            let wire = self.wires.get_mut(&key).unwrap();
            let message = MetalBondCodec {}.decode(wire).unwrap().unwrap();
            let received = self.nodes[node].receive(from, message).unwrap();
            for answer in received.answers {
                self.to_peers.push_back((node, from, answer));
            }
            if let Some(outcome) = received.outcome {
                self.cast(node, outcome.cast);
            }
            self.effect(node, from, received.effect);
        }
    }

    fn subscribe(&mut self, node: usize, vni: Vni) {
        let (result, cast) = self.nodes[node].subscribe(vni);
        result.unwrap();
        self.cast(node, cast);
        self.settle();
    }

    fn announce(&mut self, node: usize, vni: Vni, dest: Destination, nh: NextHop) {
        let (result, cast) = self.nodes[node].announce_route(vni, dest, nh);
        result.unwrap();
        self.cast(node, cast);
        self.settle();
    }

    fn withdraw(&mut self, node: usize, vni: Vni, dest: Destination, nh: NextHop) {
        let (result, cast) = self.nodes[node].withdraw_route(vni, dest, nh);
        result.unwrap();
        self.cast(node, cast);
        self.settle();
    }

    fn next_hops(&self, node: usize, vni: Vni, dest: Destination) -> Vec<NextHop> {
        self.nodes[node].route_table_view().get_next_hops_by_destination(vni, dest)
    }
}

#[test]
fn test_server_client_basic_connectivity() {
    let mut net = Network::new(1);
    net.connect(1);
    assert_eq!(net.nodes[1].get_peer_state(addr(0)), Ok(ConnectionState::Established));
    assert_eq!(net.nodes[0].get_peer_state(addr(1)), Ok(ConnectionState::Established));
}

#[test]
fn test_route_announcement_and_propagation() {
    let mut net = Network::new(2);
    net.connect(1);
    net.connect(2);

    let vni: Vni = 100;
    net.subscribe(1, vni);
    net.subscribe(2, vni);

    let dest = dest("192.168.1.0/24");
    let next_hop = hop(1, 200);
    net.announce(1, vni, dest, next_hop);
    assert_eq!(net.next_hops(2, vni, dest), vec![next_hop]);
    assert!(net.next_hops(1, vni, dest).is_empty());

    net.withdraw(1, vni, dest, next_hop);
    assert!(net.next_hops(2, vni, dest).is_empty());
    assert!(net.nodes[0].route_table_view().get_vnis().is_empty());
}

#[test]
fn test_route_propagation_verification() {
    let mut net = Network::new(2);
    assert!(
        net.nodes[0].route_table_view().get_vnis().is_empty(),
        "Server should start with empty route table"
    );
    // One client subscribes before it is connected.
    let vni: Vni = 100;
    net.subscribe(1, vni);
    net.connect(1);
    net.connect(2);
    net.subscribe(2, vni);

    let dest = dest("192.168.2.0/24");
    let next_hop = hop(2, 200);
    net.announce(2, vni, dest, next_hop);

    let next_hops = net.next_hops(1, vni, dest);
    println!("Client1 received {} next hops for the destination", next_hops.len());
    assert_eq!(next_hops, vec![next_hop]);
    assert_eq!(net.nodes[1].route_table_view().get_vnis(), vec![vni]);
}

#[test]
fn test_route_cleanup_on_disconnect() {
    let mut net = Network::new(2);
    assert!(
        net.nodes[0].route_table_view().get_vnis().is_empty(),
        "Server should start with empty route table"
    );
    net.connect(1);
    net.connect(2);
    let vni: Vni = 100;
    net.subscribe(1, vni);
    net.subscribe(2, vni);

    let dest = dest("192.168.3.0/24");
    let next_hop = hop(3, 200);
    net.announce(1, vni, dest, next_hop);
    assert_eq!(net.next_hops(0, vni, dest), vec![next_hop]);
    assert_eq!(net.next_hops(2, vni, dest), vec![next_hop]);

    // The server sees that the connection is lost.
    net.to_peers.push_back((0, addr(1), PeerMessage::SetState(ConnectionState::Closed)));
    net.settle();
    assert!(net.next_hops(0, vni, dest).is_empty());
    assert!(net.nodes[0].route_table_view().get_vnis().is_empty());
    assert!(net.next_hops(2, vni, dest).is_empty());
    assert!(net.nodes[0].get_peer_state(addr(1)).is_err());
}

#[test]
fn test_lockless_concurrency() {
    const NUM_CLIENTS: usize = 5;
    let mut net = Network::new(NUM_CLIENTS);
    for client in 1..=NUM_CLIENTS {
        net.connect(client);
    }

    const NUM_VNIS: usize = 10;
    let vnis: Vec<Vni> = (100..100 + NUM_VNIS as u32).collect();
    for client in 1..=NUM_CLIENTS {
        for &vni in &vnis {
            net.subscribe(client, vni);
        }
    }

    const NUM_DESTINATIONS: usize = 20;
    let mut routes = Vec::with_capacity(NUM_DESTINATIONS);
    for i in 0..NUM_DESTINATIONS {
        let prefix = format!("192.168.{}.0/24", i % 255);
        routes.push((dest(&prefix), hop((i % 254 + 1) as u8, 200 + i as u32)));
    }

    // Every client announces every route; the clients take turns.
    for (i, (d, nh)) in routes.iter().enumerate() {
        for client in 1..=NUM_CLIENTS {
            net.announce(client, vnis[i % vnis.len()], *d, *nh);
        }
    }
    for (i, (d, nh)) in routes.iter().enumerate() {
        for node in 0..=NUM_CLIENTS {
            assert_eq!(net.next_hops(node, vnis[i % vnis.len()], *d), vec![*nh]);
        }
    }

    // As long as one client announces a route, nobody loses it.
    for client in 1..=NUM_CLIENTS {
        for (i, (d, nh)) in routes.iter().enumerate() {
            net.withdraw(client, vnis[i % vnis.len()], *d, *nh);
            let expected = if client < NUM_CLIENTS { vec![*nh] } else { vec![] };
            assert_eq!(net.next_hops(0, vnis[i % vnis.len()], *d), expected);
            assert_eq!(net.next_hops(1, vnis[i % vnis.len()], *d), expected);
            // The last client hears no longer of a route that it alone announces.
            let expected = if client < NUM_CLIENTS - 1 { vec![*nh] } else { vec![] };
            assert_eq!(net.next_hops(NUM_CLIENTS, vnis[i % vnis.len()], *d), expected);
        }
    }
    for node in 0..=NUM_CLIENTS {
        assert!(net.nodes[node].route_table_view().get_vnis().is_empty());
    }
    println!("Concurrency test completed successfully - no deadlocks or panics");
}

#[test]
fn announcements_before_the_connection() {
    let mut net = Network::new(2);
    let (d, nh) = (dest("192.168.2.0/24"), hop(1, 200));
    net.announce(1, 100, d, nh);
    net.subscribe(2, 100);
    net.connect(2);
    net.connect(1);
    assert_eq!(net.next_hops(0, 100, d), vec![nh]);
    assert_eq!(net.next_hops(2, 100, d), vec![nh]);
}

#[test]
fn a_lost_connection_comes_back() {
    let mut net = Network::new(2);
    net.connect(1);
    net.connect(2);
    net.subscribe(1, 100);
    net.subscribe(2, 100);
    let (d1, d2, nh) = (dest("192.168.2.0/24"), dest("192.168.3.0/24"), hop(1, 200));
    net.announce(1, 100, d1, nh);
    net.announce(2, 100, d2, nh);
    assert_eq!(net.next_hops(1, 100, d2), vec![nh]);

    // Both sides see that the connection is lost.
    for (node, peer) in [(0, addr(1)), (1, addr(0))] {
        for RouteOutcome { cast, .. } in net.nodes[node].connection_lost(peer) {
            net.cast(node, cast);
        }
    }
    net.settle();
    assert!(net.next_hops(1, 100, d2).is_empty());
    assert!(net.next_hops(2, 100, d1).is_empty());
    assert_eq!(net.nodes[1].get_peer_state(addr(0)), Ok(ConnectionState::Retry));
    assert!(net.nodes[0].get_peer_state(addr(1)).is_err());
    assert_eq!(net.nodes[0].next_retry(addr(1), 0), None);

    // The client waits ever longer, up to the greatest time.
    assert_eq!(net.nodes[1].next_retry(addr(0), 0), Some(Duration::from_millis(50)));
    assert_eq!(net.nodes[1].next_retry(addr(0), 1), Some(Duration::from_millis(100)));
    assert_eq!(net.nodes[1].next_retry(addr(0), 9), Some(Duration::from_millis(100)));
    assert_eq!(net.nodes[1].retry_connection(addr(0)), PeerProgress::Connect(addr(0)));
    assert!(net.nodes[1].finish_retry(addr(0), false).0.is_err());
    assert!(net.nodes[1].next_retry(addr(0), 1).is_some());

    assert_eq!(net.nodes[0].add_peer(addr(1)), PeerProgress::Done(Ok(())));
    let (result, effect, hello) = net.nodes[1].finish_retry(addr(0), true);
    assert!(result.is_ok());
    assert_eq!(effect, PeerEffect::Nothing);
    net.to_peers.push_back((1, addr(0), hello.unwrap()));
    net.settle();
    assert_eq!(net.nodes[1].get_peer_state(addr(0)), Ok(ConnectionState::Established));
    assert_eq!(net.nodes[1].next_retry(addr(0), 0), None);
    assert_eq!(net.next_hops(1, 100, d2), vec![nh]);
    assert_eq!(net.next_hops(2, 100, d1), vec![nh]);
}
