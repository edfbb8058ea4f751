use metalbond::codec::GeneratedMessage;
use metalbond::net::{IpAddr, IpNet, SocketAddr};
use metalbond::pb;
use metalbond::peer::{
    subscription_requests, Peer, PeerEffect, PeerMessage, PeerReply, SendError, WireState,
};
use metalbond::types::{
    Config, ConnectionDirection, ConnectionState, Destination, Duration, NextHop, UpdateAction, Vni,
};

fn v4(a: u8, b: u8, c: u8, d: u8) -> IpAddr {
    IpAddr::from_slice(&[a, b, c, d]).unwrap()
}

fn local() -> SocketAddr {
    SocketAddr::new(v4(127, 0, 0, 1), 4711)
}

fn outgoing() -> Peer {
    Peer::new(Config::default(), local(), ConnectionDirection::Outgoing)
}

#[test]
fn test_peer_creation() {
    let mut peer = outgoing();

    assert_eq!(peer.get_remote_addr(), local());
    assert_eq!(peer.get_state(), ConnectionState::Connecting);

    assert!(!peer.trigger_shutdown().running);
}

#[test]
fn test_peer_send_hello() {
    let config = Config::default();
    let mut peer = Peer::new(config, local(), ConnectionDirection::Outgoing);

    let (result, _) = peer.send_hello(WireState::Ready);

    match result.unwrap() {
        GeneratedMessage::Hello(hello) => {
            // Check server flag was set based on direction (outgoing = client)
            assert_eq!(hello.is_server, false);
            assert_eq!(hello.keepalive_interval, config.keepalive_interval.as_secs() as u32);
        }
        _ => panic!("Expected Hello message"),
    }
}

#[test]
fn test_peer_send_keepalive() {
    let mut peer = outgoing();

    match peer.send_keepalive(WireState::Ready).unwrap() {
        GeneratedMessage::Keepalive => {}
        _ => panic!("Wrong message type received"),
    }

    peer.trigger_shutdown();
}

#[test]
fn test_peer_send_subscribe() {
    let mut peer = outgoing();

    let vni: Vni = 100;
    match peer.send_subscribe(vni, WireState::Ready).unwrap() {
        GeneratedMessage::Subscribe(sub) => {
            assert_eq!(sub.vni, vni);
        }
        _ => panic!("Wrong message type received"),
    }

    peer.trigger_shutdown();
}

#[test]
fn test_peer_send_unsubscribe() {
    let mut peer = outgoing();

    let vni: Vni = 100;
    match peer.send_unsubscribe(vni, WireState::Ready).unwrap() {
        GeneratedMessage::Unsubscribe(unsub) => {
            assert_eq!(unsub.vni, vni);
        }
        _ => panic!("Wrong message type received"),
    }

    peer.trigger_shutdown();
}

#[test]
fn test_peer_send_update() {
    let mut peer = outgoing();

    let action = UpdateAction::Add;
    let vni: Vni = 100;
    let dest = Destination { prefix: IpNet::from_str("192.168.1.0/24").unwrap() };
    let next_hop = NextHop {
        target_address: v4(10, 0, 0, 1),
        target_vni: 200,
        hop_type: pb::NextHopType::Standard,
        nat_port_range_from: 0,
        nat_port_range_to: 0,
    };

    match peer.send_update(action, vni, dest, next_hop, WireState::Ready).unwrap() {
        GeneratedMessage::Update(update) => {
            assert_eq!(update.action, i32::from(pb::Action::Add));
            assert_eq!(update.vni, vni);

            let dest_pb = update.destination.unwrap();
            assert_eq!(dest_pb.ip_version, i32::from(pb::IpVersion::IPv4));
            assert_eq!(dest_pb.prefix_length, 24);

            let nh_pb = update.next_hop.unwrap();
            assert_eq!(nh_pb.target_vni, 200);
        }
        _ => panic!("Wrong message type received"),
    }

    peer.trigger_shutdown();
}

#[test]
fn test_peer_state_changes() {
    let mut peer = outgoing();
    assert_eq!(peer.get_state(), ConnectionState::Connecting);

    peer.set_state(ConnectionState::HelloSent);
    assert_eq!(peer.get_state(), ConnectionState::HelloSent);

    peer.set_state(ConnectionState::Established);
    assert_eq!(peer.get_state(), ConnectionState::Established);

    peer.set_state(ConnectionState::Closed);
    assert_eq!(peer.get_state(), ConnectionState::Closed);

    peer.trigger_shutdown();
}

#[test]
fn test_auto_subscription_on_established() {
    let mut peer = outgoing();

    // What the node answers when the peer asks for its subscriptions
    let test_vnis = vec![10, 20, 30];

    peer.set_state(ConnectionState::HelloSent);
    peer.set_hello_received(true);
    let effect = peer.set_state(ConnectionState::Established);

    assert_eq!(peer.get_state(), ConnectionState::Established);
    assert_eq!(effect, PeerEffect::RequestSubscriptions);

    let mut subscription_count = 0;
    for request in subscription_requests(&test_vnis) {
        let msg = peer.handle(request, WireState::Ready).message.unwrap();
        match msg {
            GeneratedMessage::Subscribe(sub) => {
                assert!(test_vnis.contains(&sub.vni), "Unexpected VNI: {}", sub.vni);
                subscription_count += 1;
            }
            _ => panic!("Expected Subscribe message, got {:?}", msg),
        }
    }

    assert_eq!(
        subscription_count,
        test_vnis.len(),
        "Expected {} subscription messages, got {}",
        test_vnis.len(),
        subscription_count
    );
}

#[test]
fn test_peer_basic_creation() {
    let peer = outgoing();
    assert_eq!(peer.get_remote_addr(), local());
    assert_eq!(peer.get_state(), ConnectionState::Connecting);
}

#[test]
fn a_wire_that_takes_nothing() {
    let mut peer = outgoing();
    let (result, effect) = peer.send_hello(WireState::Full);
    assert_eq!(result.unwrap_err(), SendError::TxFull);
    assert_eq!(effect, PeerEffect::Nothing);
    assert_eq!(peer, outgoing());
    assert_eq!(peer.send_hello(WireState::Closed).0.unwrap_err(), SendError::TxClosed);
    assert_eq!(peer, outgoing());
    assert_eq!(peer.send_keepalive(WireState::Full).unwrap_err(), SendError::TxFull);
    assert_eq!(peer.send_subscribe(1, WireState::Closed).unwrap_err(), SendError::TxClosed);
}

#[test]
fn the_hello_of_a_server() {
    let config = Config { keepalive_interval: Duration::from_secs(0x1_0000_0007), ..Config::default() };
    let mut peer = Peer::new(config, local(), ConnectionDirection::Incoming);
    match peer.send_hello(WireState::Ready).0.unwrap() {
        GeneratedMessage::Hello(hello) => {
            assert!(hello.is_server);
            assert_eq!(hello.keepalive_interval, 7);
        }
        _ => panic!("Expected Hello message"),
    }
}

#[test]
fn messages_to_the_peer() {
    let mut peer = outgoing();
    let step = peer.handle(PeerMessage::GetState, WireState::Full);
    assert_eq!(step.reply, PeerReply::State(ConnectionState::Connecting));
    assert!(step.message.is_none() && step.running);

    let step = peer.handle(PeerMessage::SendHello, WireState::Ready);
    assert_eq!(step.reply, PeerReply::Sent(Ok(())));
    assert!(matches!(step.message, Some(GeneratedMessage::Hello(_))));
    let step = peer.handle(PeerMessage::GetHelloStatus, WireState::Ready);
    assert_eq!(step.reply, PeerReply::HelloStatus(true, false));

    let step = peer.handle(PeerMessage::SendKeepalive, WireState::Full);
    assert_eq!(step.reply, PeerReply::Sent(Err(SendError::TxFull)));
    assert!(step.message.is_none());
    let step = peer.handle(PeerMessage::SendUnsubscribe(4), WireState::Ready);
    assert!(matches!(
        step.message,
        Some(GeneratedMessage::Unsubscribe(pb::Subscription { vni: 4 }))
    ));
    let step = peer.handle(PeerMessage::SendSubscribe(4), WireState::Ready);
    assert!(matches!(step.message, Some(GeneratedMessage::Subscribe(pb::Subscription { vni: 4 }))));

    let step = peer.handle(PeerMessage::SetState(ConnectionState::Established), WireState::Ready);
    assert_eq!(step.effect, PeerEffect::RequestSubscriptions);
    assert_eq!(step.reply, PeerReply::Silent);
    let step = peer.handle(PeerMessage::SetState(ConnectionState::Established), WireState::Ready);
    assert_eq!(step.effect, PeerEffect::Nothing);
    let step = peer.handle(PeerMessage::SetState(ConnectionState::Retry), WireState::Ready);
    assert_eq!(step.effect, PeerEffect::RemovePeer(local()));
    let step = peer.handle(PeerMessage::SetHelloReceived(true), WireState::Ready);
    assert_eq!(step.effect, PeerEffect::Nothing);
    assert_eq!(peer.get_hello_exchange_status(), (false, true));
    assert!(!peer.handle(PeerMessage::Shutdown, WireState::Ready).running);
}

#[test]
fn the_longest_update_fits() {
    let dest = Destination { prefix: IpNet::new(IpAddr::V6(u128::MAX), 128).unwrap() };
    let next_hop = NextHop {
        target_address: IpAddr::V6(u128::MAX),
        target_vni: u32::MAX,
        hop_type: pb::NextHopType::LoadbalancerTarget,
        nat_port_range_from: u16::MAX,
        nat_port_range_to: u16::MAX,
    };
    let message =
        outgoing().send_update(UpdateAction::Remove, u32::MAX, dest, next_hop, WireState::Ready);
    let (_, bytes) = message.unwrap().into_typed_bytes().unwrap();
    assert_eq!(bytes.len(), 69);
}
