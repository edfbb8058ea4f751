use metalbond::codec::GeneratedMessage;
use metalbond::metalbond::{
    accept_step, AcceptAction, AcceptEvent, MetalBondCommand, MetalBondError, MetalBondReply,
    PeerProgress, RouteChange,
};
use metalbond::net::{IpAddr, IpNet, SocketAddr};
use metalbond::pb;
use metalbond::peer::{make_update, PeerEffect, PeerMessage, SendError, WireState};
use metalbond::types::{
    Config, ConnectionState, Destination, InternalUpdate, NextHop, UpdateAction, Vni,
};
use metalbond::MetalBond;

fn v4(a: u8, b: u8, c: u8, d: u8) -> IpAddr {
    IpAddr::from_slice(&[a, b, c, d]).unwrap()
}

fn addr(last: u8) -> SocketAddr {
    SocketAddr::new(v4(127, 0, 0, last), 4711)
}

fn dest(text: &str) -> Destination {
    Destination { prefix: IpNet::from_str(text).unwrap() }
}

fn hop(last: u8) -> NextHop {
    NextHop {
        target_address: v4(10, 0, 0, last),
        target_vni: 200,
        hop_type: pb::NextHopType::Standard,
        nat_port_range_from: 0,
        nat_port_range_to: 0,
    }
}

fn hello(is_server: bool) -> GeneratedMessage {
    GeneratedMessage::Hello(pb::Hello { keepalive_interval: 5, is_server })
}

/// Connects a client to a peer and exchanges Hellos.
fn connect(mb: &mut MetalBond, peer: SocketAddr, to_server: bool) {
    assert_eq!(mb.add_peer(peer), PeerProgress::Connect(peer));
    let (result, message) = mb.finish_add_peer(peer, true, WireState::Ready);
    assert!(result.is_ok());
    assert!(matches!(message, Some(GeneratedMessage::Hello(_))));
    let received = mb.receive(peer, hello(to_server)).unwrap();
    assert_eq!(received.effect, PeerEffect::RequestSubscriptions);
    assert!(received.answers.is_empty());
}

/// Takes a client's connection at a server and exchanges Hellos.
fn accept(mb: &mut MetalBond, peer: SocketAddr) {
    assert_eq!(mb.add_peer(peer), PeerProgress::Done(Ok(())));
    let received = mb.receive(peer, hello(false)).unwrap();
    assert_eq!(received.answers, vec![PeerMessage::SendHello]);
    let step = mb.peer_message(peer, PeerMessage::SendHello, WireState::Ready).unwrap();
    assert_eq!(step.effect, PeerEffect::RequestSubscriptions);
    assert!(matches!(step.message, Some(GeneratedMessage::Hello(h)) if h.is_server));
}

fn subscribe(vni: Vni) -> GeneratedMessage {
    GeneratedMessage::Subscribe(pb::Subscription { vni })
}

#[test]
fn test_metalbond_subscribe() {
    let mut mb = MetalBond::new(Config::default(), true);

    let vni = 100;
    let (result, _) = mb.subscribe(vni);
    assert!(result.is_ok());

    let subscribed_vnis = mb.get_subscribed_vnis();
    assert!(
        subscribed_vnis.contains(&vni),
        "VNI {} should be in subscribed list {:?}",
        vni,
        subscribed_vnis
    );

    let (result, _) = mb.unsubscribe(vni);
    assert!(result.is_ok());

    let subscribed_vnis = mb.get_subscribed_vnis();
    assert!(!subscribed_vnis.contains(&vni));
}

#[test]
fn test_metalbond_announce_route() {
    let mut mb = MetalBond::new(Config::default(), true);

    let vni = 100;
    let dest = dest("192.168.1.0/24");
    let next_hop = hop(1);

    let (result, _) = mb.announce_route(vni, dest, next_hop);
    assert!(result.is_ok());

    let announced = mb.is_route_announced(vni, dest, next_hop);
    assert!(announced, "Route should be announced");

    let (result, _) = mb.withdraw_route(vni, dest, next_hop);
    assert!(result.is_ok());

    let announced = mb.is_route_announced(vni, dest, next_hop);
    assert!(!announced);
}

#[test]
fn test_metalbond_add_peer() {
    let mut mb = MetalBond::new(Config::default(), false);

    // 127.0.0.1:4711
    let peer_addr = addr(1);
    connect(&mut mb, peer_addr, true);

    let state = mb.get_peer_state(peer_addr);
    assert!(state.is_ok());
    assert_eq!(state.unwrap(), ConnectionState::Established);

    let (result, _) = mb.remove_peer(peer_addr);
    assert!(result.is_ok());
}

#[test]
fn test_metalbond_lifecycle() {
    let mut mb = MetalBond::new(Config::default(), true);
    let step = mb.handle(MetalBondCommand::Shutdown);
    assert!(!step.running);
    assert!(matches!(step.reply, MetalBondReply::Silent));
}

#[test]
fn subscriptions_are_told_to_established_peers() {
    let mut mb = MetalBond::new(Config::default(), false);
    connect(&mut mb, addr(1), true);
    mb.add_peer(addr(2));
    mb.finish_add_peer(addr(2), true, WireState::Ready);
    assert_eq!(mb.get_peer_state(addr(2)), Ok(ConnectionState::HelloSent));

    let cast = mb.subscribe(7).1.unwrap();
    assert_eq!(cast.to, vec![addr(1)]);
    assert_eq!(cast.message, PeerMessage::SendSubscribe(7));
    assert!(mb.subscribe(7).1.is_none());
    let cast = mb.unsubscribe(7).1.unwrap();
    assert_eq!(cast.to, vec![addr(1)]);
    assert_eq!(cast.message, PeerMessage::SendUnsubscribe(7));
    let (result, cast) = mb.unsubscribe(7);
    assert!(result.is_ok() && cast.is_none());
}

#[test]
fn announcements_reach_servers_and_subscribers() {
    let mut mb = MetalBond::new(Config::default(), false);
    connect(&mut mb, addr(1), true);
    connect(&mut mb, addr(2), false);
    connect(&mut mb, addr(3), false);
    mb.receive(addr(3), subscribe(100)).unwrap();

    let (d, h) = (dest("10.1.0.0/16"), hop(1));
    let cast = mb.announce_route(100, d, h).1.unwrap();
    let mut to = cast.to.clone();
    to.sort();
    assert_eq!(to, vec![addr(1), addr(3)]);
    assert_eq!(cast.message, PeerMessage::SendUpdate(UpdateAction::Add, 100, d, h));
    assert!(mb.announce_route(100, d, h).1.is_none());

    // Another virtual network is the servers' business alone.
    assert_eq!(mb.announce_route(101, d, h).1.unwrap().to, vec![addr(1)]);

    let cast = mb.withdraw_route(100, d, h).1.unwrap();
    assert_eq!(cast.to.len(), 2);
    assert_eq!(cast.message, PeerMessage::SendUpdate(UpdateAction::Remove, 100, d, h));
    let (result, cast) = mb.withdraw_route(100, d, h);
    assert!(result.is_ok() && cast.is_none());
}

#[test]
fn adding_a_peer_can_fail() {
    let mut mb = MetalBond::new(Config::default(), false);
    let a = addr(1);
    assert_eq!(mb.get_peer_state(a), Err(MetalBondError::PeerNotFound(a)));
    assert_eq!(mb.add_peer(a), PeerProgress::Connect(a));
    let (result, message) = mb.finish_add_peer(a, false, WireState::Ready);
    assert_eq!(result, Err(MetalBondError::FailedToConnect(a)));
    assert!(message.is_none());
    let (result, _) = mb.finish_add_peer(a, true, WireState::Closed);
    assert_eq!(result, Err(MetalBondError::FailedToSendHello(SendError::TxClosed)));
    assert!(mb.get_peer_state(a).is_err());
    let (result, message) = mb.finish_add_peer(a, true, WireState::Ready);
    assert_eq!(result, Ok(()));
    assert!(matches!(message, Some(GeneratedMessage::Hello(h)) if !h.is_server));
    assert_eq!(mb.add_peer(a), PeerProgress::Done(Ok(())));
    assert_eq!(mb.get_peer_state(a), Ok(ConnectionState::HelloSent));
}

#[test]
fn retrying_a_connection() {
    let a = addr(1);
    let mut client = MetalBond::new(Config::default(), false);
    assert_eq!(
        client.retry_connection(a),
        PeerProgress::Done(Err(MetalBondError::PeerNotFound(a)))
    );
    assert_eq!(client.finish_retry(a, true).0, Err(MetalBondError::PeerNotFound(a)));
    connect(&mut client, a, true);
    assert_eq!(client.retry_connection(a), PeerProgress::Connect(a));
    assert_eq!(client.finish_retry(a, false).0, Err(MetalBondError::FailedToConnect(a)));
    assert_eq!(client.get_peer_state(a), Ok(ConnectionState::Established));
    let (result, effect, hello) = client.finish_retry(a, true);
    assert_eq!(hello, Some(PeerMessage::SendHello));
    assert_eq!(result, Ok(()));
    assert_eq!(effect, PeerEffect::RemovePeer(a));
    assert_eq!(client.get_peer_state(a), Ok(ConnectionState::Connecting));

    let mut server = MetalBond::new(Config::default(), true);
    accept(&mut server, a);
    assert_eq!(
        server.retry_connection(a),
        PeerProgress::Done(Err(MetalBondError::CannotRetryIncoming))
    );
}

#[test]
fn updates_that_are_none() {
    let mut mb = MetalBond::new(Config::default(), true);
    let a = addr(1);
    assert_eq!(
        mb.receive(a, GeneratedMessage::Keepalive).unwrap_err(),
        MetalBondError::PeerNotFound(a)
    );
    accept(&mut mb, a);
    assert!(mb.receive(a, GeneratedMessage::Keepalive).unwrap().answers.is_empty());
    let empty = pb::Update { action: 0, vni: 1, destination: None, next_hop: None };
    assert_eq!(
        mb.receive(a, GeneratedMessage::Update(empty)).unwrap_err(),
        MetalBondError::InvalidUpdate
    );
    let GeneratedMessage::Update(mut update) =
        make_update(UpdateAction::Add, 1, dest("10.0.0.0/8"), hop(1))
    else {
        panic!("Expected Update message");
    };
    update.action = 2;
    assert_eq!(
        mb.receive(a, GeneratedMessage::Update(update)).unwrap_err(),
        MetalBondError::InvalidUpdate
    );
    assert!(mb.route_table_view().get_vnis().is_empty());
}

#[test]
fn route_updates_and_this_host() {
    let mut mb = MetalBond::new(Config::default(), true);
    let (d, h) = (dest("10.0.0.0/8"), hop(1));
    let update = |action: UpdateAction, from: u8| InternalUpdate {
        action,
        vni: 1,
        destination: d,
        next_hop: h,
        source_peer: Some(addr(from)),
    };
    let outcome = mb.handle_route_update(update(UpdateAction::Add, 1));
    assert_eq!(outcome.change, RouteChange::Install(1, d, h));
    assert!(outcome.cast.is_some());
    let outcome = mb.handle_route_update(update(UpdateAction::Add, 2));
    assert_eq!(outcome.change, RouteChange::Nothing);
    assert!(outcome.cast.is_some());
    let outcome = mb.handle_route_update(update(UpdateAction::Add, 2));
    assert!(outcome.cast.is_none());
    let outcome = mb.handle_route_update(update(UpdateAction::Remove, 1));
    assert_eq!(outcome.change, RouteChange::Nothing);
    assert!(outcome.cast.unwrap().to.is_empty());
    let outcome = mb.handle_route_update(update(UpdateAction::Remove, 2));
    assert_eq!(outcome.change, RouteChange::Uninstall(1, d, h));
    assert!(outcome.cast.is_some());
    let outcome = mb.handle_route_update(update(UpdateAction::Remove, 2));
    assert_eq!(outcome.change, RouteChange::Nothing);
    assert!(outcome.cast.is_none());
}

#[test]
fn a_server_passes_routes_on() {
    let mut server = MetalBond::new(Config::default(), true);
    for last in 1..=4 {
        accept(&mut server, addr(last));
    }
    // The third subscribes to something else, the fourth to nothing.
    for (last, vni) in [(1, 100), (2, 100), (3, 101)] {
        assert!(server.receive(addr(last), subscribe(vni)).unwrap().answers.is_empty());
    }
    let (d, h) = (dest("192.168.2.0/24"), hop(1));

    let update = make_update(UpdateAction::Add, 100, d, h);
    let outcome = server.receive(addr(2), update).unwrap().outcome.unwrap();
    let cast = outcome.cast.unwrap();
    assert_eq!(cast.to, vec![addr(1)]);
    assert_eq!(cast.message, PeerMessage::SendUpdate(UpdateAction::Add, 100, d, h));
    assert_eq!(server.route_table_view().get_next_hops_by_destination(100, d), vec![h]);

    // Whoever subscribes later is told of the routes that are there, but not of its own.
    let received = server.receive(addr(4), subscribe(100)).unwrap();
    assert_eq!(received.answers, vec![PeerMessage::SendUpdate(UpdateAction::Add, 100, d, h)]);
    assert!(server.receive(addr(2), subscribe(100)).unwrap().answers.is_empty());
    server.receive(addr(4), GeneratedMessage::Unsubscribe(pb::Subscription { vni: 100 })).unwrap();

    let update = make_update(UpdateAction::Remove, 100, d, h);
    let outcome = server.receive(addr(2), update).unwrap().outcome.unwrap();
    let cast = outcome.cast.unwrap();
    assert_eq!(cast.to, vec![addr(1)]);
    assert_eq!(cast.message, PeerMessage::SendUpdate(UpdateAction::Remove, 100, d, h));
    assert!(server.route_table_view().get_vnis().is_empty());
}

#[test]
fn the_routes_of_a_lost_peer_go() {
    let mut server = MetalBond::new(Config::default(), true);
    for last in 1..=3 {
        accept(&mut server, addr(last));
    }
    server.receive(addr(1), subscribe(100)).unwrap();
    server.receive(addr(2), subscribe(100)).unwrap();
    let (d1, d2, h) = (dest("192.168.3.0/24"), dest("192.168.4.0/24"), hop(1));
    for (from, d) in [(2, d1), (2, d2), (3, d2)] {
        server.receive(addr(from), make_update(UpdateAction::Add, 100, d, h)).unwrap();
    }

    let (result, outcomes) = server.remove_peer(addr(2));
    assert!(result.is_ok());
    assert_eq!(outcomes.len(), 2);
    for outcome in outcomes {
        let cast = outcome.cast.unwrap();
        if cast.message == PeerMessage::SendUpdate(UpdateAction::Remove, 100, d1, h) {
            assert_eq!(outcome.change, RouteChange::Uninstall(100, d1, h));
            assert_eq!(cast.to, vec![addr(1)]);
        } else {
            // Another peer announces it too.
            assert_eq!(cast.message, PeerMessage::SendUpdate(UpdateAction::Remove, 100, d2, h));
            assert_eq!(outcome.change, RouteChange::Nothing);
            assert!(cast.to.is_empty());
        }
    }

    assert_eq!(server.get_peer_state(addr(2)), Err(MetalBondError::PeerNotFound(addr(2))));
    assert!(server.route_table_view().get_next_hops_by_destination(100, d1).is_empty());
    assert_eq!(server.route_table_view().get_next_hops_by_destination(100, d2), vec![h]);

    // It is no longer told of anything either, not even when it comes back.
    accept(&mut server, addr(2));
    let update = make_update(UpdateAction::Add, 100, d1, h);
    let cast = server.receive(addr(3), update).unwrap().outcome.unwrap().cast.unwrap();
    assert_eq!(cast.to, vec![addr(1)]);

    let (result, outcomes) = server.remove_peer(addr(9));
    assert!(result.is_ok() && outcomes.is_empty());
}

#[test]
fn what_a_new_subscriber_is_told() {
    let mut server = MetalBond::new(Config::default(), true);
    accept(&mut server, addr(1));
    accept(&mut server, addr(2));
    let (d1, d2, h) = (dest("10.1.0.0/16"), dest("10.2.0.0/16"), hop(1));
    // Announced by the node and by a peer: told once.
    server.announce_route(5, d1, h);
    server.announce_route(6, d2, h);
    server.receive(addr(1), make_update(UpdateAction::Add, 5, d1, h)).unwrap();
    server.receive(addr(1), make_update(UpdateAction::Add, 5, d2, h)).unwrap();
    let mut told = Vec::new();
    for answer in server.receive(addr(2), subscribe(5)).unwrap().answers {
        match answer {
            PeerMessage::SendUpdate(UpdateAction::Add, 5, d, n) => told.push((d, n)),
            _ => panic!("Expected SendUpdate, got {:?}", answer),
        }
    }
    told.sort();
    assert_eq!(told, vec![(d1, h), (d2, h)]);
    assert_eq!(
        server.receive(addr(1), subscribe(5)).unwrap().answers,
        vec![PeerMessage::SendUpdate(UpdateAction::Add, 5, d1, h)]
    );
}

#[test]
fn commands_to_the_node() {
    let mut mb = MetalBond::new(Config::default(), false);
    let (a, d, h) = (addr(1), dest("10.0.0.0/8"), hop(1));
    let done = |reply: MetalBondReply| matches!(reply, MetalBondReply::Done(Ok(())));

    let step = mb.handle(MetalBondCommand::AddPeer(a));
    assert!(matches!(step.reply, MetalBondReply::Pending));
    assert_eq!(step.connect, Some(a));
    let step = mb.handle(MetalBondCommand::GetPeerState(a));
    assert!(matches!(
        step.reply,
        MetalBondReply::PeerState(Err(MetalBondError::PeerNotFound(_)))
    ));
    connect(&mut mb, a, true);
    let step = mb.handle(MetalBondCommand::AddPeer(a));
    assert!(done(step.reply) && step.connect.is_none());
    let step = mb.handle(MetalBondCommand::GetPeerState(a));
    assert!(matches!(
        step.reply,
        MetalBondReply::PeerState(Ok(ConnectionState::Established))
    ));

    let step = mb.handle(MetalBondCommand::Subscribe(3));
    assert!(done(step.reply));
    assert_eq!(step.cast.unwrap().message, PeerMessage::SendSubscribe(3));
    let step = mb.handle(MetalBondCommand::GetSubscribedVnis);
    assert!(matches!(step.reply, MetalBondReply::SubscribedVnis(v) if v == vec![3]));
    assert!(done(mb.handle(MetalBondCommand::Unsubscribe(3)).reply));

    let step = mb.handle(MetalBondCommand::AnnounceRoute(3, d, h));
    assert!(done(step.reply));
    assert_eq!(step.cast.unwrap().to, vec![a]);
    let step = mb.handle(MetalBondCommand::IsRouteAnnounced(3, d, h));
    assert!(matches!(step.reply, MetalBondReply::Announced(true)));
    assert!(done(mb.handle(MetalBondCommand::WithdrawRoute(3, d, h)).reply));
    let step = mb.handle(MetalBondCommand::IsRouteAnnounced(3, d, h));
    assert!(matches!(step.reply, MetalBondReply::Announced(false)));

    let update = InternalUpdate {
        action: UpdateAction::Add,
        vni: 3,
        destination: d,
        next_hop: h,
        source_peer: Some(a),
    };
    let step = mb.handle(MetalBondCommand::RouteUpdate(update));
    assert_eq!(step.outcomes.len(), 1);
    assert_eq!(step.outcomes[0].change, RouteChange::Install(3, d, h));

    let step = mb.handle(MetalBondCommand::RetryConnection(a));
    assert_eq!(step.connect, Some(a));
    let step = mb.handle(MetalBondCommand::RemovePeer(a));
    assert!(done(step.reply));
    assert_eq!(step.outcomes[0].change, RouteChange::Uninstall(3, d, h));
    assert!(step.running);
}

#[test]
fn accepting_connections() {
    let a = addr(1);
    assert_eq!(
        accept_step(AcceptEvent::Accepted(a)),
        AcceptAction::Ask(MetalBondCommand::AddPeer(a))
    );
    assert_eq!(accept_step(AcceptEvent::AcceptFailed), AcceptAction::Leave);
    assert_eq!(
        accept_step(AcceptEvent::PeerAdded(a, true)),
        AcceptAction::Ask(MetalBondCommand::GetPeerState(a))
    );
    assert_eq!(accept_step(AcceptEvent::PeerAdded(a, false)), AcceptAction::Leave);
    assert_eq!(accept_step(AcceptEvent::PeerKnown(a, true)), AcceptAction::Serve(a));
    assert_eq!(accept_step(AcceptEvent::PeerKnown(a, false)), AcceptAction::Leave);
}

#[test]
fn a_removal_is_told_only_when_the_route_is_gone() {
    let mut server = MetalBond::new(Config::default(), true);
    accept(&mut server, addr(1));
    accept(&mut server, addr(2));
    server.receive(addr(1), subscribe(100)).unwrap();
    let (d, h) = (dest("10.0.0.0/8"), hop(1));
    assert_eq!(server.announce_route(100, d, h).1.unwrap().to, vec![addr(1)]);
    let add = || make_update(UpdateAction::Add, 100, d, h);
    let remove = || make_update(UpdateAction::Remove, 100, d, h);

    // A peer announces and withdraws what the node announces too.
    server.receive(addr(2), add()).unwrap();
    let outcome = server.receive(addr(2), remove()).unwrap().outcome.unwrap();
    assert_eq!(outcome.change, RouteChange::Uninstall(100, d, h));
    assert!(outcome.cast.unwrap().to.is_empty());

    // The node withdraws what a peer announces too.
    server.receive(addr(2), add()).unwrap();
    let cast = server.withdraw_route(100, d, h).1.unwrap();
    assert!(cast.to.is_empty());
    let outcome = server.receive(addr(2), remove()).unwrap().outcome.unwrap();
    assert_eq!(outcome.cast.unwrap().to, vec![addr(1)]);

    // A peer is lost that announced what the node announces too.
    server.announce_route(100, d, h);
    server.receive(addr(2), add()).unwrap();
    let (_, outcomes) = server.remove_peer(addr(2));
    assert_eq!(outcomes.len(), 1);
    assert_eq!(outcomes[0].change, RouteChange::Uninstall(100, d, h));
    assert!(outcomes[0].cast.as_ref().unwrap().to.is_empty());
    assert_eq!(server.withdraw_route(100, d, h).1.unwrap().to, vec![addr(1)]);
}

#[test]
fn a_server_is_told_of_every_withdrawal() {
    let mut client = MetalBond::new(Config::default(), false);
    connect(&mut client, addr(1), true);
    let (d, h) = (dest("10.0.0.0/8"), hop(1));
    client.announce_route(100, d, h);
    client.receive(addr(1), make_update(UpdateAction::Add, 100, d, h)).unwrap();
    let cast = client.withdraw_route(100, d, h).1.unwrap();
    assert_eq!(cast.to, vec![addr(1)]);
    assert_eq!(cast.message, PeerMessage::SendUpdate(UpdateAction::Remove, 100, d, h));
}

#[test]
fn what_an_established_peer_is_sent_first() {
    let mut client = MetalBond::new(Config::default(), false);
    let (d, h) = (dest("10.0.0.0/8"), hop(1));
    client.subscribe(7);
    client.announce_route(7, d, h);
    client.announce_route(8, d, h);
    connect(&mut client, addr(1), true);
    connect(&mut client, addr(2), false);
    let greetings = client.greetings(addr(1));
    assert_eq!(greetings.len(), 3);
    assert!(greetings.contains(&PeerMessage::SendSubscribe(7)));
    assert!(greetings.contains(&PeerMessage::SendUpdate(UpdateAction::Add, 7, d, h)));
    assert!(greetings.contains(&PeerMessage::SendUpdate(UpdateAction::Add, 8, d, h)));
    assert_eq!(client.greetings(addr(2)), vec![PeerMessage::SendSubscribe(7)]);
}

#[test]
fn keepalives_for_established_peers() {
    let mut client = MetalBond::new(Config::default(), false);
    assert_eq!(client.keepalive(addr(1)), None);
    client.finish_add_peer(addr(1), true, WireState::Ready);
    assert_eq!(client.keepalive(addr(1)), None);
    client.receive(addr(1), hello(true)).unwrap();
    assert_eq!(client.keepalive(addr(1)), Some(PeerMessage::SendKeepalive));
}

#[test]
fn a_stopped_node_refuses_everything() {
    let mut mb = MetalBond::new(Config::default(), false);
    let (a, d, h) = (addr(1), dest("10.0.0.0/8"), hop(1));
    connect(&mut mb, a, true);
    mb.subscribe(3);
    mb.announce_route(3, d, h);
    mb.shutdown();

    let stopped = Err(MetalBondError::Stopped);
    assert_eq!(mb.subscribe(100).0, stopped);
    assert_eq!(mb.unsubscribe(3).0, stopped);
    assert_eq!(mb.announce_route(4, d, h).0, stopped);
    assert_eq!(mb.withdraw_route(3, d, h).0, stopped);
    assert_eq!(mb.remove_peer(a).0, stopped);
    assert_eq!(mb.add_peer(addr(2)), PeerProgress::Done(stopped));
    assert_eq!(mb.finish_add_peer(addr(2), true, WireState::Ready).0, stopped);
    assert_eq!(mb.retry_connection(a), PeerProgress::Done(stopped));
    assert_eq!(mb.finish_retry(a, true).0, stopped);
    assert_eq!(mb.get_peer_state(a), Err(MetalBondError::Stopped));
    assert!(mb.get_subscribed_vnis().is_empty());
    assert!(!mb.is_route_announced(3, d, h));
    assert!(mb.peer_message(a, PeerMessage::SendKeepalive, WireState::Ready).is_none());
    assert_eq!(
        mb.receive(a, GeneratedMessage::Keepalive).unwrap_err(),
        MetalBondError::Stopped
    );
    assert!(mb.greetings(a).is_empty());
    assert!(mb.connection_lost(a).is_empty());
    assert_eq!(mb.keepalive(a), None);
    assert_eq!(mb.next_retry(a, 0), None);
    let step = mb.handle(MetalBondCommand::Subscribe(100));
    assert!(matches!(step.reply, MetalBondReply::Done(Err(MetalBondError::Stopped))));
    assert!(!step.running);
}

#[test]
fn who_alone_announces_a_route_hears_of_no_other() {
    let mut server = MetalBond::new(Config::default(), true);
    accept(&mut server, addr(1));
    accept(&mut server, addr(2));
    server.receive(addr(1), subscribe(100)).unwrap();
    let (d, h) = (dest("10.0.0.0/8"), hop(1));
    for from in [1, 2] {
        server.receive(addr(from), make_update(UpdateAction::Add, 100, d, h)).unwrap();
    }
    // The first peer was told of the second one's route, and is told of its end.
    let update = make_update(UpdateAction::Remove, 100, d, h);
    let outcome = server.receive(addr(2), update).unwrap().outcome.unwrap();
    assert_eq!(outcome.change, RouteChange::Nothing);
    assert_eq!(outcome.cast.unwrap().to, vec![addr(1)]);
    assert!(server.route_table_view().has_next_hop(100, d, h));
}
