use metalbond::codec::GeneratedMessage;
use metalbond::net::{IpAddr, SocketAddr};
use metalbond::pb;
use metalbond::peer::{Peer, PeerEffect, WireState};
use metalbond::types::{Config, ConnectionDirection, ConnectionState, Duration};

/// Common test setup for peer FSM tests
fn setup_peer() -> Peer {
    // A short keepalive for tests
    let mut config = Config::default();
    config.keepalive_interval = Duration::from_millis(100);

    let remote_addr = SocketAddr::new(IpAddr::from_slice(&[127, 0, 0, 1]).unwrap(), 4711);
    Peer::new(config, remote_addr, ConnectionDirection::Outgoing)
}

#[test]
fn test_connecting_to_hellosent() {
    let mut peer = setup_peer();
    assert_eq!(peer.get_state(), ConnectionState::Connecting);

    // Send Hello, which should trigger transition to HelloSent
    let (result, _) = peer.send_hello(WireState::Ready);
    assert!(result.is_ok());
    assert_eq!(peer.get_state(), ConnectionState::HelloSent);

    match result.unwrap() {
        GeneratedMessage::Hello(hello) => {
            assert_eq!(hello.is_server, false);
        }
        _ => panic!("Expected Hello message"),
    }

    peer.trigger_shutdown();
}

#[test]
fn test_connecting_to_helloreceived() {
    let mut peer = setup_peer();
    assert_eq!(peer.get_state(), ConnectionState::Connecting);

    peer.set_hello_received(true);
    peer.set_state(ConnectionState::HelloReceived);
    assert_eq!(peer.get_state(), ConnectionState::HelloReceived);

    let (hello_sent, hello_received) = peer.get_hello_exchange_status();
    assert!(!hello_sent);
    assert!(hello_received);

    peer.trigger_shutdown();
}

#[test]
fn test_hellosent_to_established() {
    let mut peer = setup_peer();

    peer.set_state(ConnectionState::HelloSent);
    assert_eq!(peer.get_state(), ConnectionState::HelloSent);

    peer.set_state(ConnectionState::Established);
    assert_eq!(peer.get_state(), ConnectionState::Established);

    let (hello_sent, hello_received) = peer.get_hello_exchange_status();
    assert!(hello_sent);
    assert!(hello_received);

    peer.trigger_shutdown();
}

#[test]
fn test_helloreceived_to_established() {
    let mut peer = setup_peer();

    peer.set_hello_received(true);
    peer.set_state(ConnectionState::HelloReceived);
    assert_eq!(peer.get_state(), ConnectionState::HelloReceived);

    // Send Hello, which should trigger transition to Established
    let (result, effect) = peer.send_hello(WireState::Ready);
    assert!(result.is_ok());
    assert_eq!(peer.get_state(), ConnectionState::Established);
    assert_eq!(effect, PeerEffect::RequestSubscriptions);

    match result.unwrap() {
        GeneratedMessage::Hello(hello) => {
            // As this is an outgoing connection (from test setup), is_server should be false
            assert_eq!(hello.is_server, false);
        }
        _ => panic!("Expected Hello message"),
    }

    peer.trigger_shutdown();
}

#[test]
fn test_active_to_retry() {
    let mut peer = setup_peer();

    peer.set_state(ConnectionState::Retry);

    let state = peer.get_state();
    assert_eq!(state, ConnectionState::Retry, "State should be Retry but was {:?}", state);

    peer.trigger_shutdown();
}

#[test]
fn test_to_closed() {
    let mut peer = setup_peer();

    peer.set_state(ConnectionState::Connecting);
    assert_eq!(peer.get_state(), ConnectionState::Connecting);

    peer.set_state(ConnectionState::Closed);
    assert_eq!(peer.get_state(), ConnectionState::Closed);

    peer.trigger_shutdown();
}

#[test]
fn test_complete_connection_flow_initiator() {
    let mut peer = setup_peer();
    assert_eq!(peer.get_state(), ConnectionState::Connecting);

    let (result, _) = peer.send_hello(WireState::Ready);
    assert!(result.is_ok());
    assert_eq!(peer.get_state(), ConnectionState::HelloSent);

    match result.unwrap() {
        GeneratedMessage::Hello(hello) => {
            // For outgoing connections, we should be a client (is_server = false)
            assert_eq!(hello.is_server, false);
        }
        _ => panic!("Expected Hello message"),
    }

    peer.set_state(ConnectionState::Established);
    assert_eq!(peer.get_state(), ConnectionState::Established);

    peer.trigger_shutdown();
}

#[test]
fn test_complete_connection_flow_responder() {
    let mut peer = setup_peer();
    assert_eq!(peer.get_state(), ConnectionState::Connecting);

    // Simulate receiving Hello
    peer.set_state(ConnectionState::HelloReceived);
    assert_eq!(peer.get_state(), ConnectionState::HelloReceived);

    // Send Hello in response
    let (result, _) = peer.send_hello(WireState::Ready);
    assert!(result.is_ok());
    assert!(matches!(result.unwrap(), GeneratedMessage::Hello(_)));

    assert_eq!(peer.get_state(), ConnectionState::Established);

    peer.trigger_shutdown();
}

#[test]
fn test_failure_and_retry_flow() {
    let mut peer = setup_peer();
    assert_eq!(peer.get_state(), ConnectionState::Connecting);
    peer.trigger_shutdown();
}

#[test]
fn test_hello_flags_during_transitions() {
    let mut peer = setup_peer();
    assert_eq!(peer.get_state(), ConnectionState::Connecting);

    // In Connecting state, both hello flags are false
    let (hello_sent, hello_received) = peer.get_hello_exchange_status();
    assert!(!hello_sent);
    assert!(!hello_received);

    // Send Hello, which should trigger transition to HelloSent
    assert!(peer.send_hello(WireState::Ready).0.is_ok());
    assert_eq!(peer.get_state(), ConnectionState::HelloSent);

    let (hello_sent, hello_received) = peer.get_hello_exchange_status();
    assert!(hello_sent);
    assert!(!hello_received);

    // Simulate receiving a Hello
    peer.set_state(ConnectionState::Established);
    assert_eq!(peer.get_state(), ConnectionState::Established);

    // Both flags should be true in Established state
    let (hello_sent, hello_received) = peer.get_hello_exchange_status();
    assert!(hello_sent);
    assert!(hello_received);

    peer.trigger_shutdown();
}

#[test]
fn test_retry_to_connecting() {
    let mut peer = setup_peer();

    peer.set_state(ConnectionState::Retry);
    assert_eq!(peer.get_state(), ConnectionState::Retry);

    peer.set_state(ConnectionState::Connecting);
    assert_eq!(peer.get_state(), ConnectionState::Connecting);

    peer.trigger_shutdown();
}

#[test]
fn hellos_in_either_order() {
    let hello = pb::Hello { keepalive_interval: 5, is_server: true };

    let mut sender = setup_peer();
    let (_, effect) = sender.send_hello(WireState::Ready);
    assert_eq!(effect, PeerEffect::Nothing);
    assert_eq!(sender.receive_hello(hello), PeerEffect::RequestSubscriptions);
    assert_eq!(sender.get_state(), ConnectionState::Established);
    assert!(sender.is_remote_server);

    let mut receiver = setup_peer();
    assert_eq!(receiver.receive_hello(hello), PeerEffect::Nothing);
    assert_eq!(receiver.get_state(), ConnectionState::HelloReceived);
    let (_, effect) = receiver.send_hello(WireState::Ready);
    assert_eq!(effect, PeerEffect::RequestSubscriptions);
    assert_eq!(receiver, sender);

    // Another Hello changes nothing, and a lost connection is cleaned up.
    assert_eq!(sender.receive_hello(hello), PeerEffect::Nothing);
    assert_eq!(sender.get_state(), ConnectionState::Established);
    assert_eq!(
        sender.set_state(ConnectionState::Closed),
        PeerEffect::RemovePeer(sender.get_remote_addr())
    );
    assert_eq!(sender.get_hello_exchange_status(), (false, false));
}
