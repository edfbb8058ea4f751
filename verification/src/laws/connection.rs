//! What a connection sends, and how its state changes.

use crate::codec::{GeneratedMessage, MessageView};
use crate::net::{IpAddr, SocketAddr};
use crate::pb;
use crate::peer::{
    is_offer, transition_effect, update_message, Peer, PeerEffect, PeerMessage, PeerReply, PeerStep,
    SendError, WireState,
};
use crate::types::{
    backoff, Config, ConnectionDirection, ConnectionState, Destination, Duration, NextHop,
    UpdateAction, Vni,
};
use vstd::arithmetic::power2::pow2;
use vstd::prelude::*;

verus! {

/// The `Hello` that a peer sends carries the configured seconds between keepalives,
/// their last 32 bits if they are more, and says that its sender is a server just if
/// the other side opened the connection.
pub proof fn lemma_sent_hello(peer: Peer)
    ensures
        PeerMessage::SendHello.to_send(peer) matches Some(MessageView::Hello(hello)) && {
            let secs = peer.config.keepalive_interval.secs;
            &&& secs <= u32::MAX ==> hello.keepalive_interval == secs
            &&& hello.keepalive_interval <= secs
            &&& (secs - hello.keepalive_interval) % 0x1_0000_0000 == 0
            &&& hello.is_server <==> peer.direction == ConnectionDirection::Incoming
        },
{
}

/// Two peers send the same `Hello` if they have the same keepalive interval and
/// direction, whatever else they know.
pub proof fn lemma_same_hello(a: Peer, b: Peer)
    requires
        a.config.keepalive_interval == b.config.keepalive_interval,
        a.direction == b.direction,
    ensures
        PeerMessage::SendHello.to_send(a) == PeerMessage::SendHello.to_send(b),
{
}

/// What a peer sends when it is asked to send something else: just that.
pub proof fn lemma_sent_messages(peer: Peer, message: PeerMessage)
    ensures
        message is SendKeepalive ==> message.to_send(peer) == Some(MessageView::Keepalive),
        message matches PeerMessage::SendSubscribe(vni) ==> (message.to_send(peer) matches Some(
            MessageView::Subscribe(sub),
        ) && sub.vni == vni),
        message matches PeerMessage::SendUnsubscribe(vni) ==> (message.to_send(peer) matches Some(
            MessageView::Unsubscribe(sub),
        ) && sub.vni == vni),
        message is GetState || message is SetState || message is SetHelloReceived || message
            is GetHelloStatus || message is Shutdown ==> message.to_send(peer) is None,
{
}

/// The update that a peer sends holds the route, field by field.
pub proof fn lemma_sent_update(
    peer: Peer,
    action: UpdateAction,
    vni: Vni,
    dest: Destination,
    nh: NextHop,
)
    ensures
        PeerMessage::SendUpdate(action, vni, dest, nh).to_send(peer) == Some(
            update_message(action, vni, dest, nh),
        ),
        update_message(action, vni, dest, nh) matches MessageView::Update(u) && {
            &&& u.action == if action == UpdateAction::Add {
                0i32
            } else {
                1
            }
            &&& u.vni == vni
            &&& u.destination is Some && u.next_hop is Some
            &&& u.destination->0.ip_version == match dest.prefix.addr() {
                IpAddr::V4(_) => 0i32,
                IpAddr::V6(_) => 1,
            }
            &&& u.destination->0.prefix == dest.prefix.addr().octets()
            &&& u.destination->0.prefix_length == dest.prefix.prefix_len()
            &&& u.next_hop->0.target_address == nh.target_address.octets()
            &&& u.next_hop->0.target_vni == nh.target_vni
            &&& u.next_hop->0.hop_type == match nh.hop_type {
                pb::NextHopType::Standard => 0i32,
                pb::NextHopType::Nat => 1,
                pb::NextHopType::LoadbalancerTarget => 2,
            }
            &&& u.next_hop->0.nat_port_range_from == nh.nat_port_range_from
            &&& u.next_hop->0.nat_port_range_to == nh.nat_port_range_to
        },
{
}

/// A message is sent just if the wire is ready for it.
pub proof fn lemma_sending(
    r: Result<GeneratedMessage, SendError>,
    message: MessageView,
    wire: WireState,
)
    requires
        is_offer(r, message, wire),
    ensures
        r matches Ok(sent) ==> sent@ == message && wire == WireState::Ready,
        r matches Err(e) ==> (e == SendError::TxFull && wire == WireState::Full) || (e
            == SendError::TxClosed && wire == WireState::Closed),
{
}

/// A connection begins without any `Hello`.
pub proof fn lemma_new_connection(
    config: Config,
    addr: SocketAddr,
    direction: ConnectionDirection,
)
    ensures
        ({
            let peer = Peer::opening(config, addr, direction);
            &&& peer.config == config
            &&& peer.remote_addr == addr
            &&& peer.direction == direction
            &&& peer.state == ConnectionState::Connecting
            &&& !peer.hello_sent && !peer.hello_received && !peer.is_remote_server
        }),
{
}

/// Another state says what was exchanged: a `Hello` was sent in `HelloSent` and
/// `Established`, and one has come in `HelloReceived` and `Established`. Nothing else
/// of the peer changes, and nothing at all if the state stays.
pub proof fn lemma_state_change(peer: Peer, state: ConnectionState)
    ensures
        ({
            let after = peer.in_state(state);
            &&& after.state == state
            &&& peer.state == state ==> after == peer
            &&& peer.state != state ==> {
                &&& after.hello_sent <==> state == ConnectionState::HelloSent || state
                    == ConnectionState::Established
                &&& after.hello_received <==> state == ConnectionState::HelloReceived || state
                    == ConnectionState::Established
            }
            &&& after.config == peer.config
            &&& after.remote_addr == peer.remote_addr
            &&& after.direction == peer.direction
            &&& after.is_remote_server == peer.is_remote_server
        }),
{
}

/// A `Hello` that is sent moves a connection on that waits for it, and no other. It
/// is then established if the other side's has come.
pub proof fn lemma_after_sent_hello(peer: Peer)
    ensures
        ({
            let after = peer.after_sending_hello();
            let waiting = peer.state == ConnectionState::Connecting || peer.state
                == ConnectionState::HelloReceived;
            let complete = peer.hello_received || peer.state == ConnectionState::HelloReceived;
            &&& after.hello_sent
            &&& after.state == if !waiting {
                peer.state
            } else if complete {
                ConnectionState::Established
            } else {
                ConnectionState::HelloSent
            }
            &&& !waiting ==> after.hello_received == peer.hello_received
            &&& waiting ==> after.hello_received == complete
            &&& after.config == peer.config
            &&& after.remote_addr == peer.remote_addr
            &&& after.direction == peer.direction
            &&& after.is_remote_server == peer.is_remote_server
        }),
{
}

/// A `Hello` that has come moves a connection on that waits for it, and no other. It
/// is then established if one was sent. It also tells whether its sender is a server.
pub proof fn lemma_after_received_hello(peer: Peer, hello: pb::Hello)
    ensures
        ({
            let after = peer.after_receiving_hello(hello);
            let waiting = peer.state == ConnectionState::Connecting || peer.state
                == ConnectionState::HelloSent;
            let complete = peer.hello_sent || peer.state == ConnectionState::HelloSent;
            &&& after.hello_received
            &&& after.is_remote_server == hello.is_server
            &&& after.state == if !waiting {
                peer.state
            } else if complete {
                ConnectionState::Established
            } else {
                ConnectionState::HelloReceived
            }
            &&& !waiting ==> after.hello_sent == peer.hello_sent
            &&& waiting ==> after.hello_sent == complete
            &&& after.config == peer.config
            &&& after.remote_addr == peer.remote_addr
            &&& after.direction == peer.direction
        }),
{
}

/// A message to a peer changes its state only if it says so, or if it is a `Hello`
/// that is sent.
pub proof fn lemma_messages_and_state(peer: Peer, message: PeerMessage, wire: WireState)
    ensures
        ({
            let after = peer.after_message(message, wire);
            match message {
                PeerMessage::SendHello => after == if wire == WireState::Ready {
                    peer.after_sending_hello()
                } else {
                    peer
                },
                PeerMessage::SetState(state) => after == peer.in_state(state),
                PeerMessage::SetHelloReceived(received) => after.hello_received == received
                    && after == Peer { hello_received: after.hello_received, ..peer },
                _ => after == peer,
            }
        }),
{
}

/// What comes of a message to a peer: it answers what it is asked, sends what it can,
/// says what a change of its state asks for, and ends only on a shutdown.
pub proof fn lemma_peer_steps(peer: Peer, message: PeerMessage, wire: WireState, step: PeerStep)
    requires
        peer.step_matches(message, wire, step),
    ensures
        step.running <==> message != PeerMessage::Shutdown,
        step.message matches Some(sent) ==> wire == WireState::Ready && message.to_send(peer)
            == Some(sent@),
        step.message is None ==> wire != WireState::Ready || message.to_send(peer) is None,
        step.reply == if message == PeerMessage::GetState {
            PeerReply::State(peer.state)
        } else if message == PeerMessage::GetHelloStatus {
            PeerReply::HelloStatus(peer.hello_sent, peer.hello_received)
        } else if message.to_send(peer) is None {
            PeerReply::Silent
        } else {
            PeerReply::Sent(
                match wire {
                    WireState::Ready => Ok(()),
                    WireState::Full => Err(SendError::TxFull),
                    WireState::Closed => Err(SendError::TxClosed),
                },
            )
        },
        ({
            let was = peer.state == ConnectionState::Established;
            let now = peer.after_message(message, wire).state == ConnectionState::Established;
            step.effect == if now && !was {
                PeerEffect::RequestSubscriptions
            } else if was && !now {
                PeerEffect::RemovePeer(peer.remote_addr)
            } else {
                PeerEffect::Nothing
            }
        }),
{
}

/// The node is asked for something just when a connection becomes established or
/// ceases to be.
pub proof fn lemma_effects(old_state: ConnectionState, new_state: ConnectionState, addr: SocketAddr)
    ensures
        ({
            let was = old_state == ConnectionState::Established;
            let now = new_state == ConnectionState::Established;
            transition_effect(old_state, new_state, addr) == if now && !was {
                PeerEffect::RequestSubscriptions
            } else if was && !now {
                PeerEffect::RemovePeer(addr)
            } else {
                PeerEffect::Nothing
            }
        }),
{
}

proof fn lemma_backoff_power(least: nat, greatest: nat, attempt: nat)
    requires
        least <= greatest,
    ensures
        backoff(least, greatest, attempt) == if least * pow2(attempt) <= greatest {
            least * pow2(attempt)
        } else {
            greatest
        },
    decreases attempt,
{
    vstd::arithmetic::power2::lemma_pow2_pos(attempt);
    if attempt == 0 {
        vstd::arithmetic::power2::lemma2_to64();
        assert(least * 1 == least);
    } else {
        let before = (attempt - 1) as nat;
        lemma_backoff_power(least, greatest, before);
        vstd::arithmetic::power2::lemma_pow2_unfold(attempt);
        let power = pow2(before);
        assert(least * (2 * power) == 2 * (least * power)) by (nonlinear_arith);
    }
}

/// The time before a lost connection is tried again is the shortest one, doubled for
/// every attempt that was made in vain, but never more than the longest.
pub proof fn lemma_waiting(config: Config, attempt: u32, delay: Duration)
    requires
        config.is_retry_delay(attempt, delay),
        config.retry_interval_min.nanos < 1_000_000_000,
        config.retry_interval_max.nanos < 1_000_000_000,
    ensures
        ({
            let least = config.retry_interval_min.secs * 1_000_000_000
                + config.retry_interval_min.nanos;
            let greatest = config.retry_interval_max.secs * 1_000_000_000
                + config.retry_interval_max.nanos;
            let time = delay.secs * 1_000_000_000 + delay.nanos;
            &&& delay.nanos < 1_000_000_000
            &&& least > greatest ==> time == least
            &&& least <= greatest ==> least <= time && time <= greatest
            &&& least <= greatest && least * pow2(attempt as nat) <= greatest ==> time == least
                * pow2(attempt as nat)
            &&& least <= greatest && least * pow2(attempt as nat) > greatest ==> time == greatest
        }),
{
    let least = config.retry_interval_min.total();
    let greatest = config.retry_interval_max.total();
    if least <= greatest {
        lemma_backoff_power(least, greatest, attempt as nat);
    }
}

} // verus!
