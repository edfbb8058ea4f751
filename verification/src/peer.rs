//! The connection to one peer: which messages go out, and how its state changes.
//!
//! A peer holds no socket and no queue. Whoever runs it tells it whether the
//! queue towards the wire takes a message, and puts what it returns there.

use crate::codec::{GeneratedMessage, MessageView, MAX_MESSAGE_LEN};
use crate::convert::{destination_message, next_hop_message};
use crate::net::{lemma_octets_len, SocketAddr};
use crate::pb;
use crate::pb::{lemma_field_lens, Message};
use crate::types::{
    Config, ConnectionDirection, ConnectionState, Destination, NextHop, UpdateAction, Vni,
};
use vstd::prelude::*;

verus! {

/// How many messages may wait for the wire.
pub const PEER_TX_BUFFER_SIZE: usize = 256;

/// Whether the queue towards the wire takes a message.
#[derive(Debug, Clone, Copy, PartialEq, Eq, Structural)]
pub enum WireState {
    Ready,
    Full,
    Closed,
}

/// Why a message was not sent.
#[derive(Debug, Clone, Copy, PartialEq, Eq, Structural)]
pub enum SendError {
    /// The queue towards the wire is full.
    TxFull,
    /// The queue towards the wire is closed.
    TxClosed,
}

impl WireState {
    /// Why a message cannot be sent, if it cannot.
    pub open spec fn refusal(self) -> Option<SendError> {
        match self {
            WireState::Ready => None,
            WireState::Full => Some(SendError::TxFull),
            WireState::Closed => Some(SendError::TxClosed),
        }
    }
}

/// What a peer can be asked.
#[derive(Debug, Clone, Copy, PartialEq, Eq, Structural)]
pub enum PeerMessage {
    SendHello,
    SendKeepalive,
    SendSubscribe(Vni),
    SendUnsubscribe(Vni),
    SendUpdate(UpdateAction, Vni, Destination, NextHop),
    GetState,
    SetState(ConnectionState),
    SetHelloReceived(bool),
    GetHelloStatus,
    Shutdown,
}

/// What a peer answers.
#[derive(Debug, Clone, Copy, PartialEq, Eq)]
pub enum PeerReply {
    /// Nothing is answered.
    Silent,
    /// Whether a message was sent.
    Sent(Result<(), SendError>),
    /// The state of the connection.
    State(ConnectionState),
    /// Whether a `Hello` was sent, and whether one has come.
    HelloStatus(bool, bool),
}

/// What a change of state asks of the node.
#[derive(Debug, Clone, Copy, PartialEq, Eq, Structural)]
pub enum PeerEffect {
    /// Nothing.
    Nothing,
    /// The connection is established: subscribe to what the node subscribes to.
    RequestSubscriptions,
    /// The connection is lost: forget the peer and its routes.
    RemovePeer(SocketAddr),
}

/// The connection to a peer.
#[derive(Debug, Clone, Copy, PartialEq, Eq, Structural)]
pub struct Peer {
    pub config: Config,
    pub remote_addr: SocketAddr,
    pub direction: ConnectionDirection,
    /// Whether the other side said that it is a server.
    pub is_remote_server: bool,
    pub state: ConnectionState,
    pub hello_sent: bool,
    pub hello_received: bool,
}

/// Whether a `Hello` was sent and whether one has come, in a state.
pub open spec fn hello_flags(state: ConnectionState) -> (bool, bool) {
    match state {
        ConnectionState::Connecting => (false, false),
        ConnectionState::HelloSent => (true, false),
        ConnectionState::HelloReceived => (false, true),
        ConnectionState::Established => (true, true),
        ConnectionState::Retry => (false, false),
        ConnectionState::Closed => (false, false),
    }
}

/// What a change of state asks of the node.
pub open spec fn transition_effect(
    old_state: ConnectionState,
    new_state: ConnectionState,
    addr: SocketAddr,
) -> PeerEffect {
    if old_state == new_state {
        PeerEffect::Nothing
    } else if new_state is Established {
        PeerEffect::RequestSubscriptions
    } else if old_state is Established {
        PeerEffect::RemovePeer(addr)
    } else {
        PeerEffect::Nothing
    }
}

/// The state after a `Hello` was sent.
pub open spec fn state_after_sending_hello(state: ConnectionState, received: bool) -> ConnectionState {
    match state {
        ConnectionState::Connecting => if received {
            ConnectionState::Established
        } else {
            ConnectionState::HelloSent
        },
        ConnectionState::HelloReceived => ConnectionState::Established,
        other => other,
    }
}

/// The state after a `Hello` has come.
pub open spec fn state_after_receiving_hello(state: ConnectionState, sent: bool) -> ConnectionState {
    match state {
        ConnectionState::Connecting => if sent {
            ConnectionState::Established
        } else {
            ConnectionState::HelloReceived
        },
        ConnectionState::HelloSent => ConnectionState::Established,
        other => other,
    }
}

/// The `Hello` that goes out over a connection: the side that was connected to
/// is the server.
pub open spec fn hello_message(config: Config, direction: ConnectionDirection) -> pb::Hello {
    pb::Hello {
        keepalive_interval: (config.keepalive_interval.as_secs() % 0x1_0000_0000) as u32,
        is_server: direction is Incoming,
    }
}

/// The update that adds or removes a route.
pub open spec fn update_message(
    action: UpdateAction,
    vni: Vni,
    dest: Destination,
    nh: NextHop,
) -> MessageView {
    MessageView::Update(
        pb::UpdateView {
            action: match action {
                UpdateAction::Add => pb::Action::Add.number(),
                UpdateAction::Remove => pb::Action::Remove.number(),
            },
            vni,
            destination: Some(destination_message(dest)),
            next_hop: Some(next_hop_message(nh)),
        },
    )
}

/// Whether `r` is the message, or the reason why the queue does not take it.
pub open spec fn is_offer(
    r: Result<GeneratedMessage, SendError>,
    message: MessageView,
    wire: WireState,
) -> bool {
    match wire.refusal() {
        Some(error) => r == Err::<GeneratedMessage, SendError>(error),
        None => r matches Ok(sent) && sent@ == message,
    }
}

/// Hands a message to the wire if its queue takes one.
fn send_message(wire: WireState, message: GeneratedMessage) -> (r: Result<
    GeneratedMessage,
    SendError,
>)
    ensures
        is_offer(r, message@, wire),
{
    match wire {
        WireState::Ready => Ok(message),
        WireState::Full => Err(SendError::TxFull),
        WireState::Closed => Err(SendError::TxClosed),
    }
}

/// The update that adds or removes a route.
pub fn make_update(action: UpdateAction, vni: Vni, dest: Destination, nh: NextHop) -> (r:
    GeneratedMessage)
    ensures
        r@ == update_message(action, vni, dest, nh),
{
    let destination = match pb::Destination::try_from(dest) {
        Ok(destination) => Some(destination),
        Err(_) => None,
    };
    let next_hop = match pb::NextHop::try_from(nh) {
        Ok(next_hop) => Some(next_hop),
        Err(_) => None,
    };
    GeneratedMessage::Update(
        pb::Update { action: pb::Action::from(action).number(), vni, destination, next_hop },
    )
}

/// What an established peer is asked first: to subscribe to the virtual networks
/// that the node subscribes to.
pub fn subscription_requests(vnis: &Vec<Vni>) -> (requests: Vec<PeerMessage>)
    ensures
        requests@ == vnis@.map_values(|vni: Vni| PeerMessage::SendSubscribe(vni)),
{
    let mut requests: Vec<PeerMessage> = Vec::new();
    for i in 0..vnis.len()
        invariant
            requests@ == vnis@.take(i as int).map_values(
                |vni: Vni| PeerMessage::SendSubscribe(vni),
            ),
    {
        requests.push(PeerMessage::SendSubscribe(vnis[i]));
        assert(requests@ =~= vnis@.take(i + 1).map_values(
            |vni: Vni| PeerMessage::SendSubscribe(vni),
        ));
    }
    assert(vnis@.take(vnis@.len() as int) =~= vnis@);
    requests
}

impl Peer {
    /// A connection that is being opened.
    pub fn new(config: Config, remote_addr: SocketAddr, direction: ConnectionDirection) -> (peer:
        Peer)
        ensures
            peer == Peer::opening(config, remote_addr, direction),
    {
        Peer {
            config,
            remote_addr,
            direction,
            is_remote_server: false,
            state: ConnectionState::Connecting,
            hello_sent: false,
            hello_received: false,
        }
    }

    /// A connection that is being opened.
    pub open spec fn opening(
        config: Config,
        remote_addr: SocketAddr,
        direction: ConnectionDirection,
    ) -> Peer {
        Peer {
            config,
            remote_addr,
            direction,
            is_remote_server: false,
            state: ConnectionState::Connecting,
            hello_sent: false,
            hello_received: false,
        }
    }

    /// The address of the other side.
    pub fn get_remote_addr(&self) -> (addr: SocketAddr)
        ensures
            addr == self.remote_addr,
    {
        self.remote_addr
    }

    /// The state of the connection.
    pub fn get_state(&self) -> (state: ConnectionState)
        ensures
            state == self.state,
    {
        self.state
    }

    /// Whether a `Hello` was sent, and whether one has come.
    pub fn get_hello_exchange_status(&self) -> (status: (bool, bool))
        ensures
            status == (self.hello_sent, self.hello_received),
    {
        (self.hello_sent, self.hello_received)
    }

    /// Notes whether a `Hello` has come; the state stays.
    pub fn set_hello_received(&mut self, received: bool)
        ensures
            *final(self) == (Peer { hello_received: received, ..*old(self) }),
    {
        self.hello_received = received;
    }

    /// The peer in another state. What is known of the exchange of `Hello`s is
    /// what the state says, unless the state stays.
    pub open spec fn in_state(self, new_state: ConnectionState) -> Peer {
        if self.state == new_state {
            self
        } else {
            Peer {
                state: new_state,
                hello_sent: hello_flags(new_state).0,
                hello_received: hello_flags(new_state).1,
                ..self
            }
        }
    }

    /// Changes the state, and returns what that asks of the node.
    pub fn set_state(&mut self, new_state: ConnectionState) -> (effect: PeerEffect)
        ensures
            *final(self) == old(self).in_state(new_state),
            effect == transition_effect(old(self).state, new_state, old(self).remote_addr),
    {
        let old_state = self.state;
        if old_state == new_state {
            return PeerEffect::Nothing;
        }
        self.state = new_state;
        match new_state {
            ConnectionState::HelloSent => {
                self.hello_sent = true;
                self.hello_received = false;
            },
            ConnectionState::HelloReceived => {
                self.hello_sent = false;
                self.hello_received = true;
            },
            ConnectionState::Established => {
                self.hello_sent = true;
                self.hello_received = true;
            },
            _ => {
                self.hello_sent = false;
                self.hello_received = false;
            },
        }
        if new_state == ConnectionState::Established {
            PeerEffect::RequestSubscriptions
        } else if old_state == ConnectionState::Established {
            PeerEffect::RemovePeer(self.remote_addr)
        } else {
            PeerEffect::Nothing
        }
    }

    /// The peer after a `Hello` was sent.
    pub open spec fn after_sending_hello(self) -> Peer {
        Peer {
            hello_sent: true,
            ..self.in_state(state_after_sending_hello(self.state, self.hello_received))
        }
    }

    /// Sends a `Hello`. Once it is sent, the connection is established if the
    /// other side's has come. Nothing changes where the wire does not take it.
    pub fn send_hello(&mut self, wire: WireState) -> (r: (
        Result<GeneratedMessage, SendError>,
        PeerEffect,
    ))
        ensures
            is_offer(
                r.0,
                MessageView::Hello(hello_message(old(self).config, old(self).direction)),
                wire,
            ),
            wire.refusal() is None ==> *final(self) == old(self).after_sending_hello() && r.1
                == transition_effect(
                old(self).state,
                final(self).state,
                old(self).remote_addr,
            ),
            wire.refusal() is Some ==> *final(self) == *old(self) && r.1 == PeerEffect::Nothing,
    {
        let secs: u64 = self.config.keepalive_interval.as_secs() % 0x1_0000_0000;
        let hello = pb::Hello {
            keepalive_interval: secs as u32,
            is_server: self.direction == ConnectionDirection::Incoming,
        };
        let sent = send_message(wire, GeneratedMessage::Hello(hello));
        if sent.is_err() {
            return (sent, PeerEffect::Nothing);
        }
        let new_state = match self.state {
            ConnectionState::Connecting => if self.hello_received {
                ConnectionState::Established
            } else {
                ConnectionState::HelloSent
            },
            ConnectionState::HelloReceived => ConnectionState::Established,
            other => other,
        };
        let effect = self.set_state(new_state);
        self.hello_sent = true;
        (sent, effect)
    }

    /// The peer after a `Hello` has come.
    pub open spec fn after_receiving_hello(self, hello: pb::Hello) -> Peer {
        Peer {
            hello_received: true,
            is_remote_server: hello.is_server,
            ..self.in_state(state_after_receiving_hello(self.state, self.hello_sent))
        }
    }

    /// Takes the other side's `Hello`. The connection is established if one was
    /// sent.
    pub fn receive_hello(&mut self, hello: pb::Hello) -> (effect: PeerEffect)
        ensures
            *final(self) == old(self).after_receiving_hello(hello),
            effect == transition_effect(
                old(self).state,
                final(self).state,
                old(self).remote_addr,
            ),
    {
        let new_state = match self.state {
            ConnectionState::Connecting => if self.hello_sent {
                ConnectionState::Established
            } else {
                ConnectionState::HelloReceived
            },
            ConnectionState::HelloSent => ConnectionState::Established,
            other => other,
        };
        let effect = self.set_state(new_state);
        self.hello_received = true;
        self.is_remote_server = hello.is_server;
        effect
    }

    /// Sends a keepalive.
    pub fn send_keepalive(&self, wire: WireState) -> (r: Result<GeneratedMessage, SendError>)
        ensures
            is_offer(r, MessageView::Keepalive, wire),
    {
        send_message(wire, GeneratedMessage::Keepalive)
    }

    /// Subscribes to a virtual network.
    pub fn send_subscribe(&self, vni: Vni, wire: WireState) -> (r: Result<
        GeneratedMessage,
        SendError,
    >)
        ensures
            is_offer(r, MessageView::Subscribe(pb::Subscription { vni }), wire),
    {
        send_message(wire, GeneratedMessage::Subscribe(pb::Subscription { vni }))
    }

    /// Ends the subscription to a virtual network.
    pub fn send_unsubscribe(&self, vni: Vni, wire: WireState) -> (r: Result<
        GeneratedMessage,
        SendError,
    >)
        ensures
            is_offer(r, MessageView::Unsubscribe(pb::Subscription { vni }), wire),
    {
        send_message(wire, GeneratedMessage::Unsubscribe(pb::Subscription { vni }))
    }

    /// Tells the other side of a route that was added or removed.
    pub fn send_update(
        &self,
        action: UpdateAction,
        vni: Vni,
        dest: Destination,
        nh: NextHop,
        wire: WireState,
    ) -> (r: Result<GeneratedMessage, SendError>)
        ensures
            is_offer(r, update_message(action, vni, dest, nh), wire),
    {
        send_message(wire, make_update(action, vni, dest, nh))
    }
}

/// What comes of a message to a peer.
#[derive(Debug)]
pub struct PeerStep {
    /// What is answered.
    pub reply: PeerReply,
    /// What goes to the wire.
    pub message: Option<GeneratedMessage>,
    /// What is asked of the node.
    pub effect: PeerEffect,
    /// Whether the peer goes on.
    pub running: bool,
}

impl PeerMessage {
    /// The message to the other side that a message to the peer asks for.
    pub open spec fn to_send(self, peer: Peer) -> Option<MessageView> {
        match self {
            PeerMessage::SendHello => Some(
                MessageView::Hello(hello_message(peer.config, peer.direction)),
            ),
            PeerMessage::SendKeepalive => Some(MessageView::Keepalive),
            PeerMessage::SendSubscribe(vni) => Some(
                MessageView::Subscribe(pb::Subscription { vni }),
            ),
            PeerMessage::SendUnsubscribe(vni) => Some(
                MessageView::Unsubscribe(pb::Subscription { vni }),
            ),
            PeerMessage::SendUpdate(action, vni, dest, nh) => Some(
                update_message(action, vni, dest, nh),
            ),
            _ => None,
        }
    }
}

impl Peer {
    /// The peer after a message.
    pub open spec fn after_message(self, message: PeerMessage, wire: WireState) -> Peer {
        match message {
            PeerMessage::SendHello if wire.refusal() is None => self.after_sending_hello(),
            PeerMessage::SetState(new_state) => self.in_state(new_state),
            PeerMessage::SetHelloReceived(hello_received) => Peer { hello_received, ..self },
            _ => self,
        }
    }

    /// What a peer answers to a message.
    pub open spec fn reply_to(self, message: PeerMessage, wire: WireState) -> PeerReply {
        match message {
            PeerMessage::GetState => PeerReply::State(self.state),
            PeerMessage::GetHelloStatus => PeerReply::HelloStatus(
                self.hello_sent,
                self.hello_received,
            ),
            _ => if message.to_send(self) is Some {
                match wire.refusal() {
                    Some(error) => PeerReply::Sent(Err(error)),
                    None => PeerReply::Sent(Ok(())),
                }
            } else {
                PeerReply::Silent
            },
        }
    }

    /// Whether `step` is what comes of a message.
    pub open spec fn step_matches(self, message: PeerMessage, wire: WireState, step: PeerStep) -> bool {
        &&& step.reply == self.reply_to(message, wire)
        &&& match message.to_send(self) {
            Some(view) if wire.refusal() is None => step.message matches Some(sent) && sent@
                == view,
            _ => step.message is None,
        }
        &&& step.effect == transition_effect(
            self.state,
            self.after_message(message, wire).state,
            self.remote_addr,
        )
        &&& step.running == !(message is Shutdown)
    }

    /// Carries out a message to the peer.
    pub fn handle(&mut self, message: PeerMessage, wire: WireState) -> (step: PeerStep)
        ensures
            *final(self) == old(self).after_message(message, wire),
            old(self).step_matches(message, wire, step),
    {
        let mut step = PeerStep {
            reply: PeerReply::Silent,
            message: None,
            effect: PeerEffect::Nothing,
            running: true,
        };
        match message {
            PeerMessage::SendHello => {
                let (sent, effect) = self.send_hello(wire);
                step.effect = effect;
                step.put(sent);
            },
            PeerMessage::SendKeepalive => step.put(self.send_keepalive(wire)),
            PeerMessage::SendSubscribe(vni) => step.put(self.send_subscribe(vni, wire)),
            PeerMessage::SendUnsubscribe(vni) => step.put(self.send_unsubscribe(vni, wire)),
            PeerMessage::SendUpdate(action, vni, dest, nh) => {
                step.put(self.send_update(action, vni, dest, nh, wire))
            },
            PeerMessage::GetState => {
                step.reply = PeerReply::State(self.get_state());
            },
            PeerMessage::SetState(new_state) => {
                step.effect = self.set_state(new_state);
            },
            PeerMessage::SetHelloReceived(received) => self.set_hello_received(received),
            PeerMessage::GetHelloStatus => {
                let (sent, received) = self.get_hello_exchange_status();
                step.reply = PeerReply::HelloStatus(sent, received);
            },
            PeerMessage::Shutdown => {
                step.running = false;
            },
        }
        step
    }
}

impl Peer {
    /// Ends the peer.
    pub fn trigger_shutdown(&mut self) -> (step: PeerStep)
        ensures
            *final(self) == *old(self),
            step.message is None,
            step.effect is Nothing,
            step.reply is Silent,
            !step.running,
    {
        self.handle(PeerMessage::Shutdown, WireState::Closed)
    }
}

impl PeerStep {
    /// Notes whether a message goes to the wire.
    fn put(&mut self, sent: Result<GeneratedMessage, SendError>)
        ensures
            final(self).effect == old(self).effect,
            final(self).running == old(self).running,
            match sent {
                Ok(message) => final(self).message == Some(message) && final(self).reply
                    == PeerReply::Sent(Ok(())),
                Err(error) => final(self).message == old(self).message && final(self).reply
                    == PeerReply::Sent(Err(error)),
            },
    {
        match sent {
            Ok(message) => {
                self.message = Some(message);
                self.reply = PeerReply::Sent(Ok(()));
            },
            Err(error) => {
                self.reply = PeerReply::Sent(Err(error));
            },
        }
    }
}

/// A peer's state says what was exchanged: a `Hello` was sent and has come just
/// as the state has it. This holds of a new connection, and sending and
/// receiving a `Hello` and changing the state keep it, while the exchange is
/// under way.
pub open spec fn flags_agree(peer: Peer) -> bool {
    (peer.hello_sent, peer.hello_received) == hello_flags(peer.state)
}

/// Whichever side's `Hello` is first, the connection is established after both,
/// and the node is asked once for its subscriptions.
pub proof fn lemma_hello_exchange(
    config: Config,
    addr: SocketAddr,
    direction: ConnectionDirection,
    hello: pb::Hello,
)
    ensures
        ({
            let new = Peer::opening(config, addr, direction);
            let sent = new.after_sending_hello();
            let received = new.after_receiving_hello(hello);
            let sent_first = sent.after_receiving_hello(hello);
            let received_first = received.after_sending_hello();
            &&& sent.state is HelloSent
            &&& received.state is HelloReceived
            &&& sent_first.state is Established
            &&& received_first == sent_first
            &&& transition_effect(new.state, sent.state, addr) is Nothing
            &&& transition_effect(sent.state, sent_first.state, addr) is RequestSubscriptions
            &&& transition_effect(new.state, received.state, addr) is Nothing
            &&& transition_effect(received.state, received_first.state, addr)
                is RequestSubscriptions
        }),
{
}

/// As long as the exchange is under way, a peer's state says what was exchanged.
pub proof fn lemma_flags_agree(
    config: Config,
    addr: SocketAddr,
    direction: ConnectionDirection,
    peer: Peer,
    state: ConnectionState,
    hello: pb::Hello,
)
    ensures
        flags_agree(Peer::opening(config, addr, direction)),
        flags_agree(peer) ==> flags_agree(peer.in_state(state)),
        flags_agree(peer) && !(peer.state is Retry || peer.state is Closed) ==> flags_agree(
            peer.after_sending_hello(),
        ) && flags_agree(peer.after_receiving_hello(hello)),
{
}

/// The node is asked for its subscriptions just when a connection becomes
/// established, and to forget a peer just when it ceases to be.
pub proof fn lemma_transition_effect(
    old_state: ConnectionState,
    new_state: ConnectionState,
    addr: SocketAddr,
)
    ensures
        transition_effect(old_state, new_state, addr) is RequestSubscriptions <==> (new_state
            is Established && !(old_state is Established)),
        transition_effect(old_state, new_state, addr) == PeerEffect::RemovePeer(addr) <==> (
        old_state is Established && !(new_state is Established)),
{
}

/// The bytes of an update from this node are few.
proof fn lemma_update_len(action: UpdateAction, vni: Vni, dest: Destination, nh: NextHop)
    ensures
        update_message(action, vni, dest, nh).payload().len() <= 400,
{
    let d = destination_message(dest);
    let n = next_hop_message(nh);
    let number = pb::Action::Remove.number();
    lemma_octets_len(dest.prefix.addr());
    lemma_octets_len(nh.target_address);
    lemma_field_lens(1, 0, d.ip_version, Seq::empty());
    lemma_field_lens(2, 0, 0, d.prefix);
    lemma_field_lens(3, d.prefix_length, 0, Seq::empty());
    lemma_field_lens(1, 0, 0, n.target_address);
    lemma_field_lens(2, n.target_vni, 0, Seq::empty());
    lemma_field_lens(3, 0, n.hop_type, Seq::empty());
    lemma_field_lens(4, n.nat_port_range_from, 0, Seq::empty());
    lemma_field_lens(5, n.nat_port_range_to, 0, Seq::empty());
    lemma_field_lens(1, 0, number, Seq::empty());
    lemma_field_lens(2, vni, 0, Seq::empty());
    lemma_field_lens(3, 0, 0, pb::Destination::payload(d));
    lemma_field_lens(4, 0, 0, pb::NextHop::payload(n));
}

/// Whatever a peer sends fits in a frame.
pub proof fn lemma_messages_fit(peer: Peer, message: PeerMessage)
    ensures
        message.to_send(peer) matches Some(view) ==> view.payload().len() <= MAX_MESSAGE_LEN,
{
    match message {
        PeerMessage::SendHello => {
            let hello = hello_message(peer.config, peer.direction);
            lemma_field_lens(1, hello.keepalive_interval, 0, Seq::empty());
            lemma_field_lens(2, 0, 0, Seq::empty());
        },
        PeerMessage::SendSubscribe(vni) => lemma_field_lens(1, vni, 0, Seq::empty()),
        PeerMessage::SendUnsubscribe(vni) => lemma_field_lens(1, vni, 0, Seq::empty()),
        PeerMessage::SendUpdate(action, vni, dest, nh) => lemma_update_len(action, vni, dest, nh),
        _ => {},
    }
}

} // verus!
