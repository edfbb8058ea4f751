//! The node: its peers, its routes and what it tells whom.
//!
//! The node decides and somebody else acts. Each function changes what the node
//! knows and returns what is to be done: messages to peers, connections to open,
//! routes to install.

use crate::codec::{GeneratedMessage, MessageView};
use crate::collections::{lemma_push_contains, lemma_take_more, lemma_take_next, Key, VecMap, VecSet};
use crate::convert::{
    lemma_destination_exchange, lemma_next_hop_exchange, message_destination, message_next_hop,
};
use crate::net::SocketAddr;
use crate::pb;
use crate::peer::{
    hello_message, subscription_requests, transition_effect, update_message, Peer, PeerEffect,
    PeerMessage, PeerStep, SendError, WireState,
};
use crate::routetable::{
    from_others, hops_of, lists_routes_from, peers_of, vnis_of, PeerKey, Route, RouteTable,
};
use crate::types::{
    retry_delay, Config, ConnectionDirection, ConnectionState, Destination, Duration,
    InternalUpdate, NextHop, UpdateAction, Vni,
};
use vstd::prelude::*;

verus! {

/// A peer's interest in a virtual network.
#[derive(Debug, Clone, Copy, PartialEq, Eq, Structural)]
pub struct Interest {
    pub vni: Vni,
    pub addr: SocketAddr,
}

impl Key for Interest {
    fn same(&self, other: &Interest) -> (r: bool) {
        *self == *other
    }
}

/// What a node knows.
pub struct NodeView {
    pub config: Config,
    pub is_server: bool,
    /// Whether the node has not been stopped.
    pub running: bool,
    /// The routes that peers announced.
    pub routes: Set<Route>,
    /// The routes that the node announces.
    pub announcements: Set<Route>,
    /// The virtual networks that the node subscribes to.
    pub subscriptions: Set<Vni>,
    /// Which peer subscribes to which virtual network.
    pub subscribers: Set<Interest>,
    pub peers: Map<SocketAddr, Peer>,
}

/// Why a request to the node failed.
#[derive(Debug, Clone, Copy, PartialEq, Eq, Structural)]
pub enum MetalBondError {
    /// The node has been stopped.
    Stopped,
    /// There is no such peer.
    PeerNotFound(SocketAddr),
    /// No connection to the peer could be opened.
    FailedToConnect(SocketAddr),
    /// The connection is open, and the `Hello` could not be sent.
    FailedToSendHello(SendError),
    /// The connection was opened by the other side, which alone can open it again.
    CannotRetryIncoming,
    /// The update lacks a valid action, destination or next hop.
    InvalidUpdate,
}

/// One message to several peers.
#[derive(Debug)]
pub struct Multicast {
    pub to: Vec<SocketAddr>,
    pub message: PeerMessage,
}

/// To whom a message goes.
#[derive(Debug, Clone, Copy, PartialEq, Eq, Structural)]
pub enum Audience {
    /// All established peers.
    Established,
    /// The established peers that subscribe to a virtual network, but for one.
    Subscribers(Vni, Option<SocketAddr>),
    /// The established peers that subscribe to a virtual network, and all the
    /// established servers.
    SubscribersAndServers(Vni),
    /// The established peers that subscribe to a virtual network and to which the
    /// node has a route no longer to offer, but for one.
    Deprived(Vni, Destination, NextHop, Option<SocketAddr>),
    /// The established peers that subscribe to a virtual network and to which the
    /// node has a route no longer to offer, and the established servers that do not
    /// subscribe to it.
    DeprivedAndServers(Vni, Destination, NextHop),
}

/// What happens to a route on this host.
#[derive(Debug, Clone, Copy, PartialEq, Eq, Structural)]
pub enum RouteChange {
    Nothing,
    Install(Vni, Destination, NextHop),
    Uninstall(Vni, Destination, NextHop),
}

/// What a route that was added or removed comes to.
#[derive(Debug)]
pub struct RouteOutcome {
    /// What happens on this host.
    pub change: RouteChange,
    /// Who is told.
    pub cast: Option<Multicast>,
}

/// How the addition of a peer goes on.
#[derive(Debug, Clone, Copy, PartialEq, Eq)]
pub enum PeerProgress {
    /// It is over.
    Done(Result<(), MetalBondError>),
    /// A connection to the address is to be opened first.
    Connect(SocketAddr),
}

/// What a message from a peer comes to.
#[derive(Debug)]
pub struct Received {
    /// What a change of the connection's state asks of the node.
    pub effect: PeerEffect,
    /// What is sent back.
    pub answers: Vec<PeerMessage>,
    /// What a route in the message comes to.
    pub outcome: Option<RouteOutcome>,
}

/// What can be asked of a node.
#[derive(Debug, Clone, Copy, PartialEq, Eq, Structural)]
pub enum MetalBondCommand {
    Subscribe(Vni),
    Unsubscribe(Vni),
    AnnounceRoute(Vni, Destination, NextHop),
    WithdrawRoute(Vni, Destination, NextHop),
    GetSubscribedVnis,
    IsRouteAnnounced(Vni, Destination, NextHop),
    GetPeerState(SocketAddr),
    AddPeer(SocketAddr),
    RemovePeer(SocketAddr),
    RetryConnection(SocketAddr),
    RouteUpdate(InternalUpdate),
    Shutdown,
}

/// What a node answers.
#[derive(Debug)]
pub enum MetalBondReply {
    /// Nothing is answered.
    Silent,
    /// The answer comes when a connection was opened or could not be.
    Pending,
    Done(Result<(), MetalBondError>),
    SubscribedVnis(Vec<Vni>),
    Announced(bool),
    PeerState(Result<ConnectionState, MetalBondError>),
}

/// What a command to a node comes to.
#[derive(Debug)]
pub struct MetalBondStep {
    /// What is answered.
    pub reply: MetalBondReply,
    /// What peers are told of the node itself.
    pub cast: Option<Multicast>,
    /// What the routes of peers come to.
    pub outcomes: Vec<RouteOutcome>,
    /// A connection to open.
    pub connect: Option<SocketAddr>,
    /// Whether the node goes on.
    pub running: bool,
}

/// A route that the node itself announces.
pub open spec fn own_route(vni: Vni, dest: Destination, nh: NextHop) -> Route {
    Route { vni, destination: dest, next_hop: nh, peer: None }
}

impl NodeView {
    /// Whether a message to `audience` goes to `addr`.
    pub open spec fn reaches(self, audience: Audience, addr: SocketAddr) -> bool {
        &&& self.peers.contains_key(addr)
        &&& self.peers[addr].state is Established
        &&& match audience {
            Audience::Established => true,
            Audience::Subscribers(vni, except) => self.subscribers.contains(Interest { vni, addr }) && except
                != Some(addr),
            Audience::SubscribersAndServers(vni) => self.subscribers.contains(Interest { vni, addr })
                || self.peers[addr].is_remote_server,
            Audience::Deprived(vni, dest, nh, except) => self.subscribers.contains(
                Interest { vni, addr },
            ) && except != Some(addr) && !self.offers(addr, vni, dest, nh),
            Audience::DeprivedAndServers(vni, dest, nh) => if self.subscribers.contains(
                Interest { vni, addr },
            ) {
                !self.offers(addr, vni, dest, nh)
            } else {
                self.peers[addr].is_remote_server
            },
        }
    }

    /// Whether `cast` is one message to `audience`, to each peer once.
    pub open spec fn is_cast(self, cast: Multicast, audience: Audience, message: PeerMessage) -> bool {
        &&& cast.message == message
        &&& cast.to@.no_duplicates()
        &&& forall|a: SocketAddr| #[trigger] cast.to@.contains(a) == self.reaches(audience, a)
    }
}

/// A node.
#[derive(Debug)]
pub struct MetalBond {
    config: Config,
    is_server: bool,
    running: bool,
    route_table: RouteTable,
    my_announcements: RouteTable,
    my_subscriptions: VecSet<Vni>,
    subscribers: VecSet<Interest>,
    peers: VecMap<SocketAddr, Peer>,
}

impl View for MetalBond {
    type V = NodeView;

    closed spec fn view(&self) -> NodeView {
        NodeView {
            config: self.config,
            is_server: self.is_server,
            running: self.running,
            routes: self.route_table@,
            announcements: self.my_announcements@,
            subscriptions: self.my_subscriptions@,
            subscribers: self.subscribers@,
            peers: self.peers@,
        }
    }
}

impl MetalBond {
    /// The parts of the node are well formed, both tables take routes, and what the
    /// node announces comes from the node.
    pub closed spec fn wf(&self) -> bool {
        &&& self.route_table.wf()
        &&& self.route_table.is_attached()
        &&& self.my_announcements.wf()
        &&& self.my_announcements.is_attached()
        &&& forall|r: Route| #[trigger] self.my_announcements@.contains(r) ==> r.peer is None
        &&& self.my_subscriptions.wf()
        &&& self.subscribers.wf()
        &&& self.peers.wf()
    }

    /// A node that knows of nothing yet.
    pub fn new(config: Config, is_server: bool) -> (node: MetalBond)
        ensures
            node.wf(),
            node@ == (NodeView {
                config,
                is_server,
                running: true,
                routes: Set::empty(),
                announcements: Set::empty(),
                subscriptions: Set::empty(),
                subscribers: Set::empty(),
                peers: Map::empty(),
            }),
    {
        MetalBond {
            config,
            is_server,
            running: true,
            route_table: RouteTable::new(),
            my_announcements: RouteTable::new(),
            my_subscriptions: VecSet::new(),
            subscribers: VecSet::new(),
            peers: VecMap::new(),
        }
    }

    /// Whether the node has a route to offer to a peer.
    fn has_offer(&self, addr: SocketAddr, vni: Vni, dest: Destination, nh: NextHop) -> (r: bool)
        requires
            self.wf(),
        ensures
            r == self@.offers(addr, vni, dest, nh),
    {
        self.my_announcements.next_hop_exists(vni, dest, nh, None)
            || self.route_table.has_other_announcer(vni, dest, nh, addr)
    }

    /// The peers that a message goes to, each once.
    fn recipients(&self, audience: Audience) -> (to: Vec<SocketAddr>)
        requires
            self.wf(),
        ensures
            to@.no_duplicates(),
            forall|a: SocketAddr| #[trigger] to@.contains(a) == self@.reaches(audience, a),
    {
        let mut to: Vec<SocketAddr> = Vec::new();
        let count: usize = self.peers.len();
        for i in 0..count
            invariant
                self.wf(),
                count == self.peers.key_seq().len(),
                self.peers.key_seq().no_duplicates(),
                to@.no_duplicates(),
                forall|a: SocketAddr| #[trigger]
                    to@.contains(a) == (self.peers.key_seq().take(i as int).contains(a)
                        && self@.reaches(audience, a)),
        {
            let (addr, peer) = self.peers.entry(i);
            proof {
                lemma_take_next(self.peers.key_seq(), i as int);
            }
            let reached = match peer.state {
                ConnectionState::Established => match audience {
                    Audience::Established => true,
                    Audience::Subscribers(vni, except) => self.subscribers.contains(&Interest { vni, addr })
                        && except != Some(addr),
                    Audience::SubscribersAndServers(vni) => self.subscribers.contains(&Interest { vni, addr })
                        || peer.is_remote_server,
                    Audience::Deprived(vni, dest, nh, except) => self.subscribers.contains(
                        &Interest { vni, addr },
                    ) && except != Some(addr) && !self.has_offer(addr, vni, dest, nh),
                    Audience::DeprivedAndServers(vni, dest, nh) => if self.subscribers.contains(
                        &Interest { vni, addr },
                    ) {
                        !self.has_offer(addr, vni, dest, nh)
                    } else {
                        peer.is_remote_server
                    },
                },
                _ => false,
            };
            assert(reached == self@.reaches(audience, addr));
            if reached {
                proof {
                    lemma_push_contains(to@, addr);
                }
                to.push(addr);
            }
        }
        proof {
            let keys = self.peers.key_seq();
            assert(keys.take(count as int) =~= keys);
            assert forall|a: SocketAddr| self@.reaches(audience, a) implies keys.contains(a) by {
                assert(keys.to_set().contains(a));
            }
        }
        to
    }

    /// Subscribes to a virtual network. The established peers are told, unless
    /// the node subscribed before.
    pub fn subscribe(&mut self, vni: Vni) -> (r: (Result<(), MetalBondError>, Option<Multicast>))
        requires
            old(self).wf(),
        ensures
            final(self).wf(),
            final(self)@ == old(self)@.after_command(MetalBondCommand::Subscribe(vni)),
            r.0 == old(self)@.accepted(),
            old(self)@.casts(MetalBondCommand::Subscribe(vni), r.1),
    {
        if !self.running {
            (Err(MetalBondError::Stopped), None)
        } else if self.my_subscriptions.insert(vni) {
            let to = self.recipients(Audience::Established);
            (Ok(()), Some(Multicast { to, message: PeerMessage::SendSubscribe(vni) }))
        } else {
            (Ok(()), None)
        }
    }

    /// Ends the subscription to a virtual network. The established peers are
    /// told, if there was one.
    pub fn unsubscribe(&mut self, vni: Vni) -> (r: (Result<(), MetalBondError>, Option<Multicast>))
        requires
            old(self).wf(),
        ensures
            final(self).wf(),
            final(self)@ == old(self)@.after_command(MetalBondCommand::Unsubscribe(vni)),
            r.0 == old(self)@.accepted(),
            old(self)@.casts(MetalBondCommand::Unsubscribe(vni), r.1),
    {
        if !self.running {
            (Err(MetalBondError::Stopped), None)
        } else if self.my_subscriptions.remove(&vni) {
            let to = self.recipients(Audience::Established);
            (Ok(()), Some(Multicast { to, message: PeerMessage::SendUnsubscribe(vni) }))
        } else {
            (Ok(()), None)
        }
    }

    /// The virtual networks that the node subscribes to, each once; none when it
    /// has been stopped.
    pub fn get_subscribed_vnis(&self) -> (vnis: Vec<Vni>)
        requires
            self.wf(),
        ensures
            vnis@.no_duplicates(),
            vnis@.to_set() == self@.current_subscriptions(),
    {
        if self.running {
            self.my_subscriptions.to_vec()
        } else {
            let none: Vec<Vni> = Vec::new();
            assert(none@.to_set() =~= Set::empty());
            none
        }
    }

    /// Announces a route. The peers that subscribe to its virtual network, and
    /// the servers, are told, unless it was announced before.
    pub fn announce_route(&mut self, vni: Vni, dest: Destination, nh: NextHop) -> (r: (
        Result<(), MetalBondError>,
        Option<Multicast>,
    ))
        requires
            old(self).wf(),
        ensures
            final(self).wf(),
            final(self)@ == old(self)@.after_command(
                MetalBondCommand::AnnounceRoute(vni, dest, nh),
            ),
            r.0 == old(self)@.accepted(),
            old(self)@.casts(MetalBondCommand::AnnounceRoute(vni, dest, nh), r.1),
    {
        if !self.running {
            (Err(MetalBondError::Stopped), None)
        } else if self.my_announcements.add_next_hop(vni, dest, nh, None) {
            let to = self.recipients(Audience::SubscribersAndServers(vni));
            let message = PeerMessage::SendUpdate(UpdateAction::Add, vni, dest, nh);
            (Ok(()), Some(Multicast { to, message }))
        } else {
            (Ok(()), None)
        }
    }

    /// Withdraws a route. Those that would be told of its announcement are told,
    /// if it was announced, but for the subscribers to which the node still has the
    /// route to offer, as others announce it.
    pub fn withdraw_route(&mut self, vni: Vni, dest: Destination, nh: NextHop) -> (r: (
        Result<(), MetalBondError>,
        Option<Multicast>,
    ))
        requires
            old(self).wf(),
        ensures
            final(self).wf(),
            final(self)@ == old(self)@.after_command(
                MetalBondCommand::WithdrawRoute(vni, dest, nh),
            ),
            r.0 == old(self)@.accepted(),
            old(self)@.casts(MetalBondCommand::WithdrawRoute(vni, dest, nh), r.1),
    {
        if !self.running {
            (Err(MetalBondError::Stopped), None)
        } else if self.my_announcements.remove_next_hop(vni, dest, nh, None).is_ok() {
            let to = self.recipients(Audience::DeprivedAndServers(vni, dest, nh));
            let message = PeerMessage::SendUpdate(UpdateAction::Remove, vni, dest, nh);
            (Ok(()), Some(Multicast { to, message }))
        } else {
            (Ok(()), None)
        }
    }

    /// Whether the node announces a route. It announces none when it has been
    /// stopped.
    pub fn is_route_announced(&self, vni: Vni, dest: Destination, nh: NextHop) -> (r: bool)
        requires
            self.wf(),
        ensures
            r == (self@.running && self@.announcements.contains(own_route(vni, dest, nh))),
    {
        self.running && self.my_announcements.next_hop_exists(vni, dest, nh, None)
    }

    /// Stops the node. It refuses all requests from then on.
    pub fn shutdown(&mut self)
        requires
            old(self).wf(),
        ensures
            final(self).wf(),
            final(self)@ == (NodeView { running: false, ..old(self)@ }),
    {
        self.running = false;
    }

    /// The state of the connection to a peer.
    pub fn get_peer_state(&self, addr: SocketAddr) -> (r: Result<ConnectionState, MetalBondError>)
        requires
            self.wf(),
        ensures
            r == self@.state_of(addr),
    {
        if !self.running {
            return Err(MetalBondError::Stopped);
        }
        match self.peers.get(&addr) {
            Some(peer) => Ok(peer.get_state()),
            None => Err(MetalBondError::PeerNotFound(addr)),
        }
    }

    /// Adds a peer. A server only notes it, as the connection is there; otherwise
    /// the connection is to be opened. A peer that is known stays as it is.
    pub fn add_peer(&mut self, addr: SocketAddr) -> (r: PeerProgress)
        requires
            old(self).wf(),
        ensures
            final(self).wf(),
            final(self)@ == old(self)@.after_command(MetalBondCommand::AddPeer(addr)),
            r == match old(self)@.connect_for(MetalBondCommand::AddPeer(addr)) {
                Some(to) => PeerProgress::Connect(to),
                None => PeerProgress::Done(old(self)@.accepted()),
            },
    {
        if !self.running {
            PeerProgress::Done(Err(MetalBondError::Stopped))
        } else if self.peers.contains_key(&addr) {
            PeerProgress::Done(Ok(()))
        } else if self.is_server {
            let peer = Peer::new(self.config, addr, ConnectionDirection::Incoming);
            self.peers.insert(addr, peer);
            PeerProgress::Done(Ok(()))
        } else {
            PeerProgress::Connect(addr)
        }
    }

    /// Goes on with a peer once it is known whether the connection was `opened`:
    /// the `Hello` is sent, and then the peer is noted.
    pub fn finish_add_peer(&mut self, addr: SocketAddr, opened: bool, wire: WireState) -> (r: (
        Result<(), MetalBondError>,
        Option<GeneratedMessage>,
    ))
        requires
            old(self).wf(),
        ensures
            final(self).wf(),
            !old(self)@.running ==> final(self)@ == old(self)@ && r == (
                Err::<(), MetalBondError>(MetalBondError::Stopped),
                None::<GeneratedMessage>,
            ),
            old(self)@.running && !opened ==> final(self)@ == old(self)@ && r == (
                Err::<(), MetalBondError>(MetalBondError::FailedToConnect(addr)),
                None::<GeneratedMessage>,
            ),
            old(self)@.running && opened ==> match wire.refusal() {
                Some(e) => final(self)@ == old(self)@ && r == (
                    Err::<(), MetalBondError>(MetalBondError::FailedToSendHello(e)),
                    None::<GeneratedMessage>,
                ),
                None => {
                    &&& final(self)@ == (NodeView {
                        peers: old(self)@.peers.insert(
                            addr,
                            Peer::opening(
                                old(self)@.config,
                                addr,
                                ConnectionDirection::Outgoing,
                            ).after_sending_hello(),
                        ),
                        ..old(self)@
                    })
                    &&& r.0 is Ok
                    &&& r.1 matches Some(message) && message@ == MessageView::Hello(
                        hello_message(old(self)@.config, ConnectionDirection::Outgoing),
                    )
                },
            },
    {
        if !self.running {
            return (Err(MetalBondError::Stopped), None);
        }
        if !opened {
            return (Err(MetalBondError::FailedToConnect(addr)), None);
        }
        let mut peer = Peer::new(self.config, addr, ConnectionDirection::Outgoing);
        match peer.send_hello(wire) {
            (Ok(message), _) => {
                self.peers.insert(addr, peer);
                (Ok(()), Some(message))
            },
            (Err(e), _) => (Err(MetalBondError::FailedToSendHello(e)), None),
        }
    }

    /// Begins to open a lost connection again, which only the side that opened
    /// it can.
    pub fn retry_connection(&self, addr: SocketAddr) -> (r: PeerProgress)
        requires
            self.wf(),
        ensures
            r == match self@.connect_for(MetalBondCommand::RetryConnection(addr)) {
                Some(to) => PeerProgress::Connect(to),
                None => PeerProgress::Done(Err(self@.retry_error(addr))),
            },
    {
        if !self.running {
            PeerProgress::Done(Err(MetalBondError::Stopped))
        } else if !self.peers.contains_key(&addr) {
            PeerProgress::Done(Err(MetalBondError::PeerNotFound(addr)))
        } else if self.is_server {
            PeerProgress::Done(Err(MetalBondError::CannotRetryIncoming))
        } else {
            PeerProgress::Connect(addr)
        }
    }

    /// Goes on once it is known whether the connection was `opened` again: the
    /// exchange of `Hello`s starts anew, with the message that is returned.
    pub fn finish_retry(&mut self, addr: SocketAddr, opened: bool) -> (r: (
        Result<(), MetalBondError>,
        PeerEffect,
        Option<PeerMessage>,
    ))
        requires
            old(self).wf(),
        ensures
            final(self).wf(),
            if !old(self)@.running {
                final(self)@ == old(self)@ && r.0 == Err::<(), MetalBondError>(
                    MetalBondError::Stopped,
                ) && r.1 is Nothing && r.2 is None
            } else if !opened {
                final(self)@ == old(self)@ && r.0 == Err::<(), MetalBondError>(
                    MetalBondError::FailedToConnect(addr),
                ) && r.1 is Nothing && r.2 is None
            } else if !old(self)@.peers.contains_key(addr) {
                final(self)@ == old(self)@ && r.0 == Err::<(), MetalBondError>(
                    MetalBondError::PeerNotFound(addr),
                ) && r.1 is Nothing && r.2 is None
            } else {
                let peer = old(self)@.peers[addr];
                &&& final(self)@ == (NodeView {
                    peers: old(self)@.peers.insert(
                        addr,
                        peer.in_state(ConnectionState::Connecting),
                    ),
                    ..old(self)@
                })
                &&& r.0 == Ok::<(), MetalBondError>(())
                &&& r.1 == transition_effect(
                    peer.state,
                    ConnectionState::Connecting,
                    peer.remote_addr,
                )
                &&& r.2 == Some(PeerMessage::SendHello)
            },
    {
        if !self.running {
            return (Err(MetalBondError::Stopped), PeerEffect::Nothing, None);
        }
        if !opened {
            return (Err(MetalBondError::FailedToConnect(addr)), PeerEffect::Nothing, None);
        }
        match self.peers.get(&addr) {
            None => (Err(MetalBondError::PeerNotFound(addr)), PeerEffect::Nothing, None),
            Some(known) => {
                let mut peer: Peer = *known;
                let effect = peer.set_state(ConnectionState::Connecting);
                self.peers.insert(addr, peer);
                (Ok(()), effect, Some(PeerMessage::SendHello))
            },
        }
    }

    /// Hands a message to a peer, and returns what comes of it; `None` where
    /// there is no such peer or the node has been stopped.
    pub fn peer_message(&mut self, addr: SocketAddr, message: PeerMessage, wire: WireState) -> (r:
        Option<PeerStep>)
        requires
            old(self).wf(),
        ensures
            final(self).wf(),
            !(old(self)@.running && old(self)@.peers.contains_key(addr)) ==> final(self)@ == old(
                self,
            )@ && r is None,
            old(self)@.running && old(self)@.peers.contains_key(addr) ==> {
                let peer = old(self)@.peers[addr];
                &&& final(self)@ == (NodeView {
                    peers: old(self)@.peers.insert(addr, peer.after_message(message, wire)),
                    ..old(self)@
                })
                &&& r matches Some(step) && peer.step_matches(message, wire, step)
            },
    {
        if !self.running {
            return None;
        }
        match self.peers.get(&addr) {
            None => None,
            Some(known) => {
                let mut peer: Peer = *known;
                let step = peer.handle(message, wire);
                self.peers.insert(addr, peer);
                Some(step)
            },
        }
    }

    /// Ends the subscriptions of a peer.
    fn forget_subscriber(&mut self, addr: SocketAddr)
        requires
            old(self).wf(),
        ensures
            final(self).wf(),
            final(self)@ == (NodeView {
                subscribers: old(self)@.subscribers.filter(|i: Interest| i.addr != addr),
                ..old(self)@
            }),
    {
        let ghost before = self@;
        let interests = self.subscribers.to_vec();
        for i in 0..interests.len()
            invariant
                before == old(self)@,
                self.wf(),
                interests@.to_set() == before.subscribers,
                self@ == (NodeView { subscribers: self@.subscribers, ..before }),
                forall|x: Interest| #[trigger]
                    self@.subscribers.contains(x) == (before.subscribers.contains(x) && !(x.addr
                        == addr && interests@.take(i as int).contains(x))),
        {
            proof {
                lemma_take_more(interests@, i as int);
            }
            let interest = interests[i];
            if interest.addr == addr {
                self.subscribers.remove(&interest);
            }
        }
        proof {
            assert(interests@.take(interests@.len() as int) =~= interests@);
            assert forall|x: Interest| before.subscribers.contains(x) implies interests@.contains(
                x,
            ) by {
                assert(interests@.to_set().contains(x));
            }
            assert(self@.subscribers =~= before.subscribers.filter(|i: Interest| i.addr != addr));
        }
    }
}

impl MetalBond {
    /// The routes that peers announced.
    pub fn route_table_view(&self) -> (table: &RouteTable)
        requires
            self.wf(),
        ensures
            table.wf(),
            table@ == self@.routes,
    {
        &self.route_table
    }
}

impl NodeView {
    /// The node after a route was added or removed.
    pub open spec fn after_update(self, update: InternalUpdate) -> NodeView {
        let route = update_route(update);
        NodeView {
            routes: match update.action {
                UpdateAction::Add => self.routes.insert(route),
                UpdateAction::Remove => self.routes.remove(route),
            },
            ..self
        }
    }

    /// Whether an update takes the last peer away that announced a route.
    pub open spec fn vanishes(self, update: InternalUpdate) -> bool {
        &&& update.action is Remove
        &&& self.routes.contains(update_route(update))
        &&& !hops_of(
            self.after_update(update).routes,
            update.vni,
            update.destination,
        ).contains(update.next_hop)
    }

    /// Whether an update is news: an addition that its announcer had not made
    /// before, or a removal of what its announcer announced.
    pub open spec fn is_news(self, update: InternalUpdate) -> bool {
        self.routes.contains(update_route(update)) == (update.action is Remove)
    }

    /// Who is told of an update that is news: of an addition the subscribers, of a
    /// removal those to which the node has the route no longer to offer, and never
    /// the peer that it came from.
    pub open spec fn update_audience(update: InternalUpdate) -> Audience {
        match update.action {
            UpdateAction::Add => Audience::Subscribers(update.vni, update.source_peer),
            UpdateAction::Remove => Audience::Deprived(
                update.vni,
                update.destination,
                update.next_hop,
                update.source_peer,
            ),
        }
    }

    /// What happens to the route of an update on this host: it is installed for
    /// the first peer that announces it and goes with the last one.
    pub open spec fn change_for(self, update: InternalUpdate) -> RouteChange {
        let hops = hops_of(self.routes, update.vni, update.destination);
        match update.action {
            UpdateAction::Add => if hops.contains(update.next_hop) {
                RouteChange::Nothing
            } else {
                RouteChange::Install(update.vni, update.destination, update.next_hop)
            },
            UpdateAction::Remove => if self.vanishes(update) {
                RouteChange::Uninstall(update.vni, update.destination, update.next_hop)
            } else {
                RouteChange::Nothing
            },
        }
    }

    /// Whether `outcome` is what an update comes to.
    pub open spec fn outcome_matches(self, update: InternalUpdate, outcome: RouteOutcome) -> bool {
        &&& outcome.change == self.change_for(update)
        &&& match outcome.cast {
            Some(cast) => self.is_news(update) && self.after_update(update).is_cast(
                cast,
                NodeView::update_audience(update),
                PeerMessage::SendUpdate(
                    update.action,
                    update.vni,
                    update.destination,
                    update.next_hop,
                ),
            ),
            None => !self.is_news(update),
        }
    }

    /// The node without what a peer announced and subscribed to.
    pub open spec fn without_routes_of(self, addr: SocketAddr) -> NodeView {
        NodeView {
            routes: self.routes.filter(|r: Route| r.peer != Some(addr)),
            subscribers: self.subscribers.filter(|i: Interest| i.addr != addr),
            ..self
        }
    }

    /// The node without a peer: what it announced and subscribed to goes too.
    pub open spec fn without_peer(self, addr: SocketAddr) -> NodeView {
        NodeView { peers: self.peers.remove(addr), ..self.without_routes_of(addr) }
    }

    /// Whether a route goes with a peer: no other peer announced it.
    pub open spec fn goes_with(self, addr: SocketAddr, vni: Vni, dest: Destination, nh: NextHop) -> bool {
        peers_of(self.routes, vni, dest, nh).contains(Some(addr)) && !from_others(
            self.routes,
            vni,
            dest,
            nh,
            addr,
        )
    }

    /// Whether `outcomes` are what the loss of a peer comes to, when `after` is the
    /// node then: there is one for every route that the peer announced.
    pub open spec fn loss_matches(
        self,
        after: NodeView,
        addr: SocketAddr,
        outcomes: Seq<RouteOutcome>,
    ) -> bool {
        &&& messages_of(outcomes).no_duplicates()
        &&& forall|vni: Vni, destination: Destination, next_hop: NextHop| #[trigger]
            messages_of(outcomes).contains(
                PeerMessage::SendUpdate(UpdateAction::Remove, vni, destination, next_hop),
            ) == self.routes.contains(Route { vni, destination, next_hop, peer: Some(addr) })
        &&& forall|i: int|
            0 <= i < outcomes.len() ==> self.is_loss_outcome(after, addr, #[trigger] outcomes[i])
    }

    /// Whether `outcome` is what the loss of a route comes to that a peer announced:
    /// it is uninstalled if no other peer announced it, and the subscribers are told
    /// to which the node has it no longer to offer.
    pub open spec fn is_loss_outcome(
        self,
        after: NodeView,
        addr: SocketAddr,
        outcome: RouteOutcome,
    ) -> bool {
        outcome.cast matches Some(cast) && cast.message matches PeerMessage::SendUpdate(
            action,
            vni,
            dest,
            nh,
        ) && action is Remove && after.is_cast(
            cast,
            Audience::Deprived(vni, dest, nh, Some(addr)),
            cast.message,
        ) && outcome.change == if self.goes_with(addr, vni, dest, nh) {
            RouteChange::Uninstall(vni, dest, nh)
        } else {
            RouteChange::Nothing
        }
    }
}

/// The route that an update adds or removes.
pub open spec fn update_route(update: InternalUpdate) -> Route {
    Route {
        vni: update.vni,
        destination: update.destination,
        next_hop: update.next_hop,
        peer: update.source_peer,
    }
}

impl MetalBond {
    /// Takes note of a route that was added or removed, unless the node has been
    /// stopped.
    pub fn handle_route_update(&mut self, update: InternalUpdate) -> (outcome: RouteOutcome)
        requires
            old(self).wf(),
        ensures
            final(self).wf(),
            final(self)@ == old(self)@.after_command(MetalBondCommand::RouteUpdate(update)),
            if old(self)@.running {
                old(self)@.outcome_matches(update, outcome)
            } else {
                outcome.change is Nothing && outcome.cast is None
            },
    {
        if !self.running {
            return RouteOutcome { change: RouteChange::Nothing, cast: None };
        }
        let vni: Vni = update.vni;
        let dest = update.destination;
        let nh = update.next_hop;
        let known = self.route_table.has_next_hop(vni, dest, nh);
        let (news, change) = match update.action {
            UpdateAction::Add => {
                let new = self.route_table.add_next_hop(vni, dest, nh, update.source_peer);
                if known {
                    (new, RouteChange::Nothing)
                } else {
                    assert(!old(self)@.routes.contains(update_route(update)));
                    (new, RouteChange::Install(vni, dest, nh))
                }
            },
            UpdateAction::Remove => {
                let removed = self.route_table.remove_next_hop(vni, dest, nh, update.source_peer);
                if removed.is_ok() && !self.route_table.has_next_hop(vni, dest, nh) {
                    (true, RouteChange::Uninstall(vni, dest, nh))
                } else {
                    (removed.is_ok(), RouteChange::Nothing)
                }
            },
        };
        if news {
            let audience = match update.action {
                UpdateAction::Add => Audience::Subscribers(vni, update.source_peer),
                UpdateAction::Remove => Audience::Deprived(vni, dest, nh, update.source_peer),
            };
            let to = self.recipients(audience);
            let message = PeerMessage::SendUpdate(update.action, vni, dest, nh);
            RouteOutcome { change, cast: Some(Multicast { to, message }) }
        } else {
            RouteOutcome { change, cast: None }
        }
    }

    /// Drops the routes and the subscriptions of a peer, and returns what the loss
    /// of its routes comes to.
    fn drop_routes(&mut self, addr: SocketAddr) -> (outcomes: Vec<RouteOutcome>)
        requires
            old(self).wf(),
        ensures
            final(self).wf(),
            final(self)@ == old(self)@.without_routes_of(addr),
            old(self)@.loss_matches(final(self)@, addr, outcomes@),
    {
        let ghost before = self@;
        self.forget_subscriber(addr);
        let removed = self.route_table.remove_routes_from_peer(addr);
        let ghost after = self@;
        assert(after == before.without_routes_of(addr));
        let mut outcomes: Vec<RouteOutcome> = Vec::new();
        for i in 0..removed.len()
            invariant
                self.wf(),
                self@ == after,
                after == before.without_routes_of(addr),
                before == old(self)@,
                lists_routes_from(removed@, before.routes, addr),
                messages_of(outcomes@).no_duplicates(),
                forall|vni: Vni, dest: Destination, nh: NextHop| #[trigger]
                    messages_of(outcomes@).contains(
                        PeerMessage::SendUpdate(UpdateAction::Remove, vni, dest, nh),
                    ) == removed@.take(i as int).contains((vni, dest, nh)),
                forall|j: int|
                    0 <= j < outcomes@.len() ==> before.is_loss_outcome(
                        after,
                        addr,
                        #[trigger] outcomes@[j],
                    ),
        {
            let (vni, dest, nh) = removed[i];
            proof {
                lemma_take_next(removed@, i as int);
                assert(removed@.contains(removed@[i as int]));
                lemma_goes_with(before, addr, vni, dest, nh);
            }
            let change = if self.route_table.has_next_hop(vni, dest, nh) {
                RouteChange::Nothing
            } else {
                RouteChange::Uninstall(vni, dest, nh)
            };
            let to = self.recipients(Audience::Deprived(vni, dest, nh, Some(addr)));
            let message = PeerMessage::SendUpdate(UpdateAction::Remove, vni, dest, nh);
            let outcome = RouteOutcome { change, cast: Some(Multicast { to, message }) };
            proof {
                assert(messages_of(outcomes@.push(outcome)) =~= messages_of(outcomes@).push(
                    message,
                ));
                assert(!messages_of(outcomes@).contains(message));
                lemma_push_contains(messages_of(outcomes@), message);
            }
            outcomes.push(outcome);
        }
        assert(removed@.take(removed@.len() as int) =~= removed@);
        outcomes
    }

    /// Forgets a peer, its routes and its subscriptions, and returns what the loss
    /// of its routes comes to. It is no error if there is no such peer.
    pub fn remove_peer(&mut self, addr: SocketAddr) -> (r: (
        Result<(), MetalBondError>,
        Vec<RouteOutcome>,
    ))
        requires
            old(self).wf(),
        ensures
            final(self).wf(),
            final(self)@ == old(self)@.after_command(MetalBondCommand::RemovePeer(addr)),
            r.0 == old(self)@.accepted(),
            if old(self)@.running {
                old(self)@.loss_matches(final(self)@, addr, r.1@)
            } else {
                r.1@.len() == 0
            },
    {
        if !self.running {
            return (Err(MetalBondError::Stopped), Vec::new());
        }
        let ghost before = self@;
        self.peers.remove(&addr);
        let ghost middle = self@;
        let outcomes = self.drop_routes(addr);
        proof {
            assert forall|i: int| 0 <= i < outcomes@.len() implies before.is_loss_outcome(
                self@,
                addr,
                #[trigger] outcomes@[i],
            ) by {
                assert(middle.is_loss_outcome(self@, addr, outcomes@[i]));
            }
        }
        (Ok(()), outcomes)
    }
}

/// The route that an update from a peer adds or removes; `None` where the update
/// lacks a valid action, destination or next hop.
pub open spec fn update_of(update: pb::UpdateView, addr: SocketAddr) -> Option<InternalUpdate> {
    let action = if update.action == pb::Action::Add.number() {
        Some(UpdateAction::Add)
    } else if update.action == pb::Action::Remove.number() {
        Some(UpdateAction::Remove)
    } else {
        None
    };
    match (action, update.destination, update.next_hop) {
        (Some(action), Some(dest), Some(nh)) => match (
            message_destination(dest),
            message_next_hop(nh),
        ) {
            (Ok(destination), Ok(next_hop)) => Some(
                InternalUpdate {
                    action,
                    vni: update.vni,
                    destination,
                    next_hop,
                    source_peer: Some(addr),
                },
            ),
            _ => None,
        },
        _ => None,
    }
}

/// Reads the route that an update from a peer adds or removes.
fn read_update(update: pb::Update, addr: SocketAddr) -> (r: Option<InternalUpdate>)
    ensures
        r == update_of(update@, addr),
{
    let action = match pb::Action::try_from(update.action) {
        Ok(action) => UpdateAction::from(action),
        Err(_) => {
            return None;
        },
    };
    match (update.destination, update.next_hop) {
        (Some(dest), Some(nh)) => match (Destination::try_from(dest), NextHop::try_from(nh)) {
            (Ok(destination), Ok(next_hop)) => Some(
                InternalUpdate {
                    action,
                    vni: update.vni,
                    destination,
                    next_hop,
                    source_peer: Some(addr),
                },
            ),
            _ => None,
        },
        _ => None,
    }
}

impl NodeView {
    /// Whether the node has a route to offer to a peer that subscribes: its own,
    /// or one that somebody other than that peer announced.
    pub open spec fn offers(self, addr: SocketAddr, vni: Vni, dest: Destination, nh: NextHop) -> bool {
        self.announcements.contains(own_route(vni, dest, nh)) || from_others(
            self.routes,
            vni,
            dest,
            nh,
            addr,
        )
    }

    /// The node after a message from a peer.
    pub open spec fn after_message(self, addr: SocketAddr, message: MessageView) -> NodeView {
        if !self.running || !self.peers.contains_key(addr) {
            self
        } else {
            match message {
                MessageView::Hello(hello) => NodeView {
                    peers: self.peers.insert(addr, self.peers[addr].after_receiving_hello(hello)),
                    ..self
                },
                MessageView::Keepalive => self,
                MessageView::Subscribe(sub) => NodeView {
                    subscribers: self.subscribers.insert(Interest { vni: sub.vni, addr }),
                    ..self
                },
                MessageView::Unsubscribe(sub) => NodeView {
                    subscribers: self.subscribers.remove(Interest { vni: sub.vni, addr }),
                    ..self
                },
                MessageView::Update(update) => match update_of(update, addr) {
                    Some(update) => self.after_update(update),
                    None => self,
                },
            }
        }
    }

    /// Why a message from a peer is refused, if it is.
    pub open spec fn refusal(self, addr: SocketAddr, message: MessageView) -> Option<
        MetalBondError,
    > {
        if !self.running {
            Some(MetalBondError::Stopped)
        } else if !self.peers.contains_key(addr) {
            Some(MetalBondError::PeerNotFound(addr))
        } else if message matches MessageView::Update(update) && update_of(update, addr) is None {
            Some(MetalBondError::InvalidUpdate)
        } else {
            None
        }
    }

    /// Whether `received` is what a message from a peer comes to. The first
    /// `Hello` of a peer is answered with one, and a subscription with the routes
    /// of its virtual network.
    pub open spec fn received_matches(
        self,
        addr: SocketAddr,
        message: MessageView,
        received: Received,
    ) -> bool {
        let peer = self.peers[addr];
        let after = self.after_message(addr, message).peers[addr];
        &&& received.effect == transition_effect(peer.state, after.state, peer.remote_addr)
        &&& match message {
            MessageView::Subscribe(sub) => {
                &&& received.answers@.no_duplicates()
                &&& forall|m: PeerMessage| #[trigger]
                    received.answers@.contains(m) == (m matches PeerMessage::SendUpdate(
                        action,
                        vni,
                        dest,
                        nh,
                    ) && action is Add && vni == sub.vni && self.offers(addr, vni, dest, nh))
            },
            MessageView::Hello(_) if after.state is HelloReceived && !(peer.state
                is HelloReceived) => received.answers@ == seq![PeerMessage::SendHello],
            _ => received.answers@.len() == 0,
        }
        &&& match message {
            MessageView::Update(update) => {
                received.outcome matches Some(outcome) && self.outcome_matches(
                    update_of(update, addr)->0,
                    outcome,
                )
            },
            _ => received.outcome is None,
        }
    }
}

impl MetalBond {
    /// The routes of a virtual network that the node announces, each once.
    fn own_routes(&self, vni: Vni, addr: SocketAddr) -> (own: Vec<(Destination, NextHop)>)
        requires
            self.wf(),
        ensures
            own@.no_duplicates(),
            forall|d: Destination, n: NextHop| #[trigger]
                own@.contains((d, n)) == self@.announcements.contains(own_route(vni, d, n)),
    {
        let own = self.my_announcements.routes_from_others(vni, addr);
        proof {
            assert forall|d: Destination, n: NextHop| #[trigger]
                own@.contains((d, n)) == self@.announcements.contains(own_route(vni, d, n)) by {
                let peers = peers_of(self@.announcements, vni, d, n);
                if own@.contains((d, n)) {
                    let p = choose|p: PeerKey| #[trigger] peers.contains(p) && p != Some(addr);
                    assert(p is None);
                }
                if self@.announcements.contains(own_route(vni, d, n)) {
                    assert(peers.contains(None));
                }
            }
        }
        own
    }

    /// The routes that a peer is told of when it subscribes, each once.
    fn offered_routes(&self, addr: SocketAddr, vni: Vni) -> (offers: Vec<PeerMessage>)
        requires
            self.wf(),
        ensures
            offers@.no_duplicates(),
            forall|m: PeerMessage| #[trigger]
                offers@.contains(m) == (m matches PeerMessage::SendUpdate(action, v, d, n)
                    && action is Add && v == vni && self@.offers(addr, v, d, n)),
    {
        let mut offers: Vec<PeerMessage> = Vec::new();
        let learned = self.route_table.routes_from_others(vni, addr);
        for i in 0..learned.len()
            invariant
                learned@.no_duplicates(),
                offers@.no_duplicates(),
                forall|m: PeerMessage| #[trigger]
                    offers@.contains(m) == (m matches PeerMessage::SendUpdate(action, v, d, n)
                        && action is Add && v == vni && learned@.take(i as int).contains((d, n))),
        {
            let (dest, nh) = learned[i];
            let message = PeerMessage::SendUpdate(UpdateAction::Add, vni, dest, nh);
            proof {
                lemma_take_next(learned@, i as int);
                assert(!offers@.contains(message));
                lemma_push_contains(offers@, message);
            }
            offers.push(message);
        }
        let own = self.own_routes(vni, addr);
        assert(learned@.take(learned@.len() as int) =~= learned@);
        for i in 0..own.len()
            invariant
                own@.no_duplicates(),
                offers@.no_duplicates(),
                self.wf(),
                forall|d: Destination, n: NextHop| #[trigger]
                    learned@.contains((d, n)) == from_others(self@.routes, vni, d, n, addr),
                forall|m: PeerMessage| #[trigger]
                    offers@.contains(m) == (m matches PeerMessage::SendUpdate(action, v, d, n)
                        && action is Add && v == vni && (learned@.contains((d, n)) || own@.take(
                        i as int,
                    ).contains((d, n)))),
        {
            let (dest, nh) = own[i];
            let message = PeerMessage::SendUpdate(UpdateAction::Add, vni, dest, nh);
            proof {
                lemma_take_next(own@, i as int);
            }
            if !contains_message(&offers, message) {
                proof {
                    lemma_push_contains(offers@, message);
                }
                offers.push(message);
            }
        }
        assert(own@.take(own@.len() as int) =~= own@);
        offers
    }
}

impl NodeView {
    /// Whether an established peer is sent a message first: a subscription to each
    /// virtual network that the node subscribes to, and, if the peer is a server,
    /// every route that the node announces.
    pub open spec fn greets(self, addr: SocketAddr, message: PeerMessage) -> bool {
        match message {
            PeerMessage::SendSubscribe(vni) => self.current_subscriptions().contains(vni),
            PeerMessage::SendUpdate(UpdateAction::Add, vni, dest, nh) => {
                &&& self.running
                &&& self.peers.contains_key(addr)
                &&& self.peers[addr].is_remote_server
                &&& self.announcements.contains(own_route(vni, dest, nh))
            },
            _ => false,
        }
    }
}

impl MetalBond {
    /// What a peer is sent first when the connection to it becomes established,
    /// each message once.
    pub fn greetings(&self, addr: SocketAddr) -> (messages: Vec<PeerMessage>)
        requires
            self.wf(),
        ensures
            messages@.no_duplicates(),
            forall|m: PeerMessage| #[trigger] messages@.contains(m) == self@.greets(addr, m),
    {
        let subscribed = self.get_subscribed_vnis();
        let mut messages = subscription_requests(&subscribed);
        proof {
            assert forall|m: PeerMessage| #[trigger]
                messages@.contains(m) == (m matches PeerMessage::SendSubscribe(vni)
                    && self@.current_subscriptions().contains(vni)) by {
                if messages@.contains(m) {
                    let i = choose|i: int| 0 <= i < messages@.len() && messages@[i] == m;
                    assert(subscribed@.to_set().contains(subscribed@[i]));
                }
                if let PeerMessage::SendSubscribe(vni) = m {
                    if self@.current_subscriptions().contains(vni) {
                        assert(subscribed@.to_set().contains(vni));
                        let i = choose|i: int| 0 <= i < subscribed@.len() && subscribed@[i] == vni;
                        assert(messages@[i] == m);
                    }
                }
            }
            assert(messages@.no_duplicates()) by {
                assert forall|i: int, j: int|
                    0 <= i < messages@.len() && 0 <= j < messages@.len() && i != j implies messages@[i]
                    != messages@[j] by {
                    assert(subscribed@[i] != subscribed@[j]);
                }
            }
        }
        let to_server = self.running && match self.peers.get(&addr) {
            Some(peer) => peer.is_remote_server,
            None => false,
        };
        if !to_server {
            return messages;
        }
        let vnis = self.my_announcements.get_vnis();
        for i in 0..vnis.len()
            invariant
                self.wf(),
                self@.running,
                vnis@.no_duplicates(),
                messages@.no_duplicates(),
                forall|m: PeerMessage| #[trigger]
                    messages@.contains(m) == (match m {
                        PeerMessage::SendSubscribe(vni) => {
                            self@.current_subscriptions().contains(vni)
                        },
                        PeerMessage::SendUpdate(UpdateAction::Add, vni, dest, nh) => vnis@.take(
                            i as int,
                        ).contains(vni) && self@.announcements.contains(own_route(vni, dest, nh)),
                        _ => false,
                    }),
        {
            let vni: Vni = vnis[i];
            let own = self.own_routes(vni, addr);
            proof {
                lemma_take_next(vnis@, i as int);
            }
            for j in 0..own.len()
                invariant
                    self.wf(),
                    0 <= i < vnis@.len(),
                    vni == vnis@[i as int],
                    !vnis@.take(i as int).contains(vni),
                    own@.no_duplicates(),
                    forall|d: Destination, n: NextHop| #[trigger]
                        own@.contains((d, n)) == self@.announcements.contains(own_route(vni, d, n)),
                    messages@.no_duplicates(),
                    forall|m: PeerMessage| #[trigger]
                        messages@.contains(m) == (match m {
                            PeerMessage::SendSubscribe(v) => {
                                self@.current_subscriptions().contains(v)
                            },
                            PeerMessage::SendUpdate(UpdateAction::Add, v, dest, nh) => if v == vni {
                                own@.take(j as int).contains((dest, nh))
                            } else {
                                vnis@.take(i as int).contains(v) && self@.announcements.contains(
                                    own_route(v, dest, nh),
                                )
                            },
                            _ => false,
                        }),
            {
                let (dest, nh) = own[j];
                let message = PeerMessage::SendUpdate(UpdateAction::Add, vni, dest, nh);
                proof {
                    lemma_take_next(own@, j as int);
                    assert(!messages@.contains(message));
                    lemma_push_contains(messages@, message);
                }
                messages.push(message);
            }
            assert(own@.take(own@.len() as int) =~= own@);
        }
        proof {
            assert(vnis@.take(vnis@.len() as int) =~= vnis@);
            assert forall|m: PeerMessage| #[trigger] messages@.contains(m) == self@.greets(
                addr,
                m,
            ) by {
                if let PeerMessage::SendUpdate(UpdateAction::Add, vni, dest, nh) = m {
                    if self@.announcements.contains(own_route(vni, dest, nh)) {
                        assert(vnis_of(self@.announcements).contains(vni));
                        assert(vnis@.to_set().contains(vni));
                    }
                }
            }
        }
        messages
    }
}

impl NodeView {
    /// The node after the connection to a peer is lost. Its routes and
    /// subscriptions go. The side that opened the connection keeps the peer, to try
    /// again; the other side forgets it.
    pub open spec fn after_loss(self, addr: SocketAddr) -> NodeView {
        if !self.running || !self.peers.contains_key(addr) {
            self
        } else if self.peers[addr].direction is Incoming {
            self.without_peer(addr)
        } else {
            NodeView {
                peers: self.peers.insert(addr, self.peers[addr].in_state(ConnectionState::Retry)),
                ..self.without_routes_of(addr)
            }
        }
    }

    /// Whether a lost connection is to be opened again.
    pub open spec fn retries(self, addr: SocketAddr) -> bool {
        &&& self.running
        &&& self.peers.contains_key(addr)
        &&& self.peers[addr].direction is Outgoing
        &&& self.peers[addr].state is Retry
    }
}

impl MetalBond {
    /// Takes note that the connection to a peer is lost, and returns what the loss
    /// of its routes comes to.
    pub fn connection_lost(&mut self, addr: SocketAddr) -> (outcomes: Vec<RouteOutcome>)
        requires
            old(self).wf(),
        ensures
            final(self).wf(),
            final(self)@ == old(self)@.after_loss(addr),
            if old(self)@.running && old(self)@.peers.contains_key(addr) {
                old(self)@.loss_matches(final(self)@, addr, outcomes@)
            } else {
                outcomes@.len() == 0
            },
    {
        if !self.running {
            return Vec::new();
        }
        let mut peer: Peer = match self.peers.get(&addr) {
            Some(peer) => *peer,
            None => {
                return Vec::new();
            },
        };
        match peer.direction {
            ConnectionDirection::Incoming => self.remove_peer(addr).1,
            ConnectionDirection::Outgoing => {
                let ghost before = self@;
                peer.set_state(ConnectionState::Retry);
                self.peers.insert(addr, peer);
                let ghost middle = self@;
                let outcomes = self.drop_routes(addr);
                proof {
                    assert forall|i: int| 0 <= i < outcomes@.len() implies before.is_loss_outcome(
                        self@,
                        addr,
                        #[trigger] outcomes@[i],
                    ) by {
                        assert(middle.is_loss_outcome(self@, addr, outcomes@[i]));
                    }
                }
                outcomes
            },
        }
    }

    /// How long to wait before a lost connection is opened again, when that was
    /// tried `attempt` times in vain; `None` where it is not to be opened again.
    pub fn next_retry(&self, addr: SocketAddr, attempt: u32) -> (delay: Option<Duration>)
        requires
            self.wf(),
        ensures
            delay is Some == self@.retries(addr),
            delay matches Some(d) ==> self@.config.is_retry_delay(attempt, d),
    {
        if !self.running {
            return None;
        }
        match self.peers.get(&addr) {
            Some(peer) => if peer.direction == ConnectionDirection::Outgoing && peer.state
                == ConnectionState::Retry {
                Some(retry_delay(self.config, attempt))
            } else {
                None
            },
            None => None,
        }
    }

    /// What is sent to a peer when it is time for a keepalive: one, if the
    /// connection is established.
    pub fn keepalive(&self, addr: SocketAddr) -> (message: Option<PeerMessage>)
        requires
            self.wf(),
        ensures
            message == if self@.running && self@.reaches(Audience::Established, addr) {
                Some(PeerMessage::SendKeepalive)
            } else {
                None
            },
    {
        match self.get_peer_state(addr) {
            Ok(ConnectionState::Established) => Some(PeerMessage::SendKeepalive),
            _ => None,
        }
    }
}

/// Whether a message is among others.
fn contains_message(messages: &Vec<PeerMessage>, message: PeerMessage) -> (r: bool)
    ensures
        r == messages@.contains(message),
{
    for i in 0..messages.len()
        invariant
            forall|j: int| 0 <= j < i ==> messages@[j] != message,
    {
        if messages[i] == message {
            return true;
        }
    }
    false
}

impl MetalBond {
    /// Takes a message from a peer.
    pub fn receive(&mut self, addr: SocketAddr, message: GeneratedMessage) -> (r: Result<
        Received,
        MetalBondError,
    >)
        requires
            old(self).wf(),
        ensures
            final(self).wf(),
            final(self)@ == old(self)@.after_message(addr, message@),
            match old(self)@.refusal(addr, message@) {
                Some(error) => r == Err::<Received, MetalBondError>(error),
                None => r matches Ok(received) && old(self)@.received_matches(
                    addr,
                    message@,
                    received,
                ),
            },
    {
        if !self.running {
            return Err(MetalBondError::Stopped);
        }
        let mut peer: Peer = match self.peers.get(&addr) {
            Some(peer) => *peer,
            None => {
                return Err(MetalBondError::PeerNotFound(addr));
            },
        };
        let mut received = Received {
            effect: PeerEffect::Nothing,
            answers: Vec::new(),
            outcome: None,
        };
        match message {
            GeneratedMessage::Hello(hello) => {
                let old_state = peer.get_state();
                received.effect = peer.receive_hello(hello);
                if peer.state == ConnectionState::HelloReceived && old_state
                    != ConnectionState::HelloReceived {
                    received.answers.push(PeerMessage::SendHello);
                }
                self.peers.insert(addr, peer);
            },
            GeneratedMessage::Keepalive => {},
            GeneratedMessage::Subscribe(sub) => {
                received.answers = self.offered_routes(addr, sub.vni);
                self.subscribers.insert(Interest { vni: sub.vni, addr });
            },
            GeneratedMessage::Unsubscribe(sub) => {
                self.subscribers.remove(&Interest { vni: sub.vni, addr });
            },
            GeneratedMessage::Update(update) => match read_update(update, addr) {
                Some(update) => {
                    received.outcome = Some(self.handle_route_update(update));
                },
                None => {
                    return Err(MetalBondError::InvalidUpdate);
                },
            },
        }
        Ok(received)
    }
}

impl NodeView {
    /// The answer to a request that only a stopped node refuses.
    pub open spec fn accepted(self) -> Result<(), MetalBondError> {
        if self.running {
            Ok(())
        } else {
            Err(MetalBondError::Stopped)
        }
    }

    /// The virtual networks that the node subscribes to: none when it has been
    /// stopped.
    pub open spec fn current_subscriptions(self) -> Set<Vni> {
        if self.running {
            self.subscriptions
        } else {
            Set::empty()
        }
    }

    /// The state of the connection to a peer, or why there is none.
    pub open spec fn state_of(self, addr: SocketAddr) -> Result<ConnectionState, MetalBondError> {
        if !self.running {
            Err(MetalBondError::Stopped)
        } else if self.peers.contains_key(addr) {
            Ok(self.peers[addr].state)
        } else {
            Err(MetalBondError::PeerNotFound(addr))
        }
    }

    /// Why a connection cannot be opened again.
    pub open spec fn retry_error(self, addr: SocketAddr) -> MetalBondError {
        if !self.running {
            MetalBondError::Stopped
        } else if !self.peers.contains_key(addr) {
            MetalBondError::PeerNotFound(addr)
        } else {
            MetalBondError::CannotRetryIncoming
        }
    }

    /// Whether `cast` is what peers are told of a command.
    pub open spec fn casts(self, command: MetalBondCommand, cast: Option<Multicast>) -> bool {
        match self.cast_for(command) {
            Some((audience, message)) => {
                cast matches Some(cast) && self.after_command(command).is_cast(
                    cast,
                    audience,
                    message,
                )
            },
            None => cast is None,
        }
    }

    /// The node after a command. A stopped node stays as it is.
    pub open spec fn after_command(self, command: MetalBondCommand) -> NodeView {
        if self.running {
            self.after_running(command)
        } else {
            self
        }
    }

    /// The node after a command, while it runs.
    pub open spec fn after_running(self, command: MetalBondCommand) -> NodeView {
        match command {
            MetalBondCommand::Subscribe(vni) => NodeView {
                subscriptions: self.subscriptions.insert(vni),
                ..self
            },
            MetalBondCommand::Unsubscribe(vni) => NodeView {
                subscriptions: self.subscriptions.remove(vni),
                ..self
            },
            MetalBondCommand::AnnounceRoute(vni, dest, nh) => NodeView {
                announcements: self.announcements.insert(own_route(vni, dest, nh)),
                ..self
            },
            MetalBondCommand::WithdrawRoute(vni, dest, nh) => NodeView {
                announcements: self.announcements.remove(own_route(vni, dest, nh)),
                ..self
            },
            MetalBondCommand::AddPeer(addr) => if self.is_server && !self.peers.contains_key(addr) {
                NodeView {
                    peers: self.peers.insert(
                        addr,
                        Peer::opening(self.config, addr, ConnectionDirection::Incoming),
                    ),
                    ..self
                }
            } else {
                self
            },
            MetalBondCommand::RemovePeer(addr) => self.without_peer(addr),
            MetalBondCommand::RouteUpdate(update) => self.after_update(update),
            MetalBondCommand::Shutdown => NodeView { running: false, ..self },
            _ => self,
        }
    }

    /// The message to peers that a command asks for, and to whom it goes.
    pub open spec fn cast_for(self, command: MetalBondCommand) -> Option<(Audience, PeerMessage)> {
        match command {
            _ if !self.running => None,
            MetalBondCommand::Subscribe(vni) if !self.subscriptions.contains(vni) => Some(
                (Audience::Established, PeerMessage::SendSubscribe(vni)),
            ),
            MetalBondCommand::Unsubscribe(vni) if self.subscriptions.contains(vni) => Some(
                (Audience::Established, PeerMessage::SendUnsubscribe(vni)),
            ),
            MetalBondCommand::AnnounceRoute(vni, dest, nh) if !self.announcements.contains(
                own_route(vni, dest, nh),
            ) => Some(
                (
                    Audience::SubscribersAndServers(vni),
                    PeerMessage::SendUpdate(UpdateAction::Add, vni, dest, nh),
                ),
            ),
            MetalBondCommand::WithdrawRoute(vni, dest, nh) if self.announcements.contains(
                own_route(vni, dest, nh),
            ) => Some(
                (
                    Audience::DeprivedAndServers(vni, dest, nh),
                    PeerMessage::SendUpdate(UpdateAction::Remove, vni, dest, nh),
                ),
            ),
            _ => None,
        }
    }

    /// The address that a command asks to connect to.
    pub open spec fn connect_for(self, command: MetalBondCommand) -> Option<SocketAddr> {
        match command {
            _ if !self.running => None,
            MetalBondCommand::AddPeer(addr) if !self.peers.contains_key(addr) && !self.is_server =>
                Some(addr),
            MetalBondCommand::RetryConnection(addr) if self.peers.contains_key(addr)
                && !self.is_server => Some(addr),
            _ => None,
        }
    }

    /// Whether `reply` is the answer to a command. A stopped node refuses what can
    /// be refused, and knows of nothing.
    pub open spec fn answers(self, command: MetalBondCommand, reply: MetalBondReply) -> bool {
        match command {
            MetalBondCommand::GetSubscribedVnis => {
                reply matches MetalBondReply::SubscribedVnis(vnis) && vnis@.no_duplicates()
                    && vnis@.to_set() == self.current_subscriptions()
            },
            MetalBondCommand::IsRouteAnnounced(vni, dest, nh) => reply == MetalBondReply::Announced(
                self.running && self.announcements.contains(own_route(vni, dest, nh)),
            ),
            MetalBondCommand::GetPeerState(addr) => reply == MetalBondReply::PeerState(
                self.state_of(addr),
            ),
            MetalBondCommand::AddPeer(_) => if self.connect_for(command) is Some {
                reply is Pending
            } else {
                reply == MetalBondReply::Done(self.accepted())
            },
            MetalBondCommand::RetryConnection(addr) => if self.connect_for(command) is Some {
                reply is Pending
            } else {
                reply == MetalBondReply::Done(Err(self.retry_error(addr)))
            },
            MetalBondCommand::RouteUpdate(_) => reply is Silent,
            MetalBondCommand::Shutdown => reply is Silent,
            _ => reply == MetalBondReply::Done(self.accepted()),
        }
    }

    /// Whether `step` is what a command comes to.
    pub open spec fn step_matches(self, command: MetalBondCommand, step: MetalBondStep) -> bool {
        &&& self.answers(command, step.reply)
        &&& self.casts(command, step.cast)
        &&& match command {
            MetalBondCommand::RemovePeer(addr) if self.running => self.loss_matches(
                self.without_peer(addr),
                addr,
                step.outcomes@,
            ),
            MetalBondCommand::RouteUpdate(update) if self.running => step.outcomes@.len() == 1
                && self.outcome_matches(update, step.outcomes@[0]),
            _ => step.outcomes@.len() == 0,
        }
        &&& step.connect == self.connect_for(command)
        &&& step.running == self.after_command(command).running
    }
}

impl MetalBond {
    /// Carries out a command.
    pub fn handle(&mut self, command: MetalBondCommand) -> (step: MetalBondStep)
        requires
            old(self).wf(),
        ensures
            final(self).wf(),
            final(self)@ == old(self)@.after_command(command),
            old(self)@.step_matches(command, step),
    {
        let mut step = MetalBondStep {
            reply: MetalBondReply::Silent,
            cast: None,
            outcomes: Vec::new(),
            connect: None,
            running: self.running,
        };
        match command {
            MetalBondCommand::Subscribe(vni) => {
                let (result, cast) = self.subscribe(vni);
                step.reply = MetalBondReply::Done(result);
                step.cast = cast;
            },
            MetalBondCommand::Unsubscribe(vni) => {
                let (result, cast) = self.unsubscribe(vni);
                step.reply = MetalBondReply::Done(result);
                step.cast = cast;
            },
            MetalBondCommand::AnnounceRoute(vni, dest, nh) => {
                let (result, cast) = self.announce_route(vni, dest, nh);
                step.reply = MetalBondReply::Done(result);
                step.cast = cast;
            },
            MetalBondCommand::WithdrawRoute(vni, dest, nh) => {
                let (result, cast) = self.withdraw_route(vni, dest, nh);
                step.reply = MetalBondReply::Done(result);
                step.cast = cast;
            },
            MetalBondCommand::GetSubscribedVnis => {
                step.reply = MetalBondReply::SubscribedVnis(self.get_subscribed_vnis());
            },
            MetalBondCommand::IsRouteAnnounced(vni, dest, nh) => {
                step.reply = MetalBondReply::Announced(self.is_route_announced(vni, dest, nh));
            },
            MetalBondCommand::GetPeerState(addr) => {
                step.reply = MetalBondReply::PeerState(self.get_peer_state(addr));
            },
            MetalBondCommand::AddPeer(addr) => {
                match self.add_peer(addr) {
                    PeerProgress::Done(result) => {
                        step.reply = MetalBondReply::Done(result);
                    },
                    PeerProgress::Connect(addr) => {
                        step.reply = MetalBondReply::Pending;
                        step.connect = Some(addr);
                    },
                }
            },
            MetalBondCommand::RemovePeer(addr) => {
                let (result, outcomes) = self.remove_peer(addr);
                step.reply = MetalBondReply::Done(result);
                step.outcomes = outcomes;
            },
            MetalBondCommand::RetryConnection(addr) => {
                match self.retry_connection(addr) {
                    PeerProgress::Done(result) => {
                        step.reply = MetalBondReply::Done(result);
                    },
                    PeerProgress::Connect(addr) => {
                        step.reply = MetalBondReply::Pending;
                        step.connect = Some(addr);
                    },
                }
            },
            MetalBondCommand::RouteUpdate(update) => {
                if self.running {
                    step.outcomes.push(self.handle_route_update(update));
                }
            },
            MetalBondCommand::Shutdown => {
                self.shutdown();
                step.running = false;
            },
        }
        step
    }
}

/// What happens while a server takes a connection.
#[derive(Debug, Clone, Copy, PartialEq, Eq, Structural)]
pub enum AcceptEvent {
    /// Somebody connected.
    Accepted(SocketAddr),
    /// Nobody did: the listener failed.
    AcceptFailed,
    /// The node was asked to add the peer, and did or did not.
    PeerAdded(SocketAddr, bool),
    /// The node was asked for the peer's state, and has or has not got one.
    PeerKnown(SocketAddr, bool),
}

/// What a server does next with a connection.
#[derive(Debug, Clone, Copy, PartialEq, Eq, Structural)]
pub enum AcceptAction {
    /// Ask the node.
    Ask(MetalBondCommand),
    /// Serve the connection.
    Serve(SocketAddr),
    /// Leave it, and wait for the next one.
    Leave,
}

/// How a server takes a connection: the node adds the peer, and once it knows
/// the peer's state the connection is served. If anything fails, the server waits
/// for the next connection.
pub fn accept_step(event: AcceptEvent) -> (action: AcceptAction)
    ensures
        action == match event {
            AcceptEvent::Accepted(addr) => AcceptAction::Ask(MetalBondCommand::AddPeer(addr)),
            AcceptEvent::PeerAdded(addr, true) => AcceptAction::Ask(
                MetalBondCommand::GetPeerState(addr),
            ),
            AcceptEvent::PeerKnown(addr, true) => AcceptAction::Serve(addr),
            _ => AcceptAction::Leave,
        },
{
    match event {
        AcceptEvent::Accepted(addr) => AcceptAction::Ask(MetalBondCommand::AddPeer(addr)),
        AcceptEvent::PeerAdded(addr, true) => AcceptAction::Ask(
            MetalBondCommand::GetPeerState(addr),
        ),
        AcceptEvent::PeerKnown(addr, true) => AcceptAction::Serve(addr),
        _ => AcceptAction::Leave,
    }
}

/// What is told of routes that are lost.
pub open spec fn messages_of(outcomes: Seq<RouteOutcome>) -> Seq<PeerMessage> {
    outcomes.map_values(|o: RouteOutcome| o.cast->0.message)
}

/// A route goes with a peer just if nobody announces it when the peer is gone.
proof fn lemma_goes_with(node: NodeView, addr: SocketAddr, vni: Vni, dest: Destination, nh: NextHop)
    requires
        peers_of(node.routes, vni, dest, nh).contains(Some(addr)),
    ensures
        node.goes_with(addr, vni, dest, nh) == !hops_of(
            node.without_routes_of(addr).routes,
            vni,
            dest,
        ).contains(nh),
{
    let after = node.without_routes_of(addr).routes;
    if from_others(node.routes, vni, dest, nh, addr) {
        let p = choose|p: PeerKey| #[trigger]
            peers_of(node.routes, vni, dest, nh).contains(p) && p != Some(addr);
        let route = Route { vni, destination: dest, next_hop: nh, peer: p };
        assert(after.contains(route));
    }
    if hops_of(after, vni, dest).contains(nh) {
        let route = choose|r: Route|
            after.contains(r) && r.vni == vni && r.destination == dest && r.next_hop == nh;
        assert(peers_of(node.routes, vni, dest, nh).contains(route.peer));
    }
}

/// A route is announced from when it was announced until it is withdrawn, and
/// withdrawing it leaves what was announced before.
pub proof fn lemma_announce_withdraw(node: NodeView, vni: Vni, dest: Destination, nh: NextHop)
    ensures
        ({
            let announced = node.after_command(MetalBondCommand::AnnounceRoute(vni, dest, nh));
            let withdrawn = announced.after_command(MetalBondCommand::WithdrawRoute(vni, dest, nh));
            &&& node.running ==> announced.announcements.contains(own_route(vni, dest, nh))
            &&& node.running ==> !withdrawn.announcements.contains(own_route(vni, dest, nh))
            &&& !node.announcements.contains(own_route(vni, dest, nh)) ==> withdrawn == node
        }),
{
    let announced = node.after_command(MetalBondCommand::AnnounceRoute(vni, dest, nh));
    let withdrawn = announced.after_command(MetalBondCommand::WithdrawRoute(vni, dest, nh));
    if !node.announcements.contains(own_route(vni, dest, nh)) {
        assert(withdrawn.announcements =~= node.announcements);
    }
}

/// The node subscribes to a virtual network from when it subscribed until it
/// unsubscribes, and unsubscribing leaves the subscriptions of before.
pub proof fn lemma_subscribe_unsubscribe(node: NodeView, vni: Vni)
    ensures
        ({
            let subscribed = node.after_command(MetalBondCommand::Subscribe(vni));
            let unsubscribed = subscribed.after_command(MetalBondCommand::Unsubscribe(vni));
            &&& node.running ==> subscribed.subscriptions.contains(vni)
            &&& node.running ==> !unsubscribed.subscriptions.contains(vni)
            &&& !node.subscriptions.contains(vni) ==> unsubscribed == node
        }),
{
    let subscribed = node.after_command(MetalBondCommand::Subscribe(vni));
    let unsubscribed = subscribed.after_command(MetalBondCommand::Unsubscribe(vni));
    if !node.subscriptions.contains(vni) {
        assert(unsubscribed.subscriptions =~= node.subscriptions);
    }
}

/// When a peer is gone, none of its routes and subscriptions are left, and the
/// routes of all others are.
pub proof fn lemma_peer_cleanup(node: NodeView, addr: SocketAddr, route: Route, interest: Interest)
    requires
        node.running,
    ensures
        ({
            let after = node.after_command(MetalBondCommand::RemovePeer(addr));
            &&& !after.peers.contains_key(addr)
            &&& route.peer == Some(addr) ==> !after.routes.contains(route)
            &&& route.peer != Some(addr) ==> after.routes.contains(route) == node.routes.contains(
                route,
            )
            &&& interest.addr == addr ==> !after.subscribers.contains(interest)
            &&& interest.addr != addr ==> after.subscribers.contains(interest)
                == node.subscribers.contains(interest)
        }),
{
}

/// A peer is told of another's route only if it subscribes to the route's
/// virtual network, and never of a route that it announced itself.
pub proof fn lemma_no_echo(
    node: NodeView,
    update: InternalUpdate,
    outcome: RouteOutcome,
    addr: SocketAddr,
)
    requires
        node.outcome_matches(update, outcome),
        outcome.cast matches Some(cast) && cast.to@.contains(addr),
    ensures
        update.source_peer != Some(addr),
        node.subscribers.contains(Interest { vni: update.vni, addr }),
{
}

/// What the node announces reaches every established peer that subscribes to its
/// virtual network, and besides these only servers.
pub proof fn lemma_announcement_reach(
    node: NodeView,
    vni: Vni,
    cast: Multicast,
    message: PeerMessage,
    addr: SocketAddr,
)
    requires
        node.is_cast(cast, Audience::SubscribersAndServers(vni), message),
    ensures
        node.reaches(Audience::Subscribers(vni, None), addr) ==> cast.to@.contains(addr),
        cast.to@.contains(addr) ==> node.peers.contains_key(addr) && (node.subscribers.contains(
            Interest { vni, addr },
        ) || node.peers[addr].is_remote_server),
{
}

/// A route that one node announces to another arrives as that route, from that
/// node; so does its withdrawal.
pub proof fn lemma_update_arrives(
    action: UpdateAction,
    vni: Vni,
    dest: Destination,
    nh: NextHop,
    from: SocketAddr,
)
    requires
        dest.prefix.wf(),
    ensures
        update_message(action, vni, dest, nh) matches MessageView::Update(update) && update_of(
            update,
            from,
        ) == Some(
            InternalUpdate {
                action,
                vni,
                destination: dest,
                next_hop: nh,
                source_peer: Some(from),
            },
        ),
{
    lemma_destination_exchange(dest);
    lemma_next_hop_exchange(nh);
}

/// A server passes a route on: when a peer announces a route that it had not
/// announced before, every other established peer that subscribes to its virtual
/// network is told, and the route is in the table; when the last peer that
/// announced it withdraws it, and the node does not announce it itself, they are
/// told as well, and it is gone.
pub proof fn lemma_route_propagates(
    node: NodeView,
    from: SocketAddr,
    to: SocketAddr,
    action: UpdateAction,
    vni: Vni,
    dest: Destination,
    nh: NextHop,
    received: Received,
)
    requires
        dest.prefix.wf(),
        node.running,
        node.peers.contains_key(from),
        from != to,
        node.reaches(Audience::Subscribers(vni, None), to),
        ({
            let route = Route { vni, destination: dest, next_hop: nh, peer: Some(from) };
            match action {
                UpdateAction::Add => !node.routes.contains(route),
                UpdateAction::Remove => node.goes_with(from, vni, dest, nh)
                    && !node.announcements.contains(own_route(vni, dest, nh)),
            }
        }),
        node.received_matches(from, update_message(action, vni, dest, nh), received),
    ensures
        received.outcome matches Some(outcome) && outcome.cast matches Some(cast) && cast.message
            == PeerMessage::SendUpdate(action, vni, dest, nh) && cast.to@.contains(to),
        hops_of(
            node.after_message(from, update_message(action, vni, dest, nh)).routes,
            vni,
            dest,
        ).contains(nh) == (action is Add),
{
    lemma_update_arrives(action, vni, dest, nh, from);
    let update = InternalUpdate {
        action,
        vni,
        destination: dest,
        next_hop: nh,
        source_peer: Some(from),
    };
    let after = node.after_update(update);
    match action {
        UpdateAction::Add => {
            assert(after.routes.contains(update_route(update)));
        },
        UpdateAction::Remove => {
            assert forall|r: Route|
                after.routes.contains(r) && r.vni == vni && r.destination == dest implies r.next_hop
                != nh by {
                if r.next_hop == nh {
                    assert(peers_of(node.routes, vni, dest, nh).contains(r.peer));
                }
            }
        },
    }
    assert(node.is_news(update));
    if action is Remove {
        lemma_not_offered(after, to, vni, dest, nh);
    }
    assert(after.reaches(NodeView::update_audience(update), to));
    let cast = received.outcome->0.cast->0;
    assert(cast.to@.contains(to));
}

/// A server hears of every route that the node announces: of those that were
/// announced before the connection became established, when it does, and of those
/// that are announced later, then.
pub proof fn lemma_server_hears_all(
    node: NodeView,
    addr: SocketAddr,
    vni: Vni,
    dest: Destination,
    nh: NextHop,
    cast: Option<Multicast>,
)
    requires
        node.running,
        node.peers.contains_key(addr),
        node.peers[addr].is_remote_server,
        node.peers[addr].state is Established,
        node.casts(MetalBondCommand::AnnounceRoute(vni, dest, nh), cast),
    ensures
        ({
            let message = PeerMessage::SendUpdate(UpdateAction::Add, vni, dest, nh);
            &&& node.announcements.contains(own_route(vni, dest, nh)) ==> node.greets(addr, message)
            &&& !node.announcements.contains(own_route(vni, dest, nh)) ==> (cast matches Some(
                c,
            ) && c.message == message && c.to@.contains(addr))
        }),
{
    if !node.announcements.contains(own_route(vni, dest, nh)) {
        assert(node.reaches(Audience::SubscribersAndServers(vni), addr));
        assert(cast->0.to@.contains(addr));
    }
}

/// Whether what a peer was told of a route keeps it in step with what the node has
/// to offer to it: it is told of the route when there is one and there was none, and
/// of its end when there is none and there was one.
pub open spec fn in_step(
    before: NodeView,
    after: NodeView,
    addr: SocketAddr,
    vni: Vni,
    dest: Destination,
    nh: NextHop,
    told: Option<UpdateAction>,
) -> bool {
    after.offers(addr, vni, dest, nh) == match told {
        Some(UpdateAction::Add) => true,
        Some(UpdateAction::Remove) => false,
        None => before.offers(addr, vni, dest, nh),
    }
}

/// What a cast tells a peer.
pub open spec fn told_by(cast: Option<Multicast>, addr: SocketAddr) -> Option<UpdateAction> {
    match cast {
        Some(cast) => match cast.message {
            PeerMessage::SendUpdate(action, _, _, _) if cast.to@.contains(addr) => Some(action),
            _ => None,
        },
        None => None,
    }
}

/// A subscriber is kept in step with what the node has to offer, whatever update
/// comes from a peer: in particular it is told that a route is gone just when
/// neither the node nor anybody else announces it any more.
pub proof fn lemma_update_in_step(
    node: NodeView,
    update: InternalUpdate,
    outcome: RouteOutcome,
    addr: SocketAddr,
)
    requires
        node.outcome_matches(update, outcome),
        node.reaches(Audience::Subscribers(update.vni, None), addr),
    ensures
        in_step(
            node,
            node.after_update(update),
            addr,
            update.vni,
            update.destination,
            update.next_hop,
            told_by(outcome.cast, addr),
        ),
{
    let (vni, dest, nh) = (update.vni, update.destination, update.next_hop);
    let after = node.after_update(update);
    let route = update_route(update);
    let old_peers = peers_of(node.routes, vni, dest, nh);
    let new_peers = peers_of(after.routes, vni, dest, nh);
    assert forall|p: PeerKey| p != update.source_peer implies old_peers.contains(p)
        == new_peers.contains(p) by {}
    assert(after.routes.contains(route) == (update.action is Add));
    assert(new_peers.contains(update.source_peer) == (update.action is Add));
    assert(old_peers.contains(update.source_peer) == node.routes.contains(route));
    lemma_same_offer(node, after, addr, vni, dest, nh, update.source_peer);
    if let Some(cast) = outcome.cast {
        assert(cast.to@.contains(addr) == after.reaches(NodeView::update_audience(update), addr));
        if update.source_peer != Some(addr) && update.action is Add {
            assert(new_peers.contains(update.source_peer));
            assert(from_others(after.routes, vni, dest, nh, addr));
        }
    } else {
        assert(after.routes =~= node.routes);
    }
}

/// If the announcers of a route change by one at most, what is offered to a peer
/// changes only if that one is another.
proof fn lemma_same_offer(
    before: NodeView,
    after: NodeView,
    addr: SocketAddr,
    vni: Vni,
    dest: Destination,
    nh: NextHop,
    changed: PeerKey,
)
    requires
        before.announcements == after.announcements,
        forall|p: PeerKey|
            p != changed ==> #[trigger] peers_of(before.routes, vni, dest, nh).contains(p)
                == peers_of(after.routes, vni, dest, nh).contains(p),
    ensures
        changed == Some(addr) ==> before.offers(addr, vni, dest, nh) == after.offers(
            addr,
            vni,
            dest,
            nh,
        ),
{
    if changed == Some(addr) {
        let old_peers = peers_of(before.routes, vni, dest, nh);
        let new_peers = peers_of(after.routes, vni, dest, nh);
        if from_others(before.routes, vni, dest, nh, addr) {
            let p = choose|p: PeerKey| #[trigger] old_peers.contains(p) && p != Some(addr);
            assert(new_peers.contains(p));
        }
        if from_others(after.routes, vni, dest, nh, addr) {
            let p = choose|p: PeerKey| #[trigger] new_peers.contains(p) && p != Some(addr);
            assert(old_peers.contains(p));
        }
    }
}

/// A subscriber is kept in step with what the node has to offer when the node
/// announces a route.
pub proof fn lemma_announce_in_step(
    node: NodeView,
    vni: Vni,
    dest: Destination,
    nh: NextHop,
    cast: Option<Multicast>,
    addr: SocketAddr,
)
    requires
        node.casts(MetalBondCommand::AnnounceRoute(vni, dest, nh), cast),
        node.reaches(Audience::Subscribers(vni, None), addr),
    ensures
        in_step(
            node,
            node.after_command(MetalBondCommand::AnnounceRoute(vni, dest, nh)),
            addr,
            vni,
            dest,
            nh,
            told_by(cast, addr),
        ),
{
    let after = node.after_command(MetalBondCommand::AnnounceRoute(vni, dest, nh));
    if let Some(cast) = cast {
        assert(cast.to@.contains(addr) == after.reaches(
            Audience::SubscribersAndServers(vni),
            addr,
        ));
    } else {
        assert(after.announcements =~= node.announcements);
    }
}

/// A subscriber is kept in step with what the node has to offer when the node
/// withdraws a route.
pub proof fn lemma_withdraw_in_step(
    node: NodeView,
    vni: Vni,
    dest: Destination,
    nh: NextHop,
    cast: Option<Multicast>,
    addr: SocketAddr,
)
    requires
        node.casts(MetalBondCommand::WithdrawRoute(vni, dest, nh), cast),
        node.reaches(Audience::Subscribers(vni, None), addr),
    ensures
        in_step(
            node,
            node.after_command(MetalBondCommand::WithdrawRoute(vni, dest, nh)),
            addr,
            vni,
            dest,
            nh,
            told_by(cast, addr),
        ),
{
    let after = node.after_command(MetalBondCommand::WithdrawRoute(vni, dest, nh));
    if let Some(cast) = cast {
        assert(cast.to@.contains(addr) == after.reaches(
            Audience::DeprivedAndServers(vni, dest, nh),
            addr,
        ));
    } else {
        assert(after.announcements =~= node.announcements);
    }
}

/// A subscriber is kept in step with what the node has to offer when another peer is
/// lost: for every route of the lost peer, by the message of its own.
pub proof fn lemma_loss_in_step(
    node: NodeView,
    lost: SocketAddr,
    outcomes: Seq<RouteOutcome>,
    i: int,
    addr: SocketAddr,
)
    requires
        node.loss_matches(node.without_peer(lost), lost, outcomes),
        0 <= i < outcomes.len(),
        addr != lost,
    ensures
        outcomes[i].cast matches Some(cast) && cast.message matches PeerMessage::SendUpdate(
            _,
            vni,
            dest,
            nh,
        ) && (node.reaches(Audience::Subscribers(vni, None), addr) ==> in_step(
            node,
            node.without_peer(lost),
            addr,
            vni,
            dest,
            nh,
            told_by(outcomes[i].cast, addr),
        )),
{
    let after = node.without_peer(lost);
    assert(node.is_loss_outcome(after, lost, outcomes[i]));
    let cast = outcomes[i].cast->0;
    if let PeerMessage::SendUpdate(_, vni, dest, nh) = cast.message {
        assert(messages_of(outcomes)[i] == cast.message);
        assert(messages_of(outcomes).contains(cast.message));
        assert(node.routes.contains(
            Route { vni, destination: dest, next_hop: nh, peer: Some(lost) },
        ));
        assert(peers_of(node.routes, vni, dest, nh).contains(Some(lost)));
        assert(cast.to@.contains(addr) == after.reaches(
            Audience::Deprived(vni, dest, nh, Some(lost)),
            addr,
        ));
    }
}

/// What neither the node nor any peer announces is not offered.
proof fn lemma_not_offered(
    node: NodeView,
    addr: SocketAddr,
    vni: Vni,
    dest: Destination,
    nh: NextHop,
)
    requires
        !node.announcements.contains(own_route(vni, dest, nh)),
        !hops_of(node.routes, vni, dest).contains(nh),
    ensures
        !node.offers(addr, vni, dest, nh),
{
    if from_others(node.routes, vni, dest, nh, addr) {
        let p = choose|p: PeerKey| #[trigger]
            peers_of(node.routes, vni, dest, nh).contains(p) && p != Some(addr);
        assert(node.routes.contains(Route { vni, destination: dest, next_hop: nh, peer: p }));
    }
}

/// A node that has been stopped refuses every request, does nothing on it, and
/// stays as it is.
pub proof fn lemma_stopped(node: NodeView, command: MetalBondCommand, step: MetalBondStep)
    requires
        node.after_command(MetalBondCommand::Shutdown).step_matches(command, step),
    ensures
        ({
            let stopped = node.after_command(MetalBondCommand::Shutdown);
            &&& stopped.after_command(command) == stopped
            &&& step.cast is None && step.outcomes@.len() == 0 && step.connect is None
            &&& !step.running
            &&& match command {
                MetalBondCommand::GetSubscribedVnis => {
                    step.reply matches MetalBondReply::SubscribedVnis(vnis) && vnis@.len() == 0
                },
                MetalBondCommand::IsRouteAnnounced(_, _, _) => step.reply
                    == MetalBondReply::Announced(false),
                MetalBondCommand::GetPeerState(_) => step.reply == MetalBondReply::PeerState(
                    Err(MetalBondError::Stopped),
                ),
                MetalBondCommand::RouteUpdate(_) => step.reply is Silent,
                MetalBondCommand::Shutdown => step.reply is Silent,
                _ => step.reply == MetalBondReply::Done(Err(MetalBondError::Stopped)),
            }
        }),
{
    if let MetalBondReply::SubscribedVnis(vnis) = step.reply {
        if command is GetSubscribedVnis && vnis@.len() > 0 {
            assert(vnis@.to_set().contains(vnis@[0]));
        }
    }
}

/// A lost connection is tried again: the side that opened it keeps the peer, and
/// as long as no attempt succeeds there is a next one, after a time between the
/// least and the greatest that are configured. None of the peer's routes are left
/// meanwhile.
pub proof fn lemma_lost_is_retried(
    node: NodeView,
    addr: SocketAddr,
    attempt: u32,
    delay: Duration,
    route: Route,
)
    requires
        node.running,
        node.peers.contains_key(addr),
        node.peers[addr].direction is Outgoing,
        !node.is_server,
        node.config.retry_interval_min.total() <= node.config.retry_interval_max.total(),
        node.config.is_retry_delay(attempt, delay),
    ensures
        ({
            let lost = node.after_loss(addr);
            &&& lost.retries(addr)
            &&& lost.connect_for(MetalBondCommand::RetryConnection(addr)) == Some(addr)
            &&& route.peer == Some(addr) ==> !lost.routes.contains(route)
            &&& node.config.retry_interval_min.total() <= delay.total()
            &&& delay.total() <= node.config.retry_interval_max.total()
        }),
{
}

} // verus!
