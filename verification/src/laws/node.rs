//! What a node tells whom, and what it knows afterwards.

use crate::codec::MessageView;
use crate::metalbond::{
    messages_of, update_of, Audience, Interest, MetalBondCommand, MetalBondError, MetalBondReply,
    MetalBondStep, Multicast, NodeView, Received, RouteChange, RouteOutcome,
};
use crate::net::SocketAddr;
use crate::pb;
use crate::peer::{PeerEffect, PeerMessage};
use crate::routetable::{from_others, hops_of, peers_of, PeerKey, Route};
use crate::types::{
    ConnectionDirection, ConnectionState, Destination, InternalUpdate, NextHop, UpdateAction, Vni,
};
use vstd::prelude::*;

verus! {

/// The connection to a peer is established.
pub open spec fn established(node: NodeView, addr: SocketAddr) -> bool {
    node.peers.contains_key(addr) && node.peers[addr].state == ConnectionState::Established
}

/// A peer subscribes to a virtual network.
pub open spec fn subscribes(node: NodeView, addr: SocketAddr, vni: Vni) -> bool {
    node.subscribers.contains(Interest { vni, addr })
}

/// The other side of a connection is a server.
pub open spec fn is_server(node: NodeView, addr: SocketAddr) -> bool {
    node.peers.contains_key(addr) && node.peers[addr].is_remote_server
}

/// The node itself announces a route.
pub open spec fn announces(
    node: NodeView,
    vni: Vni,
    destination: Destination,
    next_hop: NextHop,
) -> bool {
    node.announcements.contains(Route { vni, destination, next_hop, peer: None })
}

/// One announcer announced a route.
pub open spec fn heard_from(
    node: NodeView,
    peer: PeerKey,
    vni: Vni,
    destination: Destination,
    next_hop: NextHop,
) -> bool {
    node.routes.contains(Route { vni, destination, next_hop, peer })
}

/// Somebody other than `peer` announced a route.
pub open spec fn heard_from_others(
    node: NodeView,
    peer: PeerKey,
    vni: Vni,
    dest: Destination,
    nh: NextHop,
) -> bool {
    exists|p: PeerKey| p != peer && #[trigger] heard_from(node, p, vni, dest, nh)
}

proof fn lemma_from_others(
    node: NodeView,
    addr: SocketAddr,
    vni: Vni,
    dest: Destination,
    nh: NextHop,
)
    ensures
        from_others(node.routes, vni, dest, nh, addr) == heard_from_others(
            node,
            Some(addr),
            vni,
            dest,
            nh,
        ),
{
    let peers = peers_of(node.routes, vni, dest, nh);
    if from_others(node.routes, vni, dest, nh, addr) {
        let p = choose|p: PeerKey| #[trigger] peers.contains(p) && p != Some(addr);
        assert(heard_from(node, p, vni, dest, nh));
    }
    if heard_from_others(node, Some(addr), vni, dest, nh) {
        let p = choose|p: PeerKey|
            p != Some(addr) && #[trigger] heard_from(node, p, vni, dest, nh);
        assert(peers.contains(p));
    }
}

/// Announcing a route adds that one to what the node announces and changes nothing
/// else. Unless it was announced before, the established peers that subscribe to its
/// virtual network or are servers are told, each once, and nobody else.
pub proof fn lemma_announcing(
    node: NodeView,
    vni: Vni,
    destination: Destination,
    next_hop: NextHop,
    cast: Option<Multicast>,
    addr: SocketAddr,
    route: Route,
)
    requires
        node.running,
        node.casts(MetalBondCommand::AnnounceRoute(vni, destination, next_hop), cast),
    ensures
        ({
            let after = node.after_command(
                MetalBondCommand::AnnounceRoute(vni, destination, next_hop),
            );
            &&& after.announcements.contains(route) <==> (node.announcements.contains(route)
                || route == Route { vni, destination, next_hop, peer: None })
            &&& after == NodeView { announcements: after.announcements, ..node }
        }),
        cast is None <==> announces(node, vni, destination, next_hop),
        cast matches Some(c) ==> {
            &&& c.message == PeerMessage::SendUpdate(UpdateAction::Add, vni, destination, next_hop)
            &&& c.to@.no_duplicates()
            &&& c.to@.contains(addr) <==> established(node, addr) && (subscribes(node, addr, vni)
                || is_server(node, addr))
        },
{
}

/// Withdrawing a route takes that one from what the node announces and changes
/// nothing else. If it was announced, an established peer is told just if it is a
/// server that does not subscribe to the virtual network, or if it subscribes to it
/// and nobody else announces the route to it.
pub proof fn lemma_withdrawing(
    node: NodeView,
    vni: Vni,
    destination: Destination,
    next_hop: NextHop,
    cast: Option<Multicast>,
    addr: SocketAddr,
    route: Route,
)
    requires
        node.running,
        node.casts(MetalBondCommand::WithdrawRoute(vni, destination, next_hop), cast),
    ensures
        ({
            let after = node.after_command(
                MetalBondCommand::WithdrawRoute(vni, destination, next_hop),
            );
            &&& after.announcements.contains(route) <==> (node.announcements.contains(route)
                && route != Route { vni, destination, next_hop, peer: None })
            &&& after == NodeView { announcements: after.announcements, ..node }
        }),
        cast is None <==> !announces(node, vni, destination, next_hop),
        cast matches Some(c) ==> {
            &&& c.message == PeerMessage::SendUpdate(
                UpdateAction::Remove,
                vni,
                destination,
                next_hop,
            )
            &&& c.to@.no_duplicates()
            &&& c.to@.contains(addr) <==> established(node, addr) && if subscribes(
                node,
                addr,
                vni,
            ) {
                !heard_from_others(node, Some(addr), vni, destination, next_hop)
            } else {
                is_server(node, addr)
            }
        },
{
    lemma_from_others(node, addr, vni, destination, next_hop);
}

/// An established server that does not subscribe to a virtual network is told of the
/// end of just those routes of which it was told that the node announces them.
pub proof fn lemma_server_told_of_both(
    node: NodeView,
    vni: Vni,
    dest: Destination,
    nh: NextHop,
    announced: Option<Multicast>,
    withdrawn: Option<Multicast>,
    addr: SocketAddr,
)
    requires
        node.running,
        !announces(node, vni, dest, nh),
        established(node, addr),
        is_server(node, addr),
        !subscribes(node, addr, vni),
        node.casts(MetalBondCommand::AnnounceRoute(vni, dest, nh), announced),
        node.after_command(MetalBondCommand::AnnounceRoute(vni, dest, nh)).casts(
            MetalBondCommand::WithdrawRoute(vni, dest, nh),
            withdrawn,
        ),
    ensures
        announced matches Some(c) && c.to@.contains(addr) && c.message == PeerMessage::SendUpdate(
            UpdateAction::Add,
            vni,
            dest,
            nh,
        ),
        withdrawn matches Some(c) && c.to@.contains(addr) && c.message == PeerMessage::SendUpdate(
            UpdateAction::Remove,
            vni,
            dest,
            nh,
        ),
{
    let route = Route { vni, destination: dest, next_hop: nh, peer: None };
    let between = node.after_command(MetalBondCommand::AnnounceRoute(vni, dest, nh));
    lemma_announcing(node, vni, dest, nh, announced, addr, route);
    lemma_withdrawing(between, vni, dest, nh, withdrawn, addr, route);
}

/// Subscribing to a virtual network, or ending it, changes the node's interest in
/// that one and nothing else. If it changes, all established peers are told, each
/// once, and nobody else.
pub proof fn lemma_subscribing(
    node: NodeView,
    vni: Vni,
    begin: bool,
    cast: Option<Multicast>,
    addr: SocketAddr,
    other: Vni,
)
    requires
        node.running,
        node.casts(
            if begin {
                MetalBondCommand::Subscribe(vni)
            } else {
                MetalBondCommand::Unsubscribe(vni)
            },
            cast,
        ),
    ensures
        ({
            let after = node.after_command(
                if begin {
                    MetalBondCommand::Subscribe(vni)
                } else {
                    MetalBondCommand::Unsubscribe(vni)
                },
            );
            &&& after.subscriptions.contains(other) == if other == vni {
                begin
            } else {
                node.subscriptions.contains(other)
            }
            &&& after == NodeView { subscriptions: after.subscriptions, ..node }
        }),
        cast is None <==> node.subscriptions.contains(vni) == begin,
        cast matches Some(c) ==> {
            &&& c.message == if begin {
                PeerMessage::SendSubscribe(vni)
            } else {
                PeerMessage::SendUnsubscribe(vni)
            }
            &&& c.to@.no_duplicates()
            &&& c.to@.contains(addr) <==> established(node, addr)
        },
{
}

/// A peer that subscribes to a virtual network, or ends that, does so for that one
/// alone: for every other virtual network and every other peer it stays as it was,
/// and so does all else that the node knows.
pub proof fn lemma_peer_subscribing(
    node: NodeView,
    addr: SocketAddr,
    vni: Vni,
    begin: bool,
    other: Interest,
)
    requires
        node.running,
        node.peers.contains_key(addr),
    ensures
        ({
            let after = node.after_message(
                addr,
                if begin {
                    MessageView::Subscribe(pb::Subscription { vni })
                } else {
                    MessageView::Unsubscribe(pb::Subscription { vni })
                },
            );
            &&& after.subscribers.contains(other) == if other.vni == vni && other.addr == addr {
                begin
            } else {
                node.subscribers.contains(other)
            }
            &&& after == NodeView { subscribers: after.subscribers, ..node }
        }),
{
}

/// Whoever subscribes to a virtual network is told of each of its routes that the
/// node or somebody else announces, once, and of no others; whoever ends that is
/// told nothing.
pub proof fn lemma_told_on_subscribing(
    node: NodeView,
    addr: SocketAddr,
    vni: Vni,
    received: Received,
    unsubscribed: Received,
    message: PeerMessage,
)
    requires
        node.running,
        node.peers.contains_key(addr),
        node.received_matches(
            addr,
            MessageView::Subscribe(pb::Subscription { vni }),
            received,
        ),
        node.received_matches(
            addr,
            MessageView::Unsubscribe(pb::Subscription { vni }),
            unsubscribed,
        ),
    ensures
        node.refusal(addr, MessageView::Subscribe(pb::Subscription { vni })) is None,
        node.refusal(addr, MessageView::Unsubscribe(pb::Subscription { vni })) is None,
        received.answers@.no_duplicates(),
        received.answers@.contains(message) <==> (message matches PeerMessage::SendUpdate(
            action,
            of,
            dest,
            nh,
        ) && action == UpdateAction::Add && of == vni && (announces(node, vni, dest, nh)
            || heard_from_others(node, Some(addr), vni, dest, nh))),
        received.effect == PeerEffect::Nothing,
        received.outcome is None,
        unsubscribed.answers@.len() == 0,
        unsubscribed.effect == PeerEffect::Nothing,
        unsubscribed.outcome is None,
{
    if let PeerMessage::SendUpdate(_, of, dest, nh) = message {
        lemma_from_others(node, addr, vni, dest, nh);
    }
}

/// A message from a peer concerns that peer alone: what the node knows of every
/// other peer, its routes and its subscriptions, stays, and so do the node's own
/// subscriptions and announcements. A keepalive changes nothing at all, and neither
/// does a message from a stranger or to a node that has been stopped.
pub proof fn lemma_message_concerns_sender(
    node: NodeView,
    addr: SocketAddr,
    message: MessageView,
    other: SocketAddr,
    interest: Interest,
    route: Route,
)
    ensures
        ({
            let after = node.after_message(addr, message);
            &&& after.config == node.config
            &&& after.is_server == node.is_server
            &&& after.running == node.running
            &&& after.announcements == node.announcements
            &&& after.subscriptions == node.subscriptions
            &&& after.peers.contains_key(other) == node.peers.contains_key(other)
            &&& other != addr && node.peers.contains_key(other) ==> after.peers[other]
                == node.peers[other]
            &&& interest.addr != addr ==> after.subscribers.contains(interest)
                == node.subscribers.contains(interest)
            &&& route.peer != Some(addr) ==> after.routes.contains(route) == node.routes.contains(
                route,
            )
            &&& message is Keepalive ==> after == node
            &&& !node.running || !node.peers.contains_key(addr) ==> after == node
            &&& message is Hello || message is Update ==> after.subscribers == node.subscribers
            &&& !(message is Update) ==> after.routes == node.routes
            &&& !(message is Hello) ==> after.peers == node.peers
        }),
{
}

/// A message is refused just if the node has been stopped, the sender is a stranger,
/// or it is an update without a valid action, destination and next hop: an action is
/// 0 or 1, an address has four bytes or sixteen, and no more bits count than it has.
pub proof fn lemma_refused_messages(node: NodeView, addr: SocketAddr, message: MessageView)
    ensures
        node.refusal(addr, message) == if !node.running {
            Some(MetalBondError::Stopped)
        } else if !node.peers.contains_key(addr) {
            Some(MetalBondError::PeerNotFound(addr))
        } else {
            match message {
                MessageView::Update(u) => {
                    let valid = (u.action == 0 || u.action == 1) && u.destination is Some
                        && u.next_hop is Some && {
                        let dest = u.destination->0;
                        let hop = u.next_hop->0.target_address;
                        &&& hop.len() == 4 || hop.len() == 16
                        &&& dest.prefix.len() == 4 || dest.prefix.len() == 16
                        &&& dest.prefix_length % 256 <= 8 * dest.prefix.len()
                    };
                    if valid {
                        None
                    } else {
                        Some(MetalBondError::InvalidUpdate)
                    }
                },
                _ => None,
            }
        },
{
}

/// What an update from a peer says is what its fields hold.
pub proof fn lemma_update_fields(u: pb::UpdateView, addr: SocketAddr)
    ensures
        update_of(u, addr) matches Some(update) ==> {
            &&& u.destination is Some && u.next_hop is Some
            &&& u.action == if update.action == UpdateAction::Add {
                0i32
            } else {
                1
            }
            &&& update.vni == u.vni
            &&& update.source_peer == Some(addr)
            &&& update.destination.prefix.addr().octets() == u.destination->0.prefix
            &&& update.destination.prefix.prefix_len() == u.destination->0.prefix_length % 256
            &&& update.next_hop.target_address.octets() == u.next_hop->0.target_address
            &&& update.next_hop.target_vni == u.next_hop->0.target_vni
            &&& update.next_hop.nat_port_range_from == u.next_hop->0.nat_port_range_from % 65536
            &&& update.next_hop.nat_port_range_to == u.next_hop->0.nat_port_range_to % 65536
            &&& update.next_hop.hop_type == if u.next_hop->0.hop_type == 1 {
                pb::NextHopType::Nat
            } else if u.next_hop->0.hop_type == 2 {
                pb::NextHopType::LoadbalancerTarget
            } else {
                pb::NextHopType::Standard
            }
        },
{
    if let Some(update) = update_of(u, addr) {
        crate::net::lemma_of_octets_roundtrip(u.destination->0.prefix);
        crate::net::lemma_of_octets_roundtrip(u.next_hop->0.target_address);
        crate::net::lemma_prefix_parts(
            update.destination.prefix,
            update.destination.prefix.addr(),
            update.destination.prefix.prefix_len(),
        );
    }
}

/// An update adds its route, or takes it away, for its announcer alone. The route is
/// installed when the first announcer comes and uninstalled when the last one goes.
/// If anything changes, the established subscribers are told of an addition, and of a
/// removal those to which neither the node nor anybody else announces the route; the
/// announcer itself is never told.
pub proof fn lemma_updating(
    node: NodeView,
    update: InternalUpdate,
    outcome: RouteOutcome,
    addr: SocketAddr,
    route: Route,
)
    requires
        node.outcome_matches(update, outcome),
    ensures
        ({
            let (vni, dest, nh) = (update.vni, update.destination, update.next_hop);
            let from = update.source_peer;
            let add = update.action == UpdateAction::Add;
            let after = node.after_update(update);
            let had = heard_from(node, from, vni, dest, nh);
            &&& after == NodeView { routes: after.routes, ..node }
            &&& after.routes.contains(route) == if route == (Route {
                vni,
                destination: dest,
                next_hop: nh,
                peer: from,
            }) {
                add
            } else {
                node.routes.contains(route)
            }
            &&& outcome.change == if heard_from_others(node, from, vni, dest, nh) || had == add {
                RouteChange::Nothing
            } else if add {
                RouteChange::Install(vni, dest, nh)
            } else {
                RouteChange::Uninstall(vni, dest, nh)
            }
            &&& outcome.cast is None <==> had == add
            &&& outcome.cast matches Some(c) ==> {
                &&& c.message == PeerMessage::SendUpdate(update.action, vni, dest, nh)
                &&& c.to@.no_duplicates()
                &&& c.to@.contains(addr) <==> established(node, addr) && subscribes(
                    node,
                    addr,
                    vni,
                ) && from != Some(addr) && (add || !(announces(node, vni, dest, nh)
                    || heard_from_others(after, Some(addr), vni, dest, nh)))
            }
        }),
{
    let (vni, dest, nh) = (update.vni, update.destination, update.next_hop);
    let from = update.source_peer;
    let after = node.after_update(update);
    lemma_from_others(after, addr, vni, dest, nh);
    let hops = hops_of(node.routes, vni, dest);
    let left = hops_of(after.routes, vni, dest);
    assert forall|p: PeerKey| p != from implies heard_from(node, p, vni, dest, nh) == heard_from(
        after,
        p,
        vni,
        dest,
        nh,
    ) by {}
    if hops.contains(nh) {
        let r = choose|r: Route|
            node.routes.contains(r) && r.vni == vni && r.destination == dest && r.next_hop == nh;
        assert(heard_from(node, r.peer, vni, dest, nh));
    }
    if left.contains(nh) {
        let r = choose|r: Route|
            after.routes.contains(r) && r.vni == vni && r.destination == dest && r.next_hop == nh;
        assert(heard_from(after, r.peer, vni, dest, nh));
    }
    if heard_from_others(node, from, vni, dest, nh) {
        let p = choose|p: PeerKey| p != from && #[trigger] heard_from(node, p, vni, dest, nh);
        let r = Route { vni, destination: dest, next_hop: nh, peer: p };
        assert(node.routes.contains(r) && after.routes.contains(r));
        assert(hops.contains(nh) && left.contains(nh));
    }
    if heard_from(node, from, vni, dest, nh) {
        let r = Route { vni, destination: dest, next_hop: nh, peer: from };
        assert(node.routes.contains(r));
    }
}

/// The first `Hello` of a peer to which none was sent is answered with one. In no
/// other case is a `Hello` answered. When the exchange is complete the node is asked
/// for what the peer is sent first, once.
pub proof fn lemma_hello_received(
    node: NodeView,
    addr: SocketAddr,
    hello: pb::Hello,
    received: Received,
)
    requires
        node.running,
        node.peers.contains_key(addr),
        node.received_matches(addr, MessageView::Hello(hello), received),
    ensures
        ({
            let before = node.peers[addr];
            let after = node.after_message(addr, MessageView::Hello(hello)).peers[addr];
            let first = before.state == ConnectionState::Connecting && !before.hello_sent;
            let complete = before.state == ConnectionState::HelloSent || (before.state
                == ConnectionState::Connecting && before.hello_sent);
            &&& received.answers@ == if first {
                seq![PeerMessage::SendHello]
            } else {
                seq![]
            }
            &&& received.effect == if complete {
                PeerEffect::RequestSubscriptions
            } else {
                PeerEffect::Nothing
            }
            &&& received.outcome is None
            &&& after.is_remote_server == hello.is_server
            &&& after.hello_received
            &&& after.remote_addr == before.remote_addr
            &&& after.direction == before.direction
            &&& after.config == before.config
            &&& after.state == if first {
                ConnectionState::HelloReceived
            } else if complete {
                ConnectionState::Established
            } else {
                before.state
            }
        }),
{
    assert(received.answers@ =~= seq![] || received.answers@.len() > 0);
}

/// An update or a keepalive is not answered, and does not change the state of the
/// connection.
pub proof fn lemma_not_answered(
    node: NodeView,
    addr: SocketAddr,
    message: MessageView,
    received: Received,
)
    requires
        message is Update || message is Keepalive,
        node.running,
        node.peers.contains_key(addr),
        node.refusal(addr, message) is None,
        node.received_matches(addr, message, received),
    ensures
        received.answers@.len() == 0,
        received.effect == PeerEffect::Nothing,
        message is Keepalive ==> received.outcome is None,
        message matches MessageView::Update(u) ==> (update_of(u, addr) matches Some(update)
            && received.outcome matches Some(outcome) && node.outcome_matches(update, outcome)
            && node.after_message(addr, message) == node.after_update(update)),
{
}

/// Removing a peer takes the peer, its routes and its subscriptions away, and nothing
/// else.
pub proof fn lemma_removing_peer(
    node: NodeView,
    addr: SocketAddr,
    other: SocketAddr,
    interest: Interest,
    route: Route,
)
    requires
        node.running,
    ensures
        ({
            let after = node.after_command(MetalBondCommand::RemovePeer(addr));
            &&& after.peers.contains_key(other) == (node.peers.contains_key(other) && other
                != addr)
            &&& after.peers.contains_key(other) ==> after.peers[other] == node.peers[other]
            &&& after.subscribers.contains(interest) == (node.subscribers.contains(interest)
                && interest.addr != addr)
            &&& after.routes.contains(route) == (node.routes.contains(route) && route.peer != Some(
                addr,
            ))
            &&& after == NodeView {
                peers: after.peers,
                subscribers: after.subscribers,
                routes: after.routes,
                ..node
            }
        }),
{
}

/// What the loss of a peer comes to, for each of the routes that it announced, once:
/// the route is uninstalled if no other peer announced it, and an established
/// subscriber other than the peer is told just if neither the node nor anybody else
/// announces it. There is nothing for any other route.
pub proof fn lemma_losing_peer(
    node: NodeView,
    after: NodeView,
    lost: SocketAddr,
    outcomes: Seq<RouteOutcome>,
    i: int,
    addr: SocketAddr,
    vni: Vni,
    dest: Destination,
    nh: NextHop,
)
    requires
        node.loss_matches(after, lost, outcomes),
        after == node.after_command(MetalBondCommand::RemovePeer(lost)) || after
            == node.after_loss(lost),
        node.running,
        node.peers.contains_key(lost),
        0 <= i < outcomes.len(),
    ensures
        heard_from(node, Some(lost), vni, dest, nh) <==> exists|j: int|
            0 <= j < outcomes.len() && (#[trigger] outcomes[j]).cast is Some
                && outcomes[j].cast->0.message == PeerMessage::SendUpdate(
                UpdateAction::Remove,
                vni,
                dest,
                nh,
            ),
        forall|j: int| 0 <= j < outcomes.len() && j != i ==> (#[trigger] outcomes[j]).cast
            != outcomes[i].cast,
        outcomes[i].cast matches Some(c) && c.message matches PeerMessage::SendUpdate(
            action,
            v,
            d,
            n,
        ) && action == UpdateAction::Remove && c.to@.no_duplicates() && outcomes[i].change == (
        if heard_from_others(node, Some(lost), v, d, n) {
            RouteChange::Nothing
        } else {
            RouteChange::Uninstall(v, d, n)
        }) && (c.to@.contains(addr) <==> established(node, addr) && addr != lost && subscribes(
            node,
            addr,
            v,
        ) && !announces(node, v, d, n) && !heard_from_others(after, Some(addr), v, d, n)),
{
    assert(node.is_loss_outcome(after, lost, outcomes[i]));
    let told = PeerMessage::SendUpdate(UpdateAction::Remove, vni, dest, nh);
    let messages = messages_of(outcomes);
    assert(messages.contains(told) == heard_from(node, Some(lost), vni, dest, nh));
    if messages.contains(told) {
        let j = choose|j: int| 0 <= j < messages.len() && messages[j] == told;
        assert(node.is_loss_outcome(after, lost, outcomes[j]));
        assert(outcomes[j].cast->0.message == told);
    }
    assert forall|j: int|
        0 <= j < outcomes.len() && (#[trigger] outcomes[j]).cast is Some
            && outcomes[j].cast->0.message == told implies messages.contains(told) by {
        assert(messages[j] == told);
    }
    assert forall|j: int| 0 <= j < outcomes.len() && j != i implies (#[trigger] outcomes[j]).cast
        != outcomes[i].cast by {
        assert(messages[j] != messages[i]);
    }
    if let PeerMessage::SendUpdate(_, v, d, n) = outcomes[i].cast->0.message {
        assert(messages[i] == PeerMessage::SendUpdate(UpdateAction::Remove, v, d, n));
        assert(messages.contains(messages[i]));
        assert(node.routes.contains(
            Route { vni: v, destination: d, next_hop: n, peer: Some(lost) },
        ));
        assert(peers_of(node.routes, v, d, n).contains(Some(lost)));
        lemma_from_others(node, lost, v, d, n);
        lemma_from_others(after, addr, v, d, n);
        assert(after.peers.contains_key(addr) && addr != lost ==> after.peers[addr]
            == node.peers[addr]);
    }
}

/// When the connection to a peer is lost, its routes and its subscriptions go and
/// nothing else changes but the peer itself: whoever opened the connection keeps it,
/// to try again, and the other side forgets it.
pub proof fn lemma_connection_loss(
    node: NodeView,
    addr: SocketAddr,
    other: SocketAddr,
    interest: Interest,
    route: Route,
)
    requires
        node.running,
        node.peers.contains_key(addr),
    ensures
        ({
            let after = node.after_loss(addr);
            let kept = node.peers[addr].direction == ConnectionDirection::Outgoing;
            &&& other != addr ==> after.peers.contains_key(other) == node.peers.contains_key(other)
            &&& other != addr && node.peers.contains_key(other) ==> after.peers[other]
                == node.peers[other]
            &&& after.peers.contains_key(addr) == kept
            &&& kept ==> after.peers[addr].state == ConnectionState::Retry
            &&& kept ==> after.peers[addr].remote_addr == node.peers[addr].remote_addr
            &&& kept ==> after.peers[addr].direction == ConnectionDirection::Outgoing
            &&& kept ==> after.peers[addr].config == node.peers[addr].config
            &&& kept && node.peers[addr].state != ConnectionState::Retry
                ==> !after.peers[addr].hello_sent && !after.peers[addr].hello_received
            &&& after.retries(addr) == kept
            &&& after.subscribers.contains(interest) == (node.subscribers.contains(interest)
                && interest.addr != addr)
            &&& after.routes.contains(route) == (node.routes.contains(route) && route.peer != Some(
                addr,
            ))
            &&& after == NodeView {
                peers: after.peers,
                subscribers: after.subscribers,
                routes: after.routes,
                ..node
            }
        }),
{
}

/// Nothing comes of the loss of a connection to a stranger, or at a node that has
/// been stopped.
pub proof fn lemma_no_connection_loss(node: NodeView, addr: SocketAddr)
    requires
        !node.running || !node.peers.contains_key(addr),
    ensures
        node.after_loss(addr) == node,
        !node.retries(addr),
{
}

/// A connection is tried again just if the node runs, opened it, and lost it.
pub proof fn lemma_retrying(node: NodeView, addr: SocketAddr)
    ensures
        node.retries(addr) <==> node.running && node.peers.contains_key(addr)
            && node.peers[addr].direction == ConnectionDirection::Outgoing
            && node.peers[addr].state == ConnectionState::Retry,
{
}

/// A new peer of a server is an incoming connection that is being opened; nothing
/// else changes. A client does not know it before it is connected, and a peer that is
/// known stays as it is.
pub proof fn lemma_adding_peer(node: NodeView, addr: SocketAddr, other: SocketAddr)
    requires
        node.running,
    ensures
        ({
            let command = MetalBondCommand::AddPeer(addr);
            let after = node.after_command(command);
            let known = node.peers.contains_key(addr);
            &&& after == NodeView { peers: after.peers, ..node }
            &&& after.peers.contains_key(other) == (node.peers.contains_key(other) || (other == addr
                && node.is_server))
            &&& node.peers.contains_key(other) ==> after.peers[other] == node.peers[other]
            &&& !known && node.is_server ==> {
                let peer = after.peers[addr];
                &&& peer.remote_addr == addr
                &&& peer.direction == ConnectionDirection::Incoming
                &&& peer.state == ConnectionState::Connecting
                &&& !peer.hello_sent && !peer.hello_received && !peer.is_remote_server
                &&& peer.config == node.config
            }
            &&& node.connect_for(command) == if known || node.is_server {
                None
            } else {
                Some(addr)
            }
        }),
{
}

/// What is asked, withdrawn, retried or stopped leaves all else as it is.
pub proof fn lemma_other_commands(node: NodeView, command: MetalBondCommand)
    ensures
        command is GetSubscribedVnis || command is IsRouteAnnounced || command is GetPeerState
            || command is RetryConnection ==> node.after_command(command) == node,
        command is Shutdown ==> node.after_command(command) == (NodeView {
            running: false,
            ..node
        }),
        command matches MetalBondCommand::RouteUpdate(update) ==> node.running
            ==> node.after_command(command) == node.after_update(update),
        !node.running ==> node.after_command(command) == node,
{
}

/// A connection is opened only for a peer that a running client does not know, or
/// knows and is asked to connect to again.
pub proof fn lemma_opening_connections(node: NodeView, command: MetalBondCommand)
    ensures
        node.connect_for(command) == match command {
            MetalBondCommand::AddPeer(addr) => if node.running && !node.is_server
                && !node.peers.contains_key(addr) {
                Some(addr)
            } else {
                None
            },
            MetalBondCommand::RetryConnection(addr) => if node.running && !node.is_server
                && node.peers.contains_key(addr) {
                Some(addr)
            } else {
                None
            },
            _ => None,
        },
{
}

/// How a running node answers.
pub proof fn lemma_answers(node: NodeView, command: MetalBondCommand, reply: MetalBondReply)
    requires
        node.running,
        node.answers(command, reply),
    ensures
        match command {
            MetalBondCommand::GetSubscribedVnis => reply matches MetalBondReply::SubscribedVnis(
                vnis,
            ) && vnis@.no_duplicates() && (forall|v: Vni|
                vnis@.contains(v) <==> #[trigger] node.subscriptions.contains(v)),
            MetalBondCommand::IsRouteAnnounced(vni, dest, nh) => reply == MetalBondReply::Announced(
                announces(node, vni, dest, nh),
            ),
            MetalBondCommand::GetPeerState(addr) => reply matches MetalBondReply::PeerState(r)
                && match r {
                Ok(state) => node.peers.contains_key(addr) && state == node.peers[addr].state,
                Err(e) => !node.peers.contains_key(addr) && e == MetalBondError::PeerNotFound(addr),
            },
            MetalBondCommand::AddPeer(addr) => if node.is_server || node.peers.contains_key(addr) {
                reply == MetalBondReply::Done(Ok(()))
            } else {
                reply == MetalBondReply::Pending
            },
            MetalBondCommand::RetryConnection(addr) => if !node.peers.contains_key(addr) {
                reply == MetalBondReply::Done(Err(MetalBondError::PeerNotFound(addr)))
            } else if node.is_server {
                reply == MetalBondReply::Done(Err(MetalBondError::CannotRetryIncoming))
            } else {
                reply == MetalBondReply::Pending
            },
            MetalBondCommand::RouteUpdate(_) => reply == MetalBondReply::Silent,
            MetalBondCommand::Shutdown => reply == MetalBondReply::Silent,
            _ => reply == MetalBondReply::Done(Ok(())),
        },
{
    if let MetalBondReply::SubscribedVnis(vnis) = reply {
        if command is GetSubscribedVnis {
            assert forall|v: Vni| vnis@.contains(v) <==> #[trigger] node.subscriptions.contains(
                v,
            ) by {
                assert(vnis@.to_set().contains(v) == vnis@.contains(v));
            }
        }
    }
}

/// The state of a peer, and why one is not retried, when asked outright.
pub proof fn lemma_states(node: NodeView, addr: SocketAddr)
    ensures
        node.state_of(addr) matches Ok(state) ==> node.running && node.peers.contains_key(addr)
            && state == node.peers[addr].state,
        node.state_of(addr) is Err <==> !node.running || !node.peers.contains_key(addr),
        node.running && !node.peers.contains_key(addr) ==> node.state_of(addr) == Err::<
            ConnectionState,
            MetalBondError,
        >(MetalBondError::PeerNotFound(addr)),
        !node.running ==> node.state_of(addr) == Err::<ConnectionState, MetalBondError>(
            MetalBondError::Stopped,
        ),
        node.accepted() is Ok == node.running,
        node.accepted() is Err ==> node.accepted() == Err::<(), MetalBondError>(
            MetalBondError::Stopped,
        ),
        node.running ==> node.current_subscriptions() == node.subscriptions,
        !node.running ==> node.current_subscriptions() == Set::<Vni>::empty(),
{
}

/// What comes of a command besides its answer: peers are told of nothing but a change
/// of the node's subscriptions and announcements, and routes are touched by nothing
/// but an update and the removal of a peer.
pub proof fn lemma_steps(node: NodeView, command: MetalBondCommand, step: MetalBondStep)
    requires
        node.running,
        node.step_matches(command, step),
    ensures
        step.running <==> command != MetalBondCommand::Shutdown,
        step.connect == node.connect_for(command),
        node.answers(command, step.reply),
        node.casts(command, step.cast),
        step.cast is Some ==> command is Subscribe || command is Unsubscribe || command
            is AnnounceRoute || command is WithdrawRoute,
        step.outcomes@.len() > 0 ==> command is RouteUpdate || command is RemovePeer,
        command matches MetalBondCommand::RouteUpdate(update) ==> step.outcomes@.len() == 1
            && node.outcome_matches(update, step.outcomes@[0]),
        command matches MetalBondCommand::RemovePeer(addr) ==> node.loss_matches(
            node.after_command(command),
            addr,
            step.outcomes@,
        ),
{
}

/// What a peer is sent first: a subscription to each virtual network that the node
/// subscribes to, and to a server each route that the node announces.
pub proof fn lemma_greeting(node: NodeView, addr: SocketAddr, message: PeerMessage)
    requires
        node.running,
    ensures
        node.greets(addr, message) <==> match message {
            PeerMessage::SendSubscribe(vni) => node.subscriptions.contains(vni),
            PeerMessage::SendUpdate(action, vni, dest, nh) => action == UpdateAction::Add
                && is_server(node, addr) && announces(node, vni, dest, nh),
            _ => false,
        },
{
}

/// All established peers, and no others, are reached by what goes to all of them.
pub proof fn lemma_reaching_all(node: NodeView, addr: SocketAddr)
    ensures
        node.reaches(Audience::Established, addr) <==> established(node, addr),
{
}

} // verus!
