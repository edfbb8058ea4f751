//! What the route table holds, answers and tells.

use crate::net::SocketAddr;
use crate::routetable::{
    destinations_of, hops_of, peers_of, vnis_of, PeerKey, Route, RouteTable, RouteTableCommand,
    RouteTableError, RouteTableMsg, RouteTableReply,
};
use crate::types::{Destination, NextHop, Vni};
use vstd::prelude::*;

verus! {

/// A route with these parts is there.
pub open spec fn there(
    routes: Set<Route>,
    vni: Vni,
    destination: Destination,
    next_hop: NextHop,
    peer: PeerKey,
) -> bool {
    routes.contains(Route { vni, destination, next_hop, peer })
}

/// A virtual network, a destination in it and a next hop of that are known just by the
/// routes that have them.
pub proof fn lemma_known_by_routes(
    routes: Set<Route>,
    vni: Vni,
    dest: Destination,
    nh: NextHop,
    peer: PeerKey,
)
    ensures
        peers_of(routes, vni, dest, nh).contains(peer) <==> there(routes, vni, dest, nh, peer),
        hops_of(routes, vni, dest).contains(nh) <==> exists|p: PeerKey| #[trigger]
            there(routes, vni, dest, nh, p),
        destinations_of(routes, vni).contains(dest) <==> exists|n: NextHop, p: PeerKey| #[trigger]
            there(routes, vni, dest, n, p),
        vnis_of(routes).contains(vni) <==> exists|d: Destination, n: NextHop, p: PeerKey| #[trigger]
            there(routes, vni, d, n, p),
{
    if hops_of(routes, vni, dest).contains(nh) {
        let r = choose|r: Route|
            routes.contains(r) && r.vni == vni && r.destination == dest && r.next_hop == nh;
        assert(there(routes, vni, dest, nh, r.peer));
    }
    if destinations_of(routes, vni).contains(dest) {
        let r = choose|r: Route| routes.contains(r) && r.vni == vni && r.destination == dest;
        assert(there(routes, vni, dest, r.next_hop, r.peer));
    }
    if vnis_of(routes).contains(vni) {
        let r = choose|r: Route| routes.contains(r) && r.vni == vni;
        assert(there(routes, vni, r.destination, r.next_hop, r.peer));
    }
}

/// What a command does to the table: it adds one route, takes one away, or takes all
/// of one peer away; all other routes stay. A view keeps having none.
pub proof fn lemma_table_changes(table: RouteTable, command: RouteTableCommand, route: Route)
    requires
        table.is_attached(),
    ensures
        table.routes_after(command).contains(route) == match command {
            RouteTableCommand::AddNextHop(vni, destination, next_hop, peer) => table@.contains(
                route,
            ) || route == (Route { vni, destination, next_hop, peer }),
            RouteTableCommand::RemoveNextHop(vni, destination, next_hop, peer) => table@.contains(
                route,
            ) && route != (Route { vni, destination, next_hop, peer }),
            RouteTableCommand::RemoveRoutesFromPeer(peer) => table@.contains(route) && route.peer
                != Some(peer),
            _ => table@.contains(route),
        },
{
}

/// Why a route is not taken out: the first of its parts that no route has together
/// with those before it. There is no reason just if the route is there.
pub proof fn lemma_removal_errors(
    table: RouteTable,
    vni: Vni,
    dest: Destination,
    nh: NextHop,
    peer: PeerKey,
)
    ensures
        match table.removal_error(vni, dest, nh, peer) {
            None => table.is_attached() && there(table@, vni, dest, nh, peer),
            Some(RouteTableError::NotAvailable) => !table.is_attached(),
            Some(RouteTableError::VniNotFound(v)) => v == vni && table.is_attached() && forall|
                d: Destination,
                n: NextHop,
                p: PeerKey,
            | !#[trigger] there(table@, vni, d, n, p),
            Some(RouteTableError::DestinationNotFound(d, v)) => {
                &&& d == dest && v == vni && table.is_attached()
                &&& forall|n: NextHop, p: PeerKey| !#[trigger] there(table@, vni, dest, n, p)
                &&& exists|o: Destination, n: NextHop, p: PeerKey| #[trigger]
                    there(table@, vni, o, n, p)
            },
            Some(RouteTableError::NextHopNotFound(n, d)) => {
                &&& n == nh && d == dest && table.is_attached()
                &&& forall|p: PeerKey| !#[trigger] there(table@, vni, dest, nh, p)
                &&& exists|o: NextHop, p: PeerKey| #[trigger] there(table@, vni, dest, o, p)
            },
            Some(RouteTableError::PeerNotFound(p, n)) => {
                &&& p == peer && n == nh && table.is_attached()
                &&& !there(table@, vni, dest, nh, peer)
                &&& exists|o: PeerKey| #[trigger] there(table@, vni, dest, nh, o)
            },
        },
{
    lemma_known_by_routes(table@, vni, dest, nh, peer);
    if there(table@, vni, dest, nh, peer) {
        assert(hops_of(table@, vni, dest).contains(nh));
        assert(destinations_of(table@, vni).contains(dest));
        assert(vnis_of(table@).contains(vni));
    }
}

/// What the table answers to questions and requests.
pub proof fn lemma_table_answers(
    table: RouteTable,
    command: RouteTableCommand,
    reply: RouteTableReply,
)
    requires
        table.is_attached(),
        table.answers(command, reply),
    ensures
        match command {
            RouteTableCommand::AddNextHop(vni, dest, nh, peer) => reply == RouteTableReply::Added(
                !there(table@, vni, dest, nh, peer),
            ),
            RouteTableCommand::RemoveNextHop(vni, dest, nh, peer) => {
                &&& reply is Removed
                &&& reply->Removed_0 is Ok <==> there(table@, vni, dest, nh, peer)
                &&& reply->Removed_0 matches Ok(left) ==> {
                    let others = Set::new(
                        |p: PeerKey| p != peer && there(table@, vni, dest, nh, p),
                    );
                    others.finite() && left == others.len()
                }
            },
            RouteTableCommand::NextHopExists(vni, dest, nh, peer) => reply
                == RouteTableReply::Exists(there(table@, vni, dest, nh, peer)),
            RouteTableCommand::GetVnis => reply is Vnis,
            RouteTableCommand::GetDestinationsByVni(_) => reply is Destinations,
            RouteTableCommand::GetDestinationsByVniWithPeer(_) => reply is DestinationsWithPeer,
            RouteTableCommand::GetNextHopsByDestination(_, _) => reply is NextHops,
            RouteTableCommand::RemoveRoutesFromPeer(_) => reply is RoutesRemoved,
            RouteTableCommand::GetLocalAnnouncements => reply is LocalAnnouncements,
        },
{
    if let RouteTableCommand::RemoveNextHop(vni, dest, nh, peer) = command {
        lemma_removal_errors(table, vni, dest, nh, peer);
        let others = Set::new(|p: PeerKey| p != peer && there(table@, vni, dest, nh, p));
        assert(peers_of(table.routes_after(command), vni, dest, nh) =~= others);
    }
}

/// The lists that the table answers with: each thing that some route has, once.
pub proof fn lemma_table_lists(
    table: RouteTable,
    vni: Vni,
    dest: Destination,
    nh: NextHop,
    peer: SocketAddr,
    vnis: RouteTableReply,
    hops: RouteTableReply,
    gone: RouteTableReply,
)
    requires
        table.answers(RouteTableCommand::GetVnis, vnis),
        table.answers(RouteTableCommand::GetNextHopsByDestination(vni, dest), hops),
        table.answers(RouteTableCommand::RemoveRoutesFromPeer(peer), gone),
    ensures
        vnis matches RouteTableReply::Vnis(list) && list@.no_duplicates() && (list@.contains(vni)
            <==> exists|d: Destination, n: NextHop, p: PeerKey| #[trigger]
            there(table@, vni, d, n, p)),
        hops matches RouteTableReply::NextHops(list) && list@.no_duplicates() && (list@.contains(nh)
            <==> exists|p: PeerKey| #[trigger] there(table@, vni, dest, nh, p)),
        gone matches RouteTableReply::RoutesRemoved(list) && list@.no_duplicates() && (
        list@.contains((vni, dest, nh)) <==> there(table@, vni, dest, nh, Some(peer))),
{
    lemma_known_by_routes(table@, vni, dest, nh, Some(peer));
    if let RouteTableReply::Vnis(list) = vnis {
        assert(list@.to_set().contains(vni) == list@.contains(vni));
    }
    if let RouteTableReply::NextHops(list) = hops {
        assert(list@.to_set().contains(nh) == list@.contains(nh));
    }
}

/// The maps that the table answers with: every route of the virtual network is in
/// them, with its announcers or without, and nothing else.
pub proof fn lemma_table_maps(
    table: RouteTable,
    vni: Vni,
    dest: Destination,
    nh: NextHop,
    peer: PeerKey,
    plain: RouteTableReply,
    detailed: RouteTableReply,
    local: RouteTableReply,
)
    requires
        table.answers(RouteTableCommand::GetDestinationsByVni(vni), plain),
        table.answers(RouteTableCommand::GetDestinationsByVniWithPeer(vni), detailed),
        table.answers(RouteTableCommand::GetLocalAnnouncements, local),
    ensures
        plain matches RouteTableReply::Destinations(map) && (map@.contains_key(dest)
            && map@[dest]@.contains(nh) <==> exists|p: PeerKey| #[trigger]
            there(table@, vni, dest, nh, p)) && (map@.contains_key(dest)
            ==> map@[dest]@.no_duplicates() && map@[dest]@.len() > 0),
        detailed matches RouteTableReply::DestinationsWithPeer(map) && (map@.contains_key(dest)
            && map@[dest]@.contains_key(nh) && map@[dest]@[nh]@.contains(peer) <==> there(
            table@,
            vni,
            dest,
            nh,
            peer,
        )),
        local matches RouteTableReply::LocalAnnouncements(map) && (map@.contains_key(vni)
            && map@[vni]@.contains_key(dest) && map@[vni]@[dest]@.contains(nh) <==> there(
            table@,
            vni,
            dest,
            nh,
            None,
        )),
{
    lemma_known_by_routes(table@, vni, dest, nh, peer);
    let own = table.announced_by(None);
    lemma_known_by_routes(own, vni, dest, nh, None);
    if let RouteTableReply::Destinations(map) = plain {
        if map@.contains_key(dest) {
            assert(map@[dest]@.to_set().contains(nh) == map@[dest]@.contains(nh));
            assert(destinations_of(table@, vni).contains(dest));
            let r = choose|r: Route| table@.contains(r) && r.vni == vni && r.destination == dest;
            assert(hops_of(table@, vni, dest).contains(r.next_hop));
            assert(map@[dest]@.to_set().contains(r.next_hop));
        }
        if exists|p: PeerKey| #[trigger] there(table@, vni, dest, nh, p) {
            assert(destinations_of(table@, vni).contains(dest));
            assert(map@.dom().contains(dest));
        }
    }
    if let RouteTableReply::DestinationsWithPeer(map) = detailed {
        if map@.contains_key(dest) && map@[dest]@.contains_key(nh) {
            assert(map@[dest]@[nh]@.to_set().contains(peer) == map@[dest]@[nh]@.contains(peer));
        }
        if there(table@, vni, dest, nh, peer) {
            assert(destinations_of(table@, vni).contains(dest));
            assert(map@.dom().contains(dest));
            assert(hops_of(table@, vni, dest).contains(nh));
            assert(map@[dest]@.dom().contains(nh));
        }
    }
    if let RouteTableReply::LocalAnnouncements(map) = local {
        if map@.contains_key(vni) && map@[vni]@.contains_key(dest) {
            assert(map@[vni]@[dest]@.to_set().contains(nh) == map@[vni]@[dest]@.contains(nh));
            if map@[vni]@[dest]@.contains(nh) {
                assert(hops_of(own, vni, dest).contains(nh));
                let r = choose|r: Route|
                    own.contains(r) && r.vni == vni && r.destination == dest && r.next_hop == nh;
                assert(r.peer is None);
                assert(there(table@, vni, dest, nh, None));
            }
        }
        if there(table@, vni, dest, nh, None) {
            assert(there(own, vni, dest, nh, None));
            assert(vnis_of(own).contains(vni));
            assert(map@.dom().contains(vni));
            assert(destinations_of(own, vni).contains(dest));
            assert(map@[vni]@.dom().contains(dest));
            assert(hops_of(own, vni, dest).contains(nh));
            assert(map@[vni]@[dest]@.to_set().contains(nh));
        }
    }
}

/// What the watchers are told: of an announced route that it was added, of a route
/// that is taken out that it was removed, one for each, and of nothing else.
pub proof fn lemma_table_notices(
    table: RouteTable,
    command: RouteTableCommand,
    reply: RouteTableReply,
    i: int,
)
    requires
        table.is_attached(),
        table.answers(command, reply),
    ensures
        ({
            let notices = table.notices(command, reply);
            match command {
                RouteTableCommand::AddNextHop(vni, dest, nh, peer) => notices.len() == 1
                    && notices[0] == RouteTableMsg::RouteAdded(vni, dest, nh, peer),
                RouteTableCommand::RemoveNextHop(vni, dest, nh, peer) => if there(
                    table@,
                    vni,
                    dest,
                    nh,
                    peer,
                ) {
                    notices.len() == 1 && notices[0] == RouteTableMsg::RouteRemoved(
                        vni,
                        dest,
                        nh,
                        peer,
                    )
                } else {
                    notices.len() == 0
                },
                RouteTableCommand::RemoveRoutesFromPeer(peer) => {
                    reply matches RouteTableReply::RoutesRemoved(list) && notices.len()
                        == list@.len() && (0 <= i < notices.len() ==> notices[i]
                        == RouteTableMsg::RouteRemoved(
                        list@[i].0,
                        list@[i].1,
                        list@[i].2,
                        Some(peer),
                    ))
                },
                _ => notices.len() == 0,
            }
        }),
{
    if let RouteTableCommand::RemoveNextHop(vni, dest, nh, peer) = command {
        lemma_removal_errors(table, vni, dest, nh, peer);
    }
}

} // verus!
