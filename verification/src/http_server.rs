//! What the dashboard shows of the routes.

use crate::routetable::{destinations_of, lists_hops, vnis_of, Route, RouteTable};
use crate::sorting::{sort, sorted, Sortable};
use crate::types::{lemma_destination_order, Destination, NextHop, Vni};
use vstd::prelude::*;

verus! {

/// A destination with its next hops.
#[derive(Debug)]
pub struct DestinationRoutes {
    pub destination: Destination,
    pub next_hops: Vec<NextHop>,
}

/// A virtual network with its destinations.
#[derive(Debug)]
pub struct VnetRoutes {
    pub vni: Vni,
    pub destinations: Vec<DestinationRoutes>,
}

/// Whether the next hops of a destination are listed, each once, in the order of
/// their texts.
pub open spec fn shows_hops(row: DestinationRoutes, routes: Set<Route>, vni: Vni) -> bool {
    sorted(row.next_hops@) && lists_hops(row.next_hops@, routes, vni, row.destination)
}

/// Whether the destinations of a virtual network are listed in their order, each
/// with its next hops.
pub open spec fn shows_destinations(
    rows: Seq<DestinationRoutes>,
    routes: Set<Route>,
    vni: Vni,
) -> bool {
    &&& forall|i: int, j: int|
        0 <= i < j < rows.len() ==> (#[trigger] rows[i]).destination.before(
            (#[trigger] rows[j]).destination,
        )
    &&& rows.map_values(|row: DestinationRoutes| row.destination).to_set() == destinations_of(
        routes,
        vni,
    )
    &&& forall|i: int| 0 <= i < rows.len() ==> shows_hops(#[trigger] rows[i], routes, vni)
}

/// Whether the virtual networks of routes are listed in ascending order, each
/// with its destinations.
pub open spec fn shows_routes(rows: Seq<VnetRoutes>, routes: Set<Route>) -> bool {
    &&& forall|i: int, j: int|
        0 <= i < j < rows.len() ==> (#[trigger] rows[i]).vni < (#[trigger] rows[j]).vni
    &&& rows.map_values(|row: VnetRoutes| row.vni).to_set() == vnis_of(routes)
    &&& forall|i: int|
        0 <= i < rows.len() ==> shows_destinations(
            (#[trigger] rows[i]).destinations@,
            routes,
            rows[i].vni,
        )
}

/// The destinations of a virtual network.
fn vnet_rows(table: &RouteTable, vni: Vni) -> (rows: Vec<DestinationRoutes>)
    requires
        table.wf(),
    ensures
        shows_destinations(rows@, table@, vni),
{
    let map = table.get_destinations_by_vni(vni);
    let dests = sort(&map.keys());
    let mut rows: Vec<DestinationRoutes> = Vec::new();
    for i in 0..dests.len()
        invariant
            table.wf(),
            map.wf(),
            crate::routetable::maps_destinations(map, table@, vni),
            dests@.no_duplicates(),
            sorted(dests@),
            dests@.to_set() == destinations_of(table@, vni),
            rows@.len() == i,
            forall|j: int| 0 <= j < i ==> (#[trigger] rows@[j]).destination == dests@[j],
            forall|j: int| 0 <= j < i ==> shows_hops(#[trigger] rows@[j], table@, vni),
    {
        let destination = dests[i];
        assert(dests@.to_set().contains(destination));
        let next_hops = match map.get(&destination) {
            Some(hops) => sort(hops),
            None => Vec::new(),
        };
        rows.push(DestinationRoutes { destination, next_hops });
    }
    proof {
        let listed = rows@.map_values(|row: DestinationRoutes| row.destination);
        assert(listed =~= dests@);
        assert forall|i: int, j: int| 0 <= i < j < rows@.len() implies (
        #[trigger] rows@[i]).destination.before((#[trigger] rows@[j]).destination) by {
            lemma_destination_order(dests@[i], dests@[j], dests@[i]);
        }
    }
    rows
}

/// The routes of a table: the virtual networks in ascending order, their
/// destinations in order, and the next hops in the order of their texts.
pub fn get_route_data(table: &RouteTable) -> (rows: Vec<VnetRoutes>)
    requires
        table.wf(),
    ensures
        shows_routes(rows@, table@),
{
    let vnis = sort(&table.get_vnis());
    let mut rows: Vec<VnetRoutes> = Vec::new();
    for i in 0..vnis.len()
        invariant
            table.wf(),
            vnis@.no_duplicates(),
            sorted(vnis@),
            vnis@.to_set() == vnis_of(table@),
            rows@.len() == i,
            forall|j: int| 0 <= j < i ==> (#[trigger] rows@[j]).vni == vnis@[j],
            forall|j: int|
                0 <= j < i ==> shows_destinations(
                    (#[trigger] rows@[j]).destinations@,
                    table@,
                    rows@[j].vni,
                ),
    {
        let vni: Vni = vnis[i];
        rows.push(VnetRoutes { vni, destinations: vnet_rows(table, vni) });
    }
    proof {
        assert(rows@.map_values(|row: VnetRoutes| row.vni) =~= vnis@);
        assert forall|i: int, j: int| 0 <= i < j < rows@.len() implies (#[trigger] rows@[i]).vni < (
        #[trigger] rows@[j]).vni by {
            assert(!vnis@[j].precedes(vnis@[i]));
        }
    }
    rows
}

/// A virtual network that is shown has destinations, and a destination that is
/// shown has next hops.
pub proof fn lemma_nothing_empty(rows: Seq<VnetRoutes>, routes: Set<Route>, i: int, j: int)
    requires
        shows_routes(rows, routes),
        0 <= i < rows.len(),
    ensures
        rows[i].destinations@.len() > 0,
        0 <= j < rows[i].destinations@.len() ==> rows[i].destinations@[j].next_hops@.len() > 0,
{
    let vni = rows[i].vni;
    let vnis = rows.map_values(|row: VnetRoutes| row.vni);
    assert(vnis[i] == vni);
    assert(vnis.to_set().contains(vni));
    let route = choose|r: Route| routes.contains(r) && r.vni == vni;
    let dests = rows[i].destinations@;
    let shown = dests.map_values(|row: DestinationRoutes| row.destination);
    assert(destinations_of(routes, vni).contains(route.destination));
    assert(shown.to_set().contains(route.destination));
    if 0 <= j < dests.len() {
        let dest = dests[j].destination;
        assert(shown[j] == dest);
        assert(shown.to_set().contains(dest));
        let route = choose|r: Route| routes.contains(r) && r.vni == vni && r.destination == dest;
        assert(crate::routetable::hops_of(routes, vni, dest).contains(route.next_hop));
        assert(dests[j].next_hops@.to_set().contains(route.next_hop));
    }
}

} // verus!
