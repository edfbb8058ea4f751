//! What is installed on the host, and what the dashboard shows.

use crate::http_server::{shows_routes, DestinationRoutes, VnetRoutes};
use crate::net::{power_of_two, IpAddr, IpNet};
use crate::netlink::{
    first_interface, table_number, NetlinkClient, NetlinkClientConfig, NetlinkError, RouteAttribute,
    RouteMessage,
};
use crate::pb::NextHopType;
use crate::routetable::{destinations_of, hops_of, vnis_of, Route};
use crate::sorting::{sorted, text_before, Sortable};
use crate::types::{Destination, IpVersion, NextHop, Vni};
use vstd::arithmetic::power2::pow2;
use vstd::prelude::*;

verus! {

/// The number that an address is.
pub open spec fn number(addr: IpAddr) -> nat {
    match addr {
        IpAddr::V4(value) => value as nat,
        IpAddr::V6(value) => value as nat,
    }
}

/// Two addresses are of the same family.
pub open spec fn same_family(a: IpAddr, b: IpAddr) -> bool {
    (a is V4) == (b is V4)
}

/// How many bits of an address follow the first `len`.
pub open spec fn bits_after(addr: IpAddr, len: nat) -> nat {
    match addr {
        IpAddr::V4(_) => (32 - len) as nat,
        IpAddr::V6(_) => (128 - len) as nat,
    }
}

/// Two addresses have the same first `len` bits.
pub open spec fn same_start(a: IpAddr, b: IpAddr, len: nat) -> bool {
    &&& same_family(a, b)
    &&& number(a) / pow2(bits_after(a, len)) == number(b) / pow2(bits_after(a, len))
}

proof fn lemma_powers(n: nat)
    ensures
        power_of_two(n) == pow2(n),
        pow2(n) > 0,
    decreases n,
{
    if n == 0 {
        vstd::arithmetic::power2::lemma2_to64();
    } else {
        lemma_powers((n - 1) as nat);
        vstd::arithmetic::power2::lemma_pow2_unfold(n);
    }
}

/// The network of a prefix is its least address: it begins as the prefix does, and
/// all the other bits are zero.
pub proof fn lemma_network(net: IpNet)
    requires
        net.wf(),
    ensures
        ({
            let low = net.masked();
            let len = net.prefix_len() as nat;
            let block = pow2(bits_after(net.addr(), len));
            &&& same_start(low, net.addr(), len)
            &&& number(low) % block == 0
            &&& number(low) <= number(net.addr())
            &&& number(net.addr()) - number(low) < block
        }),
{
    let len = net.prefix_len() as nat;
    let rest = bits_after(net.addr(), len);
    let block = pow2(rest);
    let value = number(net.addr());
    lemma_powers(rest);
    let high = value / block;
    assert(high * block <= value && value - high * block < block) by (nonlinear_arith)
        requires
            block > 0,
            high == value / block,
    ;
    assert((high * block) / block == high) by (nonlinear_arith)
        requires
            block > 0,
    ;
    assert((high * block) % block == 0) by (nonlinear_arith)
        requires
            block > 0,
    ;
}

/// A route message leads where its destination says: an address lies behind it, by
/// the address and the length that the message has, just if it lies in the prefix of
/// the destination. The length and the family are those of the prefix.
pub proof fn lemma_route_covers_prefix(
    client: NetlinkClient,
    message: RouteMessage,
    table: u32,
    dest: Destination,
    nexthop_ip: IpAddr,
    address: IpAddr,
    i: int,
)
    requires
        client.is_route(message, table, dest, nexthop_ip),
        dest.prefix.wf(),
        0 <= i < message.attributes@.len(),
    ensures
        message.destination_prefix_length == dest.prefix.prefix_len(),
        message.address_family == match dest.prefix.addr() {
            IpAddr::V4(_) => IpVersion::V4,
            IpAddr::V6(_) => IpVersion::V6,
        },
        message.attributes@[0] is Destination,
        message.attributes@[i] matches RouteAttribute::Destination(base) ==> {
            &&& same_start(address, base, message.destination_prefix_length as nat) <==> same_start(
                address,
                dest.prefix.addr(),
                dest.prefix.prefix_len() as nat,
            )
            &&& number(base) % pow2(bits_after(base, message.destination_prefix_length as nat)) == 0
        },
{
    lemma_network(dest.prefix);
}

/// Messages for different prefixes differ, in where they lead or how far they reach.
pub proof fn lemma_routes_differ(
    client: NetlinkClient,
    a: RouteMessage,
    b: RouteMessage,
    table: u32,
    left: Destination,
    right: Destination,
    nexthop_ip: IpAddr,
)
    requires
        client.is_route(a, table, left, nexthop_ip),
        client.is_route(b, table, right, nexthop_ip),
        left.prefix.masked() != right.prefix.masked() || left.prefix.prefix_len()
            != right.prefix.prefix_len(),
    ensures
        a.destination_prefix_length != b.destination_prefix_length || a.attributes@[0]
            != b.attributes@[0],
{
}

/// What else a route message says: the table, the mark of this program, the interface
/// and, if the next hop has an IPv6 address, the gateway; and nothing more.
pub proof fn lemma_route_message(
    client: NetlinkClient,
    message: RouteMessage,
    table: u32,
    dest: Destination,
    nexthop_ip: IpAddr,
    attribute: RouteAttribute,
)
    requires
        client.is_route(message, table, dest, nexthop_ip),
    ensures
        message.table == table,
        message.protocol == 254,
        message.scope == 0,
        message.kind == 1,
        message.attributes@.no_duplicates(),
        message.attributes@.contains(attribute) <==> match attribute {
            RouteAttribute::Destination(network) => network == dest.prefix.masked(),
            RouteAttribute::Oif(index) => index == client.tun_index,
            RouteAttribute::Gateway(gateway) => gateway == nexthop_ip && nexthop_ip is V6,
            RouteAttribute::Other => false,
        },
{
    let attributes = message.attributes@;
    assert(attributes[0] == RouteAttribute::Destination(dest.prefix.masked()));
    assert(attributes[1] == RouteAttribute::Oif(client.tun_index));
    if nexthop_ip is V6 {
        assert(attributes[2] == RouteAttribute::Gateway(nexthop_ip));
    }
}

/// Which routes the client deals with. In IPv4-only mode it leaves all others alone.
/// Of the rest, it refuses those of a virtual network without a positive table, leaves
/// alone those with a next hop that is not a standard one, and puts all others in the
/// table of their virtual network.
pub proof fn lemma_client_decisions(
    client: NetlinkClient,
    r: Result<Option<RouteMessage>, NetlinkError>,
    vni: Vni,
    dest: Destination,
    nh: NextHop,
)
    requires
        client.decides(r, vni, dest, nh),
    ensures
        ({
            let tables = client.config.vni_table_map@;
            let unwanted = client.config.ipv4_only && dest.prefix.addr() is V6;
            let standard = nh.hop_type == NextHopType::Standard;
            let usable = tables.contains_key(vni) && tables[vni] > 0;
            match r {
                Ok(Some(message)) => {
                    &&& !unwanted && usable && standard
                    &&& message.table == tables[vni]
                    &&& client.is_route(message, message.table, dest, nh.target_address)
                },
                Ok(None) => unwanted || (usable && !standard),
                Err(NetlinkError::NoTable(v)) => !unwanted && v == vni && !tables.contains_key(vni),
                Err(NetlinkError::InvalidTable(t, v)) => !unwanted && v == vni
                    && tables.contains_key(vni) && t == tables[vni] && t <= 0,
                Err(NetlinkError::LinkNotFound) => false,
            }
        }),
{
}

/// The table of a virtual network is the one that is configured for it, if that is
/// positive.
pub proof fn lemma_tables(config: NetlinkClientConfig, vni: Vni)
    ensures
        ({
            let tables = config.vni_table_map@;
            match config.table_for(vni) {
                Ok(t) => tables.contains_key(vni) && tables[vni] == t && t > 0,
                Err(e) => !(tables.contains_key(vni) && tables[vni] > 0) && e == if tables.contains_key(
                    vni,
                ) {
                    NetlinkError::InvalidTable(tables[vni], vni)
                } else {
                    NetlinkError::NoTable(vni)
                },
            }
        }),
{
}

/// A positive table is a table of that number, and the family of a destination is that
/// of its address.
pub proof fn lemma_table_and_family(table_id: i32, dest: Destination)
    ensures
        table_id >= 0 ==> table_number(table_id) == table_id,
        dest.ip_version() == IpVersion::V4 <==> dest.prefix.addr() is V4,
        dest.ip_version() == IpVersion::V6 <==> dest.prefix.addr() is V6,
{
}

/// The interface of a route is the first that its attributes name.
pub proof fn lemma_first_interface(attributes: Seq<RouteAttribute>)
    ensures
        match first_interface(attributes) {
            Some(index) => exists|i: int|
                0 <= i < attributes.len() && #[trigger] attributes[i] == RouteAttribute::Oif(index)
                    && forall|j: int| 0 <= j < i ==> !(#[trigger] attributes[j] is Oif),
            None => forall|j: int|
                0 <= j < attributes.len() ==> !(#[trigger] attributes[j] is Oif),
        },
    decreases attributes.len(),
{
    if attributes.len() > 0 {
        let rest = attributes.skip(1);
        lemma_first_interface(rest);
        if attributes[0] is Oif {
            assert(attributes[0] == RouteAttribute::Oif(first_interface(attributes)->0));
        } else {
            match first_interface(rest) {
                Some(index) => {
                    let i = choose|i: int|
                        0 <= i < rest.len() && #[trigger] rest[i] == RouteAttribute::Oif(index)
                            && forall|j: int| 0 <= j < i ==> !(#[trigger] rest[j] is Oif);
                    assert(attributes[i + 1] == RouteAttribute::Oif(index));
                    assert forall|j: int| 0 <= j < i + 1 implies !(#[trigger] attributes[j]
                        is Oif) by {
                        if j > 0 {
                            assert(rest[j - 1] == attributes[j]);
                        }
                    }
                },
                None => {
                    assert forall|j: int| 0 <= j < attributes.len() implies !(#[trigger] attributes[j]
                        is Oif) by {
                        if j > 0 {
                            assert(rest[j - 1] == attributes[j]);
                        }
                    }
                },
            }
        }
    }
}

/// A route is cleared only if it stands in the table, bears the mark of this program
/// and leaves through the interface; and then it is.
pub proof fn lemma_cleared_routes(message: RouteMessage, table: u32, link: u32)
    ensures
        message.is_metalbond_route(table, link) <==> message.table == table && message.protocol
            == 254 && exists|i: int|
            0 <= i < message.attributes@.len() && #[trigger] message.attributes@[i]
                == RouteAttribute::Oif(link) && forall|j: int|
                0 <= j < i ==> !(#[trigger] message.attributes@[j] is Oif),
{
    let attributes = message.attributes@;
    lemma_first_interface(attributes);
    if exists|i: int|
        0 <= i < attributes.len() && #[trigger] attributes[i] == RouteAttribute::Oif(link)
            && forall|j: int| 0 <= j < i ==> !(#[trigger] attributes[j] is Oif) {
        let i = choose|i: int|
            0 <= i < attributes.len() && #[trigger] attributes[i] == RouteAttribute::Oif(link)
                && forall|j: int| 0 <= j < i ==> !(#[trigger] attributes[j] is Oif);
        assert(attributes[i] is Oif);
        let index = first_interface(attributes)->0;
        let k = choose|k: int|
            0 <= k < attributes.len() && #[trigger] attributes[k] == RouteAttribute::Oif(index)
                && forall|j: int| 0 <= j < k ==> !(#[trigger] attributes[j] is Oif);
        assert(attributes[k] is Oif);
        assert(i == k);
    }
}

/// Destinations are listed by family, IPv4 first, then by address, then by how many
/// bits count.
pub proof fn lemma_destination_order_meaning(a: Destination, b: Destination)
    ensures
        ({
            let (x, y) = (a.prefix.addr(), b.prefix.addr());
            a.before(b) <==> if !same_family(x, y) {
                x is V4
            } else if number(x) != number(y) {
                number(x) < number(y)
            } else {
                a.prefix.prefix_len() < b.prefix.prefix_len()
            }
        }),
{
}

/// Next hops are ordered by address, then by virtual network, then by type, then by
/// the ends of the port range.
pub proof fn lemma_next_hop_order_meaning(a: NextHop, b: NextHop)
    ensures
        ({
            let (x, y) = (a.target_address, b.target_address);
            let rank = |t: NextHopType|
                match t {
                    NextHopType::Standard => 0int,
                    NextHopType::Nat => 1,
                    NextHopType::LoadbalancerTarget => 2,
                };
            a.before(b) <==> if !same_family(x, y) {
                x is V4
            } else if number(x) != number(y) {
                number(x) < number(y)
            } else if a.target_vni != b.target_vni {
                a.target_vni < b.target_vni
            } else if a.hop_type != b.hop_type {
                rank(a.hop_type) < rank(b.hop_type)
            } else if a.nat_port_range_from != b.nat_port_range_from {
                a.nat_port_range_from < b.nat_port_range_from
            } else {
                a.nat_port_range_to < b.nat_port_range_to
            }
        }),
{
}

/// A text comes before another if, where they first differ, its character is the
/// lesser one or it has ended.
pub proof fn lemma_text_order_meaning(a: Seq<char>, b: Seq<char>)
    ensures
        text_before(a, b) <==> exists|i: int|
            0 <= i <= a.len() && i < b.len() && #[trigger] a.take(i) == b.take(i) && (i == a.len()
                || a[i] < b[i]),
    decreases a.len(),
{
    if a.len() == 0 || b.len() == 0 {
        if a.len() < b.len() {
            assert(a.take(0) =~= b.take(0));
        }
    } else {
        let (x, y) = (a.skip(1), b.skip(1));
        lemma_text_order_meaning(x, y);
        if text_before(a, b) {
            if a[0] != b[0] {
                assert(a.take(0) =~= b.take(0));
            } else {
                let i = choose|i: int|
                    0 <= i <= x.len() && i < y.len() && #[trigger] x.take(i) == y.take(i) && (i
                        == x.len() || x[i] < y[i]);
                assert(a.take(i + 1) =~= seq![a[0]] + x.take(i));
                assert(b.take(i + 1) =~= seq![b[0]] + y.take(i));
            }
        }
        if exists|i: int|
            0 <= i <= a.len() && i < b.len() && #[trigger] a.take(i) == b.take(i) && (i == a.len()
                || a[i] < b[i]) {
            let i = choose|i: int|
                0 <= i <= a.len() && i < b.len() && #[trigger] a.take(i) == b.take(i) && (i
                    == a.len() || a[i] < b[i]);
            if i > 0 {
                assert(a.take(i)[0] == b.take(i)[0]);
                assert(x.take(i - 1) =~= a.take(i).skip(1));
                assert(y.take(i - 1) =~= b.take(i).skip(1));
            }
        }
    }
}

/// The dashboard shows every route once, by its virtual network, destination and next
/// hop, and no others.
pub proof fn lemma_dashboard_is_complete(
    rows: Seq<VnetRoutes>,
    routes: Set<Route>,
    vni: Vni,
    dest: Destination,
    nh: NextHop,
)
    requires
        shows_routes(rows, routes),
    ensures
        (exists|r: Route|
            routes.contains(r) && r.vni == vni && r.destination == dest && r.next_hop == nh) <==> (
        exists|i: int, j: int|
            0 <= i < rows.len() && 0 <= j < rows[i].destinations@.len() && rows[i].vni == vni
                && #[trigger] rows[i].destinations@[j].destination == dest
                && rows[i].destinations@[j].next_hops@.contains(nh)),
{
    let vnis = rows.map_values(|row: VnetRoutes| row.vni);
    if exists|r: Route|
        routes.contains(r) && r.vni == vni && r.destination == dest && r.next_hop == nh {
        let r = choose|r: Route|
            routes.contains(r) && r.vni == vni && r.destination == dest && r.next_hop == nh;
        assert(vnis_of(routes).contains(vni));
        assert(vnis.to_set().contains(vni));
        let i = choose|i: int| 0 <= i < vnis.len() && vnis[i] == vni;
        let dests = rows[i].destinations@;
        let listed = dests.map_values(|row: DestinationRoutes| row.destination);
        assert(destinations_of(routes, vni).contains(dest));
        assert(listed.to_set().contains(dest));
        let j = choose|j: int| 0 <= j < listed.len() && listed[j] == dest;
        assert(dests[j].destination == dest);
        assert(hops_of(routes, vni, dest).contains(nh));
        assert(dests[j].next_hops@.to_set().contains(nh));
    }
    if exists|i: int, j: int|
        0 <= i < rows.len() && 0 <= j < rows[i].destinations@.len() && rows[i].vni == vni
            && #[trigger] rows[i].destinations@[j].destination == dest
            && rows[i].destinations@[j].next_hops@.contains(nh) {
        let (i, j) = choose|i: int, j: int|
            0 <= i < rows.len() && 0 <= j < rows[i].destinations@.len() && rows[i].vni == vni
                && #[trigger] rows[i].destinations@[j].destination == dest
                && rows[i].destinations@[j].next_hops@.contains(nh);
        let row = rows[i].destinations@[j];
        assert(row.next_hops@.to_set().contains(nh));
        assert(hops_of(routes, vni, dest).contains(nh));
    }
}

/// The dashboard is in order: virtual networks ascending, destinations in theirs, and
/// of two next hops the one whose text comes first stands first. None is shown twice.
pub proof fn lemma_dashboard_is_ordered(
    rows: Seq<VnetRoutes>,
    routes: Set<Route>,
    i: int,
    j: int,
    k: int,
    l: int,
)
    requires
        shows_routes(rows, routes),
        0 <= i < j < rows.len(),
        0 <= k < l < rows[i].destinations@.len(),
    ensures
        rows[i].vni < rows[j].vni,
        rows[i].destinations@[k].destination.before(rows[i].destinations@[l].destination),
        rows[i].destinations@[k].next_hops@.no_duplicates(),
        forall|m: int, n: int|
            0 <= m < n < rows[i].destinations@[k].next_hops@.len() ==> !text_before(
                (#[trigger] rows[i].destinations@[k].next_hops@[n]).text(),
                (#[trigger] rows[i].destinations@[k].next_hops@[m]).text(),
            ),
{
    let hops = rows[i].destinations@[k].next_hops@;
    assert(sorted(hops));
    assert forall|m: int, n: int| 0 <= m < n < hops.len() implies !text_before(
        (#[trigger] hops[n]).text(),
        (#[trigger] hops[m]).text(),
    ) by {
        assert(!hops[n].precedes(hops[m]));
    }
}

} // verus!
