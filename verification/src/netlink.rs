//! Which routes are installed on this host, and how.
//!
//! What is to be installed or removed is returned as a route message; somebody
//! else hands it to the kernel.

use crate::collections::{lemma_push_contains, lemma_take_next};
use crate::net::IpAddr;
use crate::pb::NextHopType;
use crate::types::{Destination, IpVersion, NextHop, Vni};
use std::collections::HashMap;
use vstd::prelude::*;
use vstd::std_specs::iter::IteratorSpec;

verus! {

broadcast use vstd::std_specs::hash::group_hash_axioms;

/// The protocol number that marks the routes of this program.
pub const METALBOND_RT_PROTO: u8 = 254;

/// The scope of routes that lead anywhere.
pub const RT_SCOPE_UNIVERSE: u8 = 0;

/// The type of routes to one host.
pub const RTN_UNICAST: u8 = 1;

/// What a route message says of a route.
#[derive(Debug, Clone, Copy, PartialEq, Eq, Structural)]
pub enum RouteAttribute {
    /// The network that the route leads to.
    Destination(IpAddr),
    /// The index of the interface that packets leave through.
    Oif(u32),
    /// The address that packets go to next.
    Gateway(IpAddr),
    /// Anything else.
    Other,
}

/// A route as the kernel has it.
#[derive(Debug)]
pub struct RouteMessage {
    pub address_family: IpVersion,
    pub destination_prefix_length: u8,
    /// The route table that it stands in.
    pub table: u32,
    pub protocol: u8,
    pub scope: u8,
    pub kind: u8,
    pub attributes: Vec<RouteAttribute>,
}

/// Why a route cannot be installed or removed.
#[derive(Debug, Clone, Copy, PartialEq, Eq, Structural)]
pub enum NetlinkError {
    /// There is no interface with the configured name.
    LinkNotFound,
    /// No route table is configured for the virtual network.
    NoTable(Vni),
    /// The table configured for the virtual network is none.
    InvalidTable(i32, Vni),
}

/// The index of the first interface among attributes.
pub open spec fn first_interface(attributes: Seq<RouteAttribute>) -> Option<u32>
    decreases attributes.len(),
{
    if attributes.len() == 0 {
        None
    } else {
        match attributes[0] {
            RouteAttribute::Oif(index) => Some(index),
            _ => first_interface(attributes.skip(1)),
        }
    }
}

/// The number of a table, which the kernel takes as an unsigned one.
pub open spec fn table_number(table_id: i32) -> u32 {
    if table_id >= 0 {
        table_id as u32
    } else {
        (table_id + 0x1_0000_0000) as u32
    }
}

impl RouteMessage {
    /// The index of the interface that packets leave through.
    pub fn output_interface(&self) -> (r: Option<u32>)
        ensures
            r == first_interface(self.attributes@),
    {
        assert(self.attributes@.skip(0) =~= self.attributes@);
        for i in 0..self.attributes.len()
            invariant
                first_interface(self.attributes@) == first_interface(self.attributes@.skip(i as int)),
        {
            if let RouteAttribute::Oif(index) = self.attributes[i] {
                return Some(index);
            }
            assert(self.attributes@.skip(i as int).skip(1) =~= self.attributes@.skip(i + 1));
        }
        None
    }

    /// Whether the route is one that this program installed in a table, through
    /// an interface.
    pub open spec fn is_metalbond_route(&self, table_id: u32, link_index: u32) -> bool {
        &&& self.table == table_id
        &&& self.protocol == METALBOND_RT_PROTO
        &&& first_interface(self.attributes@) == Some(link_index)
    }

    /// Whether the route is one that this program installed in a table, through
    /// an interface.
    pub fn belongs_to_metalbond(&self, table_id: u32, link_index: u32) -> (r: bool)
        ensures
            r == self.is_metalbond_route(table_id, link_index),
    {
        self.table == table_id && self.protocol == METALBOND_RT_PROTO && match
            self.output_interface() {
            Some(index) => index == link_index,
            None => false,
        }
    }
}

/// How routes are installed.
#[derive(Debug, Clone)]
pub struct NetlinkClientConfig {
    /// The route table for each virtual network.
    pub vni_table_map: HashMap<Vni, i32>,
    /// The name of the interface that packets leave through.
    pub link_name: String,
    /// Whether only IPv4 routes are installed.
    pub ipv4_only: bool,
}

/// Decides which routes are installed on this host.
#[derive(Debug)]
pub struct NetlinkClient {
    pub config: NetlinkClientConfig,
    pub tun_index: u32,
}

impl NetlinkClientConfig {
    /// The table for a virtual network, or why it has none.
    pub open spec fn table_for(&self, vni: Vni) -> Result<i32, NetlinkError> {
        if !self.vni_table_map@.contains_key(vni) {
            Err(NetlinkError::NoTable(vni))
        } else if self.vni_table_map@[vni] <= 0 {
            Err(NetlinkError::InvalidTable(self.vni_table_map@[vni], vni))
        } else {
            Ok(self.vni_table_map@[vni])
        }
    }

    /// The table for a virtual network, or why it has none.
    fn find_table(&self, vni: Vni) -> (r: Result<i32, NetlinkError>)
        ensures
            r == self.table_for(vni),
    {
        match self.vni_table_map.get(&vni) {
            None => Err(NetlinkError::NoTable(vni)),
            Some(table_id) => if *table_id <= 0 {
                Err(NetlinkError::InvalidTable(*table_id, vni))
            } else {
                Ok(*table_id)
            },
        }
    }

    /// The virtual networks whose tables are cleared when the program starts,
    /// with their tables: all but those whose table is none.
    pub fn tables_to_clear(&self) -> (tables: Vec<(Vni, u32)>)
        ensures
            tables@.no_duplicates(),
            forall|vni: Vni, table_id: u32| #[trigger]
                tables@.contains((vni, table_id)) == (self.vni_table_map@.contains_key(vni)
                    && self.vni_table_map@[vni] > 0 && self.vni_table_map@[vni] == table_id),
    {
        let mut vnis: Vec<Vni> = Vec::new();
        let keys = self.vni_table_map.keys();
        let ghost all = keys.remaining();
        for vni in it: keys
            invariant
                it.seq() == all,
                vnis@ == all.unref().take(it.index()),
        {
            vnis.push(*vni);
        }
        assert(vnis@ =~= all.unref());
        let mut tables: Vec<(Vni, u32)> = Vec::new();
        for i in 0..vnis.len()
            invariant
                vnis@.no_duplicates(),
                vnis@.to_set() == self.vni_table_map@.dom(),
                tables@.no_duplicates(),
                forall|vni: Vni, table_id: u32| #[trigger]
                    tables@.contains((vni, table_id)) == (vnis@.take(i as int).contains(vni)
                        && self.vni_table_map@[vni] > 0 && self.vni_table_map@[vni] == table_id),
        {
            let vni: Vni = vnis[i];
            proof {
                lemma_take_next(vnis@, i as int);
                assert(vnis@.to_set().contains(vni));
            }
            match self.find_table(vni) {
                Ok(table_id) => {
                    let entry = (vni, table_id as u32);
                    proof {
                        assert(!tables@.contains((vni, entry.1)));
                        lemma_push_contains(tables@, entry);
                    }
                    tables.push(entry);
                },
                Err(_) => {},
            }
        }
        proof {
            assert(vnis@.take(vnis@.len() as int) =~= vnis@);
            assert forall|vni: Vni| #[trigger]
                vnis@.contains(vni) == self.vni_table_map@.contains_key(vni) by {
                assert(vnis@.to_set().contains(vni) == vnis@.contains(vni));
            }
        }
        tables
    }
}

impl NetlinkClient {
    /// A client for the interface that has the configured name, if there is one.
    pub fn new(config: NetlinkClientConfig, link_index: Option<u32>) -> (r: Result<
        NetlinkClient,
        NetlinkError,
    >)
        ensures
            match link_index {
                Some(tun_index) => r == Ok::<NetlinkClient, NetlinkError>(
                    NetlinkClient { config, tun_index },
                ),
                None => r == Err::<NetlinkClient, NetlinkError>(NetlinkError::LinkNotFound),
            },
    {
        match link_index {
            Some(tun_index) => Ok(NetlinkClient { config, tun_index }),
            None => Err(NetlinkError::LinkNotFound),
        }
    }

    /// Whether `message` is the route to a destination in a table: it leaves
    /// through the client's interface, and goes to the next hop if that has an
    /// IPv6 address.
    pub open spec fn is_route(
        &self,
        message: RouteMessage,
        table: u32,
        dest: Destination,
        nexthop_ip: IpAddr,
    ) -> bool {
        &&& message.address_family == dest.ip_version()
        &&& message.destination_prefix_length == dest.prefix.prefix_len()
        &&& message.table == table
        &&& message.protocol == METALBOND_RT_PROTO
        &&& message.scope == RT_SCOPE_UNIVERSE
        &&& message.kind == RTN_UNICAST
        &&& message.attributes@ == seq![
            RouteAttribute::Destination(dest.prefix.masked()),
            RouteAttribute::Oif(self.tun_index),
        ] + match nexthop_ip {
            IpAddr::V4(_) => seq![],
            IpAddr::V6(_) => seq![RouteAttribute::Gateway(nexthop_ip)],
        }
    }

    /// The route to a destination in a table.
    pub fn build_route_message(&self, table_id: i32, dest: Destination, nexthop_ip: IpAddr) -> (r:
        RouteMessage)
        ensures
            self.is_route(r, table_number(table_id), dest, nexthop_ip),
    {
        let mut attributes: Vec<RouteAttribute> = Vec::new();
        attributes.push(RouteAttribute::Destination(dest.prefix.network()));
        attributes.push(RouteAttribute::Oif(self.tun_index));
        match nexthop_ip {
            IpAddr::V4(_) => {},
            IpAddr::V6(_) => attributes.push(RouteAttribute::Gateway(nexthop_ip)),
        }
        let table: u32 = if table_id >= 0 {
            table_id as u32
        } else {
            (table_id as i64 + 0x1_0000_0000) as u32
        };
        let message = RouteMessage {
            address_family: dest.ip_version(),
            destination_prefix_length: dest.prefix.prefix_len(),
            table,
            protocol: METALBOND_RT_PROTO,
            scope: RT_SCOPE_UNIVERSE,
            kind: RTN_UNICAST,
            attributes,
        };
        assert(message.attributes@ =~= seq![
            RouteAttribute::Destination(dest.prefix.masked()),
            RouteAttribute::Oif(self.tun_index),
        ] + match nexthop_ip {
            IpAddr::V4(_) => seq![],
            IpAddr::V6(_) => seq![RouteAttribute::Gateway(nexthop_ip)],
        });
        message
    }

    /// Whether `r` is what the client makes of a route: nothing where only IPv4
    /// routes are wanted and it is none, an error where its virtual network has
    /// no table, nothing where its next hop is not a standard one, and else the
    /// route in that table.
    pub open spec fn decides(
        &self,
        r: Result<Option<RouteMessage>, NetlinkError>,
        vni: Vni,
        dest: Destination,
        nexthop: NextHop,
    ) -> bool {
        if self.config.ipv4_only && !(dest.ip_version() is V4) {
            r == Ok::<Option<RouteMessage>, NetlinkError>(None)
        } else {
            match self.config.table_for(vni) {
                Err(error) => r == Err::<Option<RouteMessage>, NetlinkError>(error),
                Ok(table_id) => if !(nexthop.hop_type is Standard) {
                    r == Ok::<Option<RouteMessage>, NetlinkError>(None)
                } else {
                    r matches Ok(Some(message)) && self.is_route(
                        message,
                        table_id as u32,
                        dest,
                        nexthop.target_address,
                    )
                },
            }
        }
    }

    /// The route message for a route, if the client deals with it.
    fn route_message(&self, vni: Vni, dest: Destination, nexthop: NextHop) -> (r: Result<
        Option<RouteMessage>,
        NetlinkError,
    >)
        ensures
            self.decides(r, vni, dest, nexthop),
    {
        if self.config.ipv4_only && dest.ip_version() != IpVersion::V4 {
            return Ok(None);
        }
        match self.config.find_table(vni) {
            Err(error) => Err(error),
            Ok(table_id) => if nexthop.hop_type != NextHopType::Standard {
                Ok(None)
            } else {
                Ok(Some(self.build_route_message(table_id, dest, nexthop.target_address)))
            },
        }
    }

    /// The route to install for a route that was added, if there is one.
    pub fn add_route(&self, vni: Vni, dest: Destination, nexthop: NextHop) -> (r: Result<
        Option<RouteMessage>,
        NetlinkError,
    >)
        ensures
            self.decides(r, vni, dest, nexthop),
    {
        self.route_message(vni, dest, nexthop)
    }

    /// The route to remove for a route that is gone, if there is one.
    pub fn remove_route(&self, vni: Vni, dest: Destination, nexthop: NextHop) -> (r: Result<
        Option<RouteMessage>,
        NetlinkError,
    >)
        ensures
            self.decides(r, vni, dest, nexthop),
    {
        self.route_message(vni, dest, nexthop)
    }

    /// The table whose routes are cleared for a virtual network.
    pub fn clear_routes_for_vni(&self, vni: Vni) -> (r: Result<u32, NetlinkError>)
        ensures
            match self.config.table_for(vni) {
                Ok(table_id) => r == Ok::<u32, NetlinkError>(table_id as u32),
                Err(error) => r == Err::<u32, NetlinkError>(error),
            },
    {
        match self.config.find_table(vni) {
            Ok(table_id) => Ok(table_id as u32),
            Err(error) => Err(error),
        }
    }
}

/// What the client installs for a virtual network is among what it clears there,
/// and is not among what it clears in any other table.
pub proof fn lemma_installed_is_cleared(
    client: NetlinkClient,
    vni: Vni,
    dest: Destination,
    nexthop: NextHop,
    message: RouteMessage,
    table: u32,
)
    requires
        client.decides(Ok(Some(message)), vni, dest, nexthop),
    ensures
        client.config.table_for(vni) matches Ok(table_id) && message.is_metalbond_route(
            table,
            client.tun_index,
        ) == (table == table_id),
{
    reveal_with_fuel(first_interface, 3);
    let attributes = message.attributes@;
    assert(attributes.skip(1)[0] == attributes[1]);
}

} // verus!
