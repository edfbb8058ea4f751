//! What is given on the command line: announcements and route tables.

use crate::net::{parsed_address, IpAddr};
use crate::netlink::NetlinkClientConfig;
use crate::pb::{lowercased, next_hop_type_from_str, word_hop_type, NextHopType};
use crate::text::{parse_i32, parse_unsigned, parsed_i32, parsed_unsigned, parts, split, views};
use crate::types::{Destination, NextHop, Vni};
use std::collections::HashMap;
use vstd::prelude::*;

verus! {

broadcast use vstd::std_specs::hash::group_hash_axioms;

/// A route to announce.
#[derive(Debug, Clone, Copy, PartialEq, Eq, Structural)]
pub struct Announcement {
    pub vni: Vni,
    pub destination: Destination,
    pub next_hop: NextHop,
}

/// What is wrong with an announcement.
#[derive(Debug, Clone, Copy, PartialEq, Eq, Structural)]
pub enum AnnouncementError {
    /// It has not the form `vni#prefix#destHop[#type][#from#to]`.
    Malformed,
    InvalidVni,
    InvalidPrefix,
    InvalidNextHop,
    /// A NAT announcement has not the form `vni#prefix#destHop#NAT#from#to`.
    MalformedNat,
    InvalidFromPort,
    InvalidToPort,
    /// There is a port range, and the type is not NAT.
    UnexpectedPortRange,
}

/// What the parts of an announcement say, given what its prefix, its next hop
/// and its type are. The first thing that is wrong is reported.
pub open spec fn parts_announcement(
    parts: Seq<Seq<char>>,
    dest: Option<Destination>,
    hop_ip: Option<IpAddr>,
    named_type: NextHopType,
) -> Result<Announcement, AnnouncementError> {
    let hop_type = if parts.len() > 3 {
        named_type
    } else {
        NextHopType::Standard
    };
    if !(3 <= parts.len() <= 6) {
        Err(AnnouncementError::Malformed)
    } else if parsed_unsigned(parts[0], 0xffff_ffff) is None {
        Err(AnnouncementError::InvalidVni)
    } else if dest is None {
        Err(AnnouncementError::InvalidPrefix)
    } else if hop_ip is None {
        Err(AnnouncementError::InvalidNextHop)
    } else if hop_type is Nat && parts.len() != 6 {
        Err(AnnouncementError::MalformedNat)
    } else if hop_type is Nat && parsed_unsigned(parts[4], 0xffff) is None {
        Err(AnnouncementError::InvalidFromPort)
    } else if hop_type is Nat && parsed_unsigned(parts[5], 0xffff) is None {
        Err(AnnouncementError::InvalidToPort)
    } else if !(hop_type is Nat) && parts.len() > 4 {
        Err(AnnouncementError::UnexpectedPortRange)
    } else {
        Ok(
            Announcement {
                vni: parsed_unsigned(parts[0], 0xffff_ffff)->0 as u32,
                destination: dest->0,
                next_hop: NextHop {
                    target_address: hop_ip->0,
                    target_vni: 0,
                    hop_type,
                    nat_port_range_from: if hop_type is Nat {
                        parsed_unsigned(parts[4], 0xffff)->0 as u16
                    } else {
                        0
                    },
                    nat_port_range_to: if hop_type is Nat {
                        parsed_unsigned(parts[5], 0xffff)->0 as u16
                    } else {
                        0
                    },
                },
            },
        )
    }
}

/// Puts an announcement together from its parts, given what its prefix, its next
/// hop and its type are.
pub fn assemble_announcement(
    parts: &Vec<String>,
    dest: Option<Destination>,
    hop_ip: Option<IpAddr>,
    named_type: NextHopType,
) -> (r: Result<Announcement, AnnouncementError>)
    ensures
        r == parts_announcement(views(parts@), dest, hop_ip, named_type),
{
    let count: usize = parts.len();
    if count < 3 || count > 6 {
        return Err(AnnouncementError::Malformed);
    }
    let vni: u32 = match parse_unsigned(parts[0].as_str(), 0xffff_ffff) {
        Some(vni) => vni as u32,
        None => {
            return Err(AnnouncementError::InvalidVni);
        },
    };
    let destination = match dest {
        Some(destination) => destination,
        None => {
            return Err(AnnouncementError::InvalidPrefix);
        },
    };
    let target_address = match hop_ip {
        Some(address) => address,
        None => {
            return Err(AnnouncementError::InvalidNextHop);
        },
    };
    let hop_type = if count > 3 {
        named_type
    } else {
        NextHopType::Standard
    };
    let mut nat_port_range_from: u16 = 0;
    let mut nat_port_range_to: u16 = 0;
    if hop_type == NextHopType::Nat {
        if count != 6 {
            return Err(AnnouncementError::MalformedNat);
        }
        match parse_unsigned(parts[4].as_str(), 0xffff) {
            Some(port) => {
                nat_port_range_from = port as u16;
            },
            None => {
                return Err(AnnouncementError::InvalidFromPort);
            },
        }
        match parse_unsigned(parts[5].as_str(), 0xffff) {
            Some(port) => {
                nat_port_range_to = port as u16;
            },
            None => {
                return Err(AnnouncementError::InvalidToPort);
            },
        }
    } else if count > 4 {
        return Err(AnnouncementError::UnexpectedPortRange);
    }
    let next_hop = NextHop {
        target_address,
        target_vni: 0,
        hop_type,
        nat_port_range_from,
        nat_port_range_to,
    };
    Ok(Announcement { vni, destination, next_hop })
}

/// The announcement that a text is.
pub open spec fn text_announcement(text: Seq<char>) -> Result<Announcement, AnnouncementError> {
    let parts = parts(text, '#');
    parts_announcement(
        parts,
        if parts.len() > 1 {
            Destination::parsed(parts[1])
        } else {
            None
        },
        if parts.len() > 2 {
            parsed_address(parts[2])
        } else {
            None
        },
        if parts.len() > 3 {
            word_hop_type(lowercased(parts[3]))
        } else {
            NextHopType::Standard
        },
    )
}

/// Reads an announcement of the form `vni#prefix#destHop[#type][#from#to]`.
pub fn parse_announcement(text: &str) -> (r: Result<Announcement, AnnouncementError>)
    ensures
        r == text_announcement(text@),
{
    let parts = split(text, '#');
    let mut dest: Option<Destination> = None;
    let mut hop_ip: Option<IpAddr> = None;
    let mut named_type = NextHopType::Standard;
    if parts.len() > 1 {
        dest = match Destination::from_str(parts[1].as_str()) {
            Ok(destination) => Some(destination),
            Err(_) => None,
        };
    }
    if parts.len() > 2 {
        hop_ip = match IpAddr::from_str(parts[2].as_str()) {
            Ok(address) => Some(address),
            Err(_) => None,
        };
    }
    if parts.len() > 3 {
        named_type = next_hop_type_from_str(parts[3].as_str());
    }
    assemble_announcement(&parts, dest, hop_ip, named_type)
}

/// What is wrong with the tables that routes are installed in.
#[derive(Debug, Clone, Copy, PartialEq, Eq, Structural)]
pub enum MappingError {
    /// A mapping has not the form `vni#table`.
    Malformed,
    InvalidVni,
    /// The table is not a number.
    InvalidTable,
    /// The table is not positive.
    NoSuchTable(i32),
    /// Routes are to be installed, and no interface is given.
    MissingInterface,
}

/// The virtual network and the table that a text maps to each other.
pub open spec fn text_mapping(text: Seq<char>) -> Result<(Vni, i32), MappingError> {
    let parts = parts(text, '#');
    if parts.len() != 2 {
        Err(MappingError::Malformed)
    } else {
        match (parsed_unsigned(parts[0], 0xffff_ffff), parsed_i32(parts[1])) {
            (None, _) => Err(MappingError::InvalidVni),
            (Some(_), None) => Err(MappingError::InvalidTable),
            (Some(vni), Some(table)) => if table <= 0 {
                Err(MappingError::NoSuchTable(table as i32))
            } else {
                Ok((vni as u32, table as i32))
            },
        }
    }
}

/// Reads a mapping of the form `vni#table`.
pub fn parse_table_mapping(text: &str) -> (r: Result<(Vni, i32), MappingError>)
    ensures
        r == text_mapping(text@),
{
    let parts = split(text, '#');
    if parts.len() != 2 {
        return Err(MappingError::Malformed);
    }
    let vni: u32 = match parse_unsigned(parts[0].as_str(), 0xffff_ffff) {
        Some(vni) => vni as u32,
        None => {
            return Err(MappingError::InvalidVni);
        },
    };
    match parse_i32(parts[1].as_str()) {
        Some(table) => if table <= 0 {
            Err(MappingError::NoSuchTable(table))
        } else {
            Ok((vni, table))
        },
        None => Err(MappingError::InvalidTable),
    }
}

/// The tables that mappings give, a later one in place of an earlier one for the
/// same virtual network. The first mapping that is wrong is reported.
pub open spec fn mapped_tables(mappings: Seq<Seq<char>>) -> Result<Map<Vni, i32>, MappingError>
    decreases mappings.len(),
{
    if mappings.len() == 0 {
        Ok(Map::empty())
    } else {
        match mapped_tables(mappings.drop_last()) {
            Err(error) => Err(error),
            Ok(tables) => match text_mapping(mappings.last()) {
                Err(error) => Err(error),
                Ok((vni, table)) => Ok(tables.insert(vni, table)),
            },
        }
    }
}

/// An error in the first mappings is the error of all.
proof fn lemma_first_error(mappings: Seq<Seq<char>>, count: int)
    requires
        0 <= count <= mappings.len(),
        mapped_tables(mappings.take(count)) is Err,
    ensures
        mapped_tables(mappings) == mapped_tables(mappings.take(count)),
    decreases mappings.len() - count,
{
    if count < mappings.len() {
        assert(mappings.take(count + 1).drop_last() =~= mappings.take(count));
        lemma_first_error(mappings, count + 1);
    } else {
        assert(mappings.take(count) =~= mappings);
    }
}

/// Reads the tables that routes are installed in.
pub fn parse_table_mappings(mappings: &Vec<String>) -> (r: Result<HashMap<Vni, i32>, MappingError>)
    ensures
        match mapped_tables(views(mappings@)) {
            Ok(tables) => r matches Ok(map) && map@ == tables,
            Err(error) => r == Err::<HashMap<Vni, i32>, MappingError>(error),
        },
{
    let ghost texts = views(mappings@);
    let mut map: HashMap<Vni, i32> = HashMap::new();
    assert(texts.take(0) =~= Seq::empty());
    for i in 0..mappings.len()
        invariant
            texts == views(mappings@),
            mapped_tables(texts.take(i as int)) == Ok::<Map<Vni, i32>, MappingError>(map@),
    {
        proof {
            assert(texts.take(i + 1).drop_last() =~= texts.take(i as int));
            assert(texts.take(i + 1).last() == mappings@[i as int]@);
        }
        match parse_table_mapping(mappings[i].as_str()) {
            Ok((vni, table)) => {
                map.insert(vni, table);
            },
            Err(error) => {
                proof {
                    lemma_first_error(texts, i + 1);
                }
                return Err(error);
            },
        }
    }
    assert(texts.take(texts.len() as int) =~= texts);
    Ok(map)
}

/// How routes are installed, as the command line has it: not at all without
/// tables, and else through an interface, which has to be given.
pub fn netlink_config(install_routes: &Vec<String>, tun: Option<String>, ipv4_only: bool) -> (r:
    Result<Option<NetlinkClientConfig>, MappingError>)
    ensures
        if install_routes@.len() == 0 {
            r == Ok::<Option<NetlinkClientConfig>, MappingError>(None)
        } else if tun is None {
            r == Err::<Option<NetlinkClientConfig>, MappingError>(MappingError::MissingInterface)
        } else {
            match mapped_tables(views(install_routes@)) {
                Ok(tables) => r matches Ok(Some(config)) && config.vni_table_map@ == tables
                    && config.link_name == tun->0 && config.ipv4_only == ipv4_only,
                Err(error) => r == Err::<Option<NetlinkClientConfig>, MappingError>(error),
            }
        },
{
    if install_routes.len() == 0 {
        return Ok(None);
    }
    match tun {
        None => Err(MappingError::MissingInterface),
        Some(link_name) => match parse_table_mappings(install_routes) {
            Ok(vni_table_map) => Ok(
                Some(NetlinkClientConfig { vni_table_map, link_name, ipv4_only }),
            ),
            Err(error) => Err(error),
        },
    }
}

/// Every table that a command line gives is positive: of a configuration that was
/// read from one, no virtual network has an invalid table.
pub proof fn lemma_mapped_tables_positive(mappings: Seq<Seq<char>>, vni: Vni)
    ensures
        mapped_tables(mappings) matches Ok(tables) ==> (tables.contains_key(vni) ==> tables[vni]
            > 0),
    decreases mappings.len(),
{
    if mappings.len() > 0 {
        lemma_mapped_tables_positive(mappings.drop_last(), vni);
    }
}

} // verus!
