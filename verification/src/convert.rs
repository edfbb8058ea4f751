//! Destinations and next hops as they go over the wire.

use crate::net::{lemma_octets_roundtrip, lemma_prefix_parts, InvalidAddressLength, IpAddr, IpNet};
use crate::pb;
use crate::pb::NextHopType;
use crate::types::{Destination, IpVersion, NextHop};
use vstd::prelude::*;

verus! {

/// Why a destination or a next hop from the wire is none.
#[derive(Debug, Clone, Copy, PartialEq, Eq, Structural)]
pub enum ConversionError {
    /// The bytes of the address are neither four nor sixteen.
    AddressLength(usize),
    /// The prefix length is more than the bits of the address.
    PrefixLength(u8),
}

/// How a destination goes over the wire.
pub open spec fn destination_message(dest: Destination) -> pb::DestinationView {
    pb::DestinationView {
        ip_version: match dest.ip_version() {
            IpVersion::V4 => pb::IpVersion::IPv4.number(),
            IpVersion::V6 => pb::IpVersion::IPv6.number(),
        },
        prefix: dest.prefix.addr().octets(),
        prefix_length: dest.prefix.prefix_len() as u32,
    }
}

/// The destination that came over the wire. The bytes of the address tell its
/// family, and of the prefix length only the last eight bits count.
pub open spec fn message_destination(message: pb::DestinationView) -> Result<
    Destination,
    ConversionError,
> {
    let len = (message.prefix_length % 256) as u8;
    match IpAddr::of_octets(message.prefix) {
        None => Err(ConversionError::AddressLength(message.prefix.len() as usize)),
        Some(addr) => if len <= addr.width() {
            Ok(Destination { prefix: IpNet::of(addr, len) })
        } else {
            Err(ConversionError::PrefixLength(len))
        },
    }
}

/// How a next hop goes over the wire.
pub open spec fn next_hop_message(nh: NextHop) -> pb::NextHopView {
    pb::NextHopView {
        target_address: nh.target_address.octets(),
        target_vni: nh.target_vni,
        hop_type: nh.hop_type.number(),
        nat_port_range_from: nh.nat_port_range_from as u32,
        nat_port_range_to: nh.nat_port_range_to as u32,
    }
}

/// The next hop type with a number; `Standard` where there is none.
pub open spec fn hop_type_or_standard(number: i32) -> NextHopType {
    if number == 1 {
        NextHopType::Nat
    } else if number == 2 {
        NextHopType::LoadbalancerTarget
    } else {
        NextHopType::Standard
    }
}

/// The next hop that came over the wire. Of the ports only the last sixteen bits
/// count.
pub open spec fn message_next_hop(message: pb::NextHopView) -> Result<NextHop, ConversionError> {
    match IpAddr::of_octets(message.target_address) {
        None => Err(ConversionError::AddressLength(message.target_address.len() as usize)),
        Some(target_address) => Ok(
            NextHop {
                target_address,
                target_vni: message.target_vni,
                hop_type: hop_type_or_standard(message.hop_type),
                nat_port_range_from: (message.nat_port_range_from % 0x1_0000) as u16,
                nat_port_range_to: (message.nat_port_range_to % 0x1_0000) as u16,
            },
        ),
    }
}

impl TryFrom<pb::Destination> for Destination {
    type Error = ConversionError;

    fn try_from(pb_dest: pb::Destination) -> (r: Result<Self, ConversionError>) {
        let addr = match IpAddr::from_slice(pb_dest.prefix.as_slice()) {
            Ok(addr) => addr,
            Err(InvalidAddressLength(len)) => {
                return Err(ConversionError::AddressLength(len));
            },
        };
        let low: u32 = pb_dest.prefix_length % 256;
        let len: u8 = low as u8;
        match IpNet::new(addr, len) {
            Ok(prefix) => Ok(Destination { prefix }),
            Err(_) => Err(ConversionError::PrefixLength(len)),
        }
    }
}

impl vstd::std_specs::convert::TryFromSpecImpl<pb::Destination> for Destination {
    open spec fn obeys_try_from_spec() -> bool {
        true
    }

    open spec fn try_from_spec(pb_dest: pb::Destination) -> Result<Self, ConversionError> {
        message_destination(pb_dest@)
    }
}

impl TryFrom<Destination> for pb::Destination {
    type Error = ConversionError;

    fn try_from(dest: Destination) -> (r: Result<Self, ConversionError>)
        ensures
            r matches Ok(message) && message@ == destination_message(dest),
    {
        Ok(
            pb::Destination {
                ip_version: pb::IpVersion::from(dest.ip_version()).number(),
                prefix: dest.prefix.addr().addr_bytes_vec(),
                prefix_length: dest.prefix.prefix_len() as u32,
            },
        )
    }
}

impl vstd::std_specs::convert::TryFromSpecImpl<Destination> for pb::Destination {
    open spec fn obeys_try_from_spec() -> bool {
        false
    }

    open spec fn try_from_spec(dest: Destination) -> Result<Self, ConversionError> {
        arbitrary()
    }
}

impl TryFrom<pb::NextHop> for NextHop {
    type Error = ConversionError;

    fn try_from(pb_nh: pb::NextHop) -> (r: Result<Self, ConversionError>) {
        let target_address = match IpAddr::from_slice(pb_nh.target_address.as_slice()) {
            Ok(addr) => addr,
            Err(InvalidAddressLength(len)) => {
                return Err(ConversionError::AddressLength(len));
            },
        };
        let hop_type = match NextHopType::try_from(pb_nh.hop_type) {
            Ok(hop_type) => hop_type,
            Err(_) => NextHopType::Standard,
        };
        let from: u32 = pb_nh.nat_port_range_from % 0x1_0000;
        let to: u32 = pb_nh.nat_port_range_to % 0x1_0000;
        Ok(
            NextHop {
                target_address,
                target_vni: pb_nh.target_vni,
                hop_type,
                nat_port_range_from: from as u16,
                nat_port_range_to: to as u16,
            },
        )
    }
}

impl vstd::std_specs::convert::TryFromSpecImpl<pb::NextHop> for NextHop {
    open spec fn obeys_try_from_spec() -> bool {
        true
    }

    open spec fn try_from_spec(pb_nh: pb::NextHop) -> Result<Self, ConversionError> {
        message_next_hop(pb_nh@)
    }
}

impl TryFrom<NextHop> for pb::NextHop {
    type Error = ConversionError;

    fn try_from(nh: NextHop) -> (r: Result<Self, ConversionError>)
        ensures
            r matches Ok(message) && message@ == next_hop_message(nh),
    {
        Ok(
            pb::NextHop {
                target_address: nh.target_address.addr_bytes_vec(),
                target_vni: nh.target_vni,
                hop_type: nh.hop_type.number(),
                nat_port_range_from: nh.nat_port_range_from as u32,
                nat_port_range_to: nh.nat_port_range_to as u32,
            },
        )
    }
}

impl vstd::std_specs::convert::TryFromSpecImpl<NextHop> for pb::NextHop {
    open spec fn obeys_try_from_spec() -> bool {
        false
    }

    open spec fn try_from_spec(nh: NextHop) -> Result<Self, ConversionError> {
        arbitrary()
    }
}

/// A destination that went over the wire is the same on the other side.
pub proof fn lemma_destination_exchange(dest: Destination)
    requires
        dest.prefix.wf(),
    ensures
        message_destination(destination_message(dest)) == Ok::<Destination, ConversionError>(dest),
{
    lemma_octets_roundtrip(dest.prefix.addr());
    lemma_prefix_parts(dest.prefix, dest.prefix.addr(), dest.prefix.prefix_len());
}

/// A next hop that went over the wire is the same on the other side.
pub proof fn lemma_next_hop_exchange(nh: NextHop)
    ensures
        message_next_hop(next_hop_message(nh)) == Ok::<NextHop, ConversionError>(nh),
{
    lemma_octets_roundtrip(nh.target_address);
}

} // verus!
