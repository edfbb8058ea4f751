//! Route exchange between virtual networks: the wire protocol, the peer state
//! machine, the route table and the decisions of a MetalBond node.
//!
//! The library holds no sockets and spawns no tasks. Each component is a value
//! that takes commands and events and says what to do next; the program around
//! it performs the input and output.

pub mod cli;
pub mod client;
pub mod codec;
pub mod collections;
pub mod convert;
pub mod http_server;
pub mod laws;
pub mod metalbond;
pub mod net;
pub mod netlink;
pub mod pb;
pub mod peer;
pub mod routetable;
pub mod sorting;
pub mod text;
pub mod types;
pub mod wire;

pub use crate::client::DummyClient;
pub use crate::metalbond::MetalBond;
pub use crate::netlink::{NetlinkClient, NetlinkClientConfig};
pub use crate::types::{Config, ConnectionState, Destination, NextHop, Vni};
