//! The client for hosts on which no routes are installed.

use crate::netlink::NetlinkError;
use crate::types::{Destination, NextHop, Vni};
use vstd::prelude::*;

verus! {

/// A client that takes every route and installs none.
#[derive(Debug, Clone, Copy, PartialEq, Eq, Structural)]
pub struct DummyClient {}

impl DummyClient {
    pub fn new() -> (r: Result<DummyClient, NetlinkError>)
        ensures
            r == Ok::<DummyClient, NetlinkError>(DummyClient {  }),
    {
        Ok(DummyClient {  })
    }

    /// Takes a route that would be installed.
    pub fn add_route(&self, vni: Vni, dest: Destination, nexthop: NextHop) -> (r: Result<
        (),
        NetlinkError,
    >)
        ensures
            r == Ok::<(), NetlinkError>(()),
    {
        Ok(())
    }

    /// Takes a route that would be uninstalled.
    pub fn remove_route(&self, vni: Vni, dest: Destination, nexthop: NextHop) -> (r: Result<
        (),
        NetlinkError,
    >)
        ensures
            r == Ok::<(), NetlinkError>(()),
    {
        Ok(())
    }

    /// Takes a virtual network whose routes would be uninstalled.
    pub fn clear_routes_for_vni(&self, vni: Vni) -> (r: Result<(), NetlinkError>)
        ensures
            r == Ok::<(), NetlinkError>(()),
    {
        Ok(())
    }
}

} // verus!
