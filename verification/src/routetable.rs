//! The routes that a node knows, by virtual network, destination and next hop,
//! with the peers that announced them.

use crate::collections::{lemma_push_contains, lemma_take_next, VecMap, VecSet};
use crate::net::SocketAddr;
use crate::types::{Destination, NextHop, Vni};
use vstd::prelude::*;

verus! {

/// Who announced a route: a peer, or the node itself where there is none.
pub type PeerKey = Option<SocketAddr>;

/// A route as one of its announcers announced it.
#[derive(Debug, Clone, Copy, PartialEq, Eq, Structural)]
pub struct Route {
    pub vni: Vni,
    pub destination: Destination,
    pub next_hop: NextHop,
    pub peer: PeerKey,
}

/// The next hops of a destination, with their announcers.
type HopMap = VecMap<NextHop, VecSet<PeerKey>>;

/// The destinations of a virtual network.
type DestinationMap = VecMap<Destination, HopMap>;

/// Every next hop has an announcer.
spec fn hops_wf(hops: HopMap) -> bool {
    &&& hops.wf()
    &&& forall|nh: NextHop|
        #[trigger] hops@.contains_key(nh) ==> hops@[nh].wf() && hops@[nh].has_members()
}

/// Every destination has a next hop.
spec fn destinations_wf(dests: DestinationMap) -> bool {
    &&& dests.wf()
    &&& forall|d: Destination|
        #[trigger] dests@.contains_key(d) ==> hops_wf(dests@[d]) && dests@[d].has_entries()
}

spec fn hops_contain(hops: HopMap, nh: NextHop, peer: PeerKey) -> bool {
    hops@.contains_key(nh) && hops@[nh]@.contains(peer)
}

spec fn destinations_contain(
    dests: DestinationMap,
    dest: Destination,
    nh: NextHop,
    peer: PeerKey,
) -> bool {
    dests@.contains_key(dest) && hops_contain(dests@[dest], nh, peer)
}

fn hops_add(hops: &mut HopMap, nh: NextHop, peer: PeerKey) -> (new: bool)
    requires
        hops_wf(*old(hops)),
    ensures
        hops_wf(*final(hops)),
        final(hops).has_entries(),
        new == !hops_contain(*old(hops), nh, peer),
        forall|n: NextHop, p: PeerKey|
            #![trigger hops_contain(*final(hops), n, p)]
            #![trigger hops_contain(*old(hops), n, p)]
            hops_contain(*final(hops), n, p) == (hops_contain(*old(hops), n, p) || (n == nh && p
                == peer)),
{
    let mut peers = match hops.remove(&nh) {
        Some(peers) => peers,
        None => VecSet::new(),
    };
    let new = peers.insert(peer);
    assert(peers@.contains(peer));
    hops.insert(nh, peers);
    assert(hops@.contains_key(nh));
    new
}

fn destinations_add(dests: &mut DestinationMap, dest: Destination, nh: NextHop, peer: PeerKey) -> (new:
    bool)
    requires
        destinations_wf(*old(dests)),
    ensures
        destinations_wf(*final(dests)),
        final(dests).has_entries(),
        new == !destinations_contain(*old(dests), dest, nh, peer),
        forall|d: Destination, n: NextHop, p: PeerKey|
            #![trigger destinations_contain(*final(dests), d, n, p)]
            #![trigger destinations_contain(*old(dests), d, n, p)]
            destinations_contain(*final(dests), d, n, p) == (destinations_contain(
                *old(dests),
                d,
                n,
                p,
            ) || (d == dest && n == nh && p == peer)),
{
    let mut hops = match dests.remove(&dest) {
        Some(hops) => hops,
        None => VecMap::new(),
    };
    let new = hops_add(&mut hops, nh, peer);
    dests.insert(dest, hops);
    assert(dests@.contains_key(dest));
    new
}

/// Takes one announcer away from a next hop and returns how many are left. A
/// next hop without announcers goes.
fn hops_remove(hops: &mut HopMap, nh: NextHop, peer: PeerKey) -> (remaining: usize)
    requires
        hops_wf(*old(hops)),
        hops_contain(*old(hops), nh, peer),
    ensures
        hops_wf(*final(hops)),
        old(hops)@[nh]@.finite(),
        remaining == old(hops)@[nh]@.remove(peer).len(),
        forall|n: NextHop, p: PeerKey|
            #![trigger hops_contain(*final(hops), n, p)]
            #![trigger hops_contain(*old(hops), n, p)]
            hops_contain(*final(hops), n, p) == (hops_contain(*old(hops), n, p) && !(n == nh && p
                == peer)),
{
    let mut peers = match hops.remove(&nh) {
        Some(peers) => peers,
        None => VecSet::new(),
    };
    let _ = peers.len();
    peers.remove(&peer);
    let remaining: usize = peers.len();
    if !peers.is_empty() {
        hops.insert(nh, peers);
    }
    remaining
}

/// Takes one announcer away from a next hop of a destination. A destination
/// without next hops goes.
fn destinations_remove(
    dests: &mut DestinationMap,
    dest: Destination,
    nh: NextHop,
    peer: PeerKey,
) -> (remaining: usize)
    requires
        destinations_wf(*old(dests)),
        destinations_contain(*old(dests), dest, nh, peer),
    ensures
        destinations_wf(*final(dests)),
        old(dests)@[dest]@[nh]@.finite(),
        remaining == old(dests)@[dest]@[nh]@.remove(peer).len(),
        forall|d: Destination, n: NextHop, p: PeerKey|
            #![trigger destinations_contain(*final(dests), d, n, p)]
            #![trigger destinations_contain(*old(dests), d, n, p)]
            destinations_contain(*final(dests), d, n, p) == (destinations_contain(
                *old(dests),
                d,
                n,
                p,
            ) && !(d == dest && n == nh && p == peer)),
{
    let mut hops = match dests.remove(&dest) {
        Some(hops) => hops,
        None => VecMap::new(),
    };
    let remaining: usize = hops_remove(&mut hops, nh, peer);
    if !hops.is_empty() {
        dests.insert(dest, hops);
    }
    remaining
}

/// Takes a peer away from all the next hops that it announced, and returns them.
fn hops_drop_peer(hops: &mut HopMap, peer: PeerKey) -> (removed: Vec<NextHop>)
    requires
        hops_wf(*old(hops)),
    ensures
        hops_wf(*final(hops)),
        removed@.no_duplicates(),
        forall|n: NextHop| #[trigger] removed@.contains(n) == hops_contain(*old(hops), n, peer),
        forall|n: NextHop, p: PeerKey|
            #![trigger hops_contain(*final(hops), n, p)]
            #![trigger hops_contain(*old(hops), n, p)]
            hops_contain(*final(hops), n, p) == (hops_contain(*old(hops), n, p) && p != peer),
{
    let ghost before = *hops;
    let keys = hops.keys();
    let mut removed: Vec<NextHop> = Vec::new();
    for i in 0..keys.len()
        invariant
            before == *old(hops),
            hops_wf(before),
            hops_wf(*hops),
            keys@.no_duplicates(),
            keys@.to_set() == before@.dom(),
            removed@.no_duplicates(),
            forall|n: NextHop|
                #[trigger] removed@.contains(n) == (keys@.take(i as int).contains(n) && hops_contain(
                    before,
                    n,
                    peer,
                )),
            forall|n: NextHop, p: PeerKey|
                #[trigger] hops_contain(*hops, n, p) == (hops_contain(before, n, p) && !(p == peer
                    && keys@.take(i as int).contains(n))),
    {
        let nh = keys[i];
        proof {
            lemma_take_next(keys@, i as int);
        }
        let found = match hops.get(&nh) {
            Some(peers) => peers.contains(&peer),
            None => false,
        };
        assert(hops_contain(*hops, nh, peer) == found);
        if found {
            hops_remove(hops, nh, peer);
            proof {
                assert(!removed@.contains(nh));
                lemma_push_contains(removed@, nh);
            }
            removed.push(nh);
        }
    }
    proof {
        assert(keys@.take(keys@.len() as int) =~= keys@);
        assert forall|n: NextHop, p: PeerKey| hops_contain(before, n, p) implies keys@.contains(
            n,
        ) by {
            assert(keys@.to_set().contains(n));
        }
    }
    removed
}

/// Appends the routes from a destination to its next hops.
fn push_hops(out: &mut Vec<(Destination, NextHop)>, dest: Destination, hops: &Vec<NextHop>)
    requires
        old(out)@.no_duplicates(),
        hops@.no_duplicates(),
        forall|n: NextHop| !#[trigger] old(out)@.contains((dest, n)),
    ensures
        final(out)@.no_duplicates(),
        forall|d: Destination, n: NextHop| #[trigger]
            final(out)@.contains((d, n)) == (old(out)@.contains((d, n)) || (d == dest
                && hops@.contains(n))),
{
    let ghost before = out@;
    for j in 0..hops.len()
        invariant
            before == old(out)@,
            forall|n: NextHop| !#[trigger] before.contains((dest, n)),
            hops@.no_duplicates(),
            out@.no_duplicates(),
            forall|d: Destination, n: NextHop| #[trigger]
                out@.contains((d, n)) == (before.contains((d, n)) || (d == dest && hops@.take(
                    j as int,
                ).contains(n))),
    {
        let item = (dest, hops[j]);
        proof {
            lemma_take_next(hops@, j as int);
            assert(!out@.contains((dest, hops@[j as int])));
            lemma_push_contains(out@, item);
        }
        out.push(item);
    }
    assert(hops@.take(hops@.len() as int) =~= hops@);
}

/// Appends the routes of a virtual network.
fn push_routes(
    out: &mut Vec<(Vni, Destination, NextHop)>,
    vni: Vni,
    routes: &Vec<(Destination, NextHop)>,
)
    requires
        old(out)@.no_duplicates(),
        routes@.no_duplicates(),
        forall|d: Destination, n: NextHop| !#[trigger] old(out)@.contains((vni, d, n)),
    ensures
        final(out)@.no_duplicates(),
        forall|v: Vni, d: Destination, n: NextHop| #[trigger]
            final(out)@.contains((v, d, n)) == (old(out)@.contains((v, d, n)) || (v == vni
                && routes@.contains((d, n)))),
{
    let ghost before = out@;
    for j in 0..routes.len()
        invariant
            before == old(out)@,
            forall|d: Destination, n: NextHop| !#[trigger] before.contains((vni, d, n)),
            routes@.no_duplicates(),
            out@.no_duplicates(),
            forall|v: Vni, d: Destination, n: NextHop| #[trigger]
                out@.contains((v, d, n)) == (before.contains((v, d, n)) || (v == vni
                    && routes@.take(j as int).contains((d, n)))),
    {
        let item = (vni, routes[j].0, routes[j].1);
        proof {
            lemma_take_next(routes@, j as int);
            let (d, n) = routes@[j as int];
            assert(!out@.contains((vni, d, n)));
            lemma_push_contains(out@, item);
        }
        out.push(item);
    }
    assert(routes@.take(routes@.len() as int) =~= routes@);
}

/// Takes a peer away from all the routes that it announced, and returns them.
fn destinations_drop_peer(dests: &mut DestinationMap, peer: PeerKey) -> (removed: Vec<
    (Destination, NextHop),
>)
    requires
        destinations_wf(*old(dests)),
    ensures
        destinations_wf(*final(dests)),
        removed@.no_duplicates(),
        forall|d: Destination, n: NextHop| #[trigger]
            removed@.contains((d, n)) == destinations_contain(*old(dests), d, n, peer),
        forall|d: Destination, n: NextHop, p: PeerKey|
            #![trigger destinations_contain(*final(dests), d, n, p)]
            #![trigger destinations_contain(*old(dests), d, n, p)]
            destinations_contain(*final(dests), d, n, p) == (destinations_contain(
                *old(dests),
                d,
                n,
                p,
            ) && p != peer),
{
    let ghost before = *dests;
    let keys = dests.keys();
    let mut removed: Vec<(Destination, NextHop)> = Vec::new();
    for i in 0..keys.len()
        invariant
            before == *old(dests),
            destinations_wf(before),
            destinations_wf(*dests),
            keys@.no_duplicates(),
            keys@.to_set() == before@.dom(),
            removed@.no_duplicates(),
            forall|d: Destination, n: NextHop| #[trigger]
                removed@.contains((d, n)) == (keys@.take(i as int).contains(d)
                    && destinations_contain(before, d, n, peer)),
            forall|d: Destination, n: NextHop, p: PeerKey|
                #![trigger destinations_contain(*dests, d, n, p)]
                #![trigger destinations_contain(before, d, n, p)]
                destinations_contain(*dests, d, n, p) == (destinations_contain(before, d, n, p)
                    && !(p == peer && keys@.take(i as int).contains(d))),
    {
        let dest = keys[i];
        proof {
            lemma_take_next(keys@, i as int);
        }
        let ghost middle = *dests;
        match dests.remove(&dest) {
            Some(mut hops) => {
                let ghost hops_before = hops;
                let gone = hops_drop_peer(&mut hops, peer);
                if !hops.is_empty() {
                    dests.insert(dest, hops);
                }
                push_hops(&mut removed, dest, &gone);
                assert forall|d: Destination, n: NextHop, p: PeerKey|
                    #![trigger destinations_contain(*dests, d, n, p)]
                    #![trigger destinations_contain(before, d, n, p)]
                    destinations_contain(*dests, d, n, p) == (destinations_contain(before, d, n, p)
                        && !(p == peer && keys@.take(i + 1).contains(d))) by {
                    assert(destinations_contain(middle, d, n, p) == (destinations_contain(
                        before,
                        d,
                        n,
                        p,
                    ) && !(p == peer && keys@.take(i as int).contains(d))));
                    if d == dest {
                        assert(destinations_contain(middle, d, n, p) == hops_contain(
                            hops_before,
                            n,
                            p,
                        ));
                        assert(destinations_contain(*dests, d, n, p) == hops_contain(hops, n, p));
                    }
                }
            },
            None => {
                assert(dests@ =~= middle@);
            },
        }
    }
    proof {
        assert(keys@.take(keys@.len() as int) =~= keys@);
        assert forall|d: Destination, n: NextHop, p: PeerKey| #[trigger]
            destinations_contain(before, d, n, p) implies keys@.contains(d) by {
            assert(keys@.to_set().contains(d));
        }
    }
    removed
}

/// The next hops of the destinations of a virtual network.
fn destinations_hops(dests: &DestinationMap) -> (result: VecMap<Destination, Vec<NextHop>>)
    requires
        destinations_wf(*dests),
    ensures
        result.wf(),
        result@.dom() == dests@.dom(),
        forall|d: Destination| #[trigger]
            result@.contains_key(d) ==> result@[d]@.no_duplicates() && result@[d]@.to_set()
                == dests@[d]@.dom(),
{
    let mut result: VecMap<Destination, Vec<NextHop>> = VecMap::new();
    let count: usize = dests.len();
    for i in 0..count
        invariant
            count == dests.key_seq().len(),
            dests.key_seq().no_duplicates(),
            destinations_wf(*dests),
            result.wf(),
            forall|d: Destination| #[trigger]
                result@.contains_key(d) == dests.key_seq().take(i as int).contains(d),
            forall|d: Destination| #[trigger]
                result@.contains_key(d) ==> result@[d]@.no_duplicates() && result@[d]@.to_set()
                    == dests@[d]@.dom(),
    {
        let (dest, hops) = dests.entry(i);
        proof {
            lemma_take_next(dests.key_seq(), i as int);
        }
        result.insert(dest, hops.keys());
    }
    proof {
        assert(dests.key_seq().take(count as int) =~= dests.key_seq());
        assert forall|d: Destination| result@.dom().contains(d) == dests@.dom().contains(d) by {
            assert(result@.contains_key(d) == dests.key_seq().to_set().contains(d));
        }
        assert(result@.dom() =~= dests@.dom());
    }
    result
}

/// The announcers of the next hops of a destination.
fn hops_peers(hops: &HopMap) -> (result: VecMap<NextHop, Vec<PeerKey>>)
    requires
        hops_wf(*hops),
    ensures
        result.wf(),
        result@.dom() == hops@.dom(),
        forall|n: NextHop| #[trigger]
            result@.contains_key(n) ==> result@[n]@.no_duplicates() && result@[n]@.to_set()
                == hops@[n]@,
{
    let mut result: VecMap<NextHop, Vec<PeerKey>> = VecMap::new();
    let count: usize = hops.len();
    for i in 0..count
        invariant
            count == hops.key_seq().len(),
            hops.key_seq().no_duplicates(),
            hops_wf(*hops),
            result.wf(),
            forall|n: NextHop| #[trigger]
                result@.contains_key(n) == hops.key_seq().take(i as int).contains(n),
            forall|n: NextHop| #[trigger]
                result@.contains_key(n) ==> result@[n]@.no_duplicates() && result@[n]@.to_set()
                    == hops@[n]@,
    {
        let (nh, peers) = hops.entry(i);
        proof {
            lemma_take_next(hops.key_seq(), i as int);
        }
        result.insert(nh, peers.to_vec());
    }
    proof {
        assert(hops.key_seq().take(count as int) =~= hops.key_seq());
        assert forall|n: NextHop| result@.dom().contains(n) == hops@.dom().contains(n) by {
            assert(result@.contains_key(n) == hops.key_seq().to_set().contains(n));
        }
        assert(result@.dom() =~= hops@.dom());
    }
    result
}

/// The next hops of a destination that `peer` announced.
fn hops_announced(hops: &HopMap, peer: PeerKey) -> (result: Vec<NextHop>)
    requires
        hops_wf(*hops),
    ensures
        result@.no_duplicates(),
        forall|n: NextHop| #[trigger] result@.contains(n) == hops_contain(*hops, n, peer),
{
    let mut result: Vec<NextHop> = Vec::new();
    let count: usize = hops.len();
    for i in 0..count
        invariant
            count == hops.key_seq().len(),
            hops.key_seq().no_duplicates(),
            hops_wf(*hops),
            result@.no_duplicates(),
            forall|n: NextHop| #[trigger]
                result@.contains(n) == (hops.key_seq().take(i as int).contains(n) && hops_contain(
                    *hops,
                    n,
                    peer,
                )),
    {
        let (nh, peers) = hops.entry(i);
        proof {
            lemma_take_next(hops.key_seq(), i as int);
        }
        if peers.contains(&peer) {
            proof {
                assert(!result@.contains(nh));
                lemma_push_contains(result@, nh);
            }
            result.push(nh);
        }
    }
    proof {
        assert(hops.key_seq().take(count as int) =~= hops.key_seq());
        assert forall|n: NextHop| #[trigger] result@.contains(n) == hops_contain(*hops, n, peer) by {
            assert(hops.key_seq().to_set().contains(n) == hops@.dom().contains(n));
        }
    }
    result
}

/// The routes of a virtual network that `peer` announced.
fn destinations_announced(dests: &DestinationMap, peer: PeerKey) -> (result: VecMap<
    Destination,
    Vec<NextHop>,
>)
    requires
        destinations_wf(*dests),
    ensures
        result.wf(),
        forall|d: Destination| #[trigger]
            result@.contains_key(d) == (exists|n: NextHop| #[trigger]
                destinations_contain(*dests, d, n, peer)),
        forall|d: Destination| #[trigger]
            result@.contains_key(d) ==> result@[d]@.no_duplicates(),
        forall|d: Destination, n: NextHop|
            result@.contains_key(d) ==> #[trigger] result@[d]@.contains(n) == destinations_contain(
                *dests,
                d,
                n,
                peer,
            ),
{
    let mut result: VecMap<Destination, Vec<NextHop>> = VecMap::new();
    let count: usize = dests.len();
    for i in 0..count
        invariant
            count == dests.key_seq().len(),
            dests.key_seq().no_duplicates(),
            destinations_wf(*dests),
            result.wf(),
            forall|d: Destination| #[trigger]
                result@.contains_key(d) == (dests.key_seq().take(i as int).contains(d) && exists|
                    n: NextHop,
                | #[trigger] destinations_contain(*dests, d, n, peer)),
            forall|d: Destination| #[trigger]
                result@.contains_key(d) ==> result@[d]@.no_duplicates(),
            forall|d: Destination, n: NextHop|
                result@.contains_key(d) ==> #[trigger] result@[d]@.contains(n)
                    == destinations_contain(*dests, d, n, peer),
    {
        let (dest, hops) = dests.entry(i);
        proof {
            lemma_take_next(dests.key_seq(), i as int);
        }
        let announced = hops_announced(hops, peer);
        assert(forall|n: NextHop| #[trigger]
            announced@.contains(n) == destinations_contain(*dests, dest, n, peer));
        if announced.len() > 0 {
            assert(announced@.contains(announced@[0]));
            assert(destinations_contain(*dests, dest, announced@[0], peer));
            result.insert(dest, announced);
        } else {
            assert forall|n: NextHop| !#[trigger] destinations_contain(*dests, dest, n, peer) by {
                assert(!announced@.contains(n));
            }
        }
    }
    proof {
        assert(dests.key_seq().take(count as int) =~= dests.key_seq());
        assert forall|d: Destination| #[trigger]
            result@.contains_key(d) == (exists|n: NextHop| #[trigger]
                destinations_contain(*dests, d, n, peer)) by {
            assert(dests.key_seq().to_set().contains(d) == dests@.dom().contains(d));
        }
    }
    result
}

/// The next hops of a destination that somebody other than `peer` announced.
fn hops_from_others(hops: &HopMap, peer: PeerKey) -> (result: Vec<NextHop>)
    requires
        hops_wf(*hops),
    ensures
        result@.no_duplicates(),
        forall|n: NextHop| #[trigger]
            result@.contains(n) == (exists|p: PeerKey| #[trigger]
                hops_contain(*hops, n, p) && p != peer),
{
    let mut result: Vec<NextHop> = Vec::new();
    let count: usize = hops.len();
    for i in 0..count
        invariant
            count == hops.key_seq().len(),
            hops.key_seq().no_duplicates(),
            hops_wf(*hops),
            result@.no_duplicates(),
            forall|n: NextHop| #[trigger]
                result@.contains(n) == (hops.key_seq().take(i as int).contains(n) && exists|
                    p: PeerKey,
                | #[trigger] hops_contain(*hops, n, p) && p != peer),
    {
        let (nh, peers) = hops.entry(i);
        proof {
            lemma_take_next(hops.key_seq(), i as int);
        }
        if peers.has_other(&peer) {
            proof {
                let p = choose|p: PeerKey| peers@.contains(p) && p != peer;
                assert(hops_contain(*hops, nh, p));
                assert(!result@.contains(nh));
                lemma_push_contains(result@, nh);
            }
            result.push(nh);
        } else {
            assert forall|p: PeerKey| #[trigger] hops_contain(*hops, nh, p) implies p == peer by {
                assert(peers@.contains(p));
            }
        }
    }
    proof {
        assert(hops.key_seq().take(count as int) =~= hops.key_seq());
        assert forall|n: NextHop| #[trigger]
            result@.contains(n) == (exists|p: PeerKey| #[trigger]
                hops_contain(*hops, n, p) && p != peer) by {
            assert(hops.key_seq().to_set().contains(n) == hops@.dom().contains(n));
        }
    }
    result
}

/// The virtual networks that routes belong to.
pub open spec fn vnis_of(routes: Set<Route>) -> Set<Vni> {
    Set::new(|vni: Vni| exists|r: Route| routes.contains(r) && r.vni == vni)
}

/// The destinations that routes of a virtual network lead to.
pub open spec fn destinations_of(routes: Set<Route>, vni: Vni) -> Set<Destination> {
    Set::new(
        |dest: Destination|
            exists|r: Route| routes.contains(r) && r.vni == vni && r.destination == dest,
    )
}

/// The next hops of a destination in a virtual network.
pub open spec fn hops_of(routes: Set<Route>, vni: Vni, dest: Destination) -> Set<NextHop> {
    Set::new(
        |nh: NextHop|
            exists|r: Route|
                routes.contains(r) && r.vni == vni && r.destination == dest && r.next_hop == nh,
    )
}

/// Those who announced a route.
pub open spec fn peers_of(routes: Set<Route>, vni: Vni, destination: Destination, next_hop: NextHop) -> Set<
    PeerKey,
> {
    Set::new(|peer: PeerKey| routes.contains(Route { vni, destination, next_hop, peer }))
}

/// Whether somebody other than `peer` announced a route.
pub open spec fn from_others(
    routes: Set<Route>,
    vni: Vni,
    dest: Destination,
    nh: NextHop,
    peer: SocketAddr,
) -> bool {
    exists|p: PeerKey| #[trigger] peers_of(routes, vni, dest, nh).contains(p) && p != Some(peer)
}

/// Whether `vnis` lists the virtual networks of `routes`, each once.
pub open spec fn lists_vnis(vnis: Seq<Vni>, routes: Set<Route>) -> bool {
    vnis.no_duplicates() && vnis.to_set() == vnis_of(routes)
}

/// Whether `hops` lists the next hops of a destination, each once.
pub open spec fn lists_hops(
    hops: Seq<NextHop>,
    routes: Set<Route>,
    vni: Vni,
    dest: Destination,
) -> bool {
    hops.no_duplicates() && hops.to_set() == hops_of(routes, vni, dest)
}

/// Whether `map` holds the destinations of a virtual network with their next
/// hops.
pub open spec fn maps_destinations(
    map: VecMap<Destination, Vec<NextHop>>,
    routes: Set<Route>,
    vni: Vni,
) -> bool {
    &&& map.wf()
    &&& map@.dom() == destinations_of(routes, vni)
    &&& forall|d: Destination| #[trigger]
        map@.contains_key(d) ==> lists_hops(map@[d]@, routes, vni, d)
}

/// Whether `map` holds the next hops of a destination with those who announced
/// them.
pub open spec fn maps_peers(
    map: VecMap<NextHop, Vec<PeerKey>>,
    routes: Set<Route>,
    vni: Vni,
    dest: Destination,
) -> bool {
    &&& map.wf()
    &&& map@.dom() == hops_of(routes, vni, dest)
    &&& forall|n: NextHop| #[trigger]
        map@.contains_key(n) ==> map@[n]@.no_duplicates() && map@[n]@.to_set() == peers_of(
            routes,
            vni,
            dest,
            n,
        )
}

/// Whether `map` holds the destinations of a virtual network with their next
/// hops and those who announced them.
pub open spec fn maps_destinations_with_peers(
    map: VecMap<Destination, VecMap<NextHop, Vec<PeerKey>>>,
    routes: Set<Route>,
    vni: Vni,
) -> bool {
    &&& map.wf()
    &&& map@.dom() == destinations_of(routes, vni)
    &&& forall|d: Destination| #[trigger]
        map@.contains_key(d) ==> maps_peers(map@[d], routes, vni, d)
}

/// Whether `map` holds routes by virtual network and destination.
pub open spec fn maps_routes(
    map: VecMap<Vni, VecMap<Destination, Vec<NextHop>>>,
    routes: Set<Route>,
) -> bool {
    &&& map.wf()
    &&& map@.dom() == vnis_of(routes)
    &&& forall|v: Vni| #[trigger] map@.contains_key(v) ==> maps_destinations(map@[v], routes, v)
}

/// Whether `list` holds the routes that a peer announced, each once.
pub open spec fn lists_routes_from(
    list: Seq<(Vni, Destination, NextHop)>,
    routes: Set<Route>,
    peer: SocketAddr,
) -> bool {
    &&& list.no_duplicates()
    &&& forall|vni: Vni, destination: Destination, next_hop: NextHop| #[trigger]
        list.contains((vni, destination, next_hop)) == routes.contains(
            Route { vni, destination, next_hop, peer: Some(peer) },
        )
}

/// Why a route cannot be taken out of the table.
#[derive(Debug, Clone, Copy, PartialEq, Eq, Structural)]
pub enum RouteTableError {
    /// The table is a view without routes of its own.
    NotAvailable,
    /// The virtual network has no routes.
    VniNotFound(Vni),
    /// The virtual network has no route to the destination.
    DestinationNotFound(Destination, Vni),
    /// The next hop is none of the destination's.
    NextHopNotFound(NextHop, Destination),
    /// The peer did not announce the route.
    PeerNotFound(PeerKey, NextHop),
}

/// What can be asked of the table.
#[derive(Debug, Clone, Copy, PartialEq, Eq, Structural)]
pub enum RouteTableCommand {
    AddNextHop(Vni, Destination, NextHop, PeerKey),
    RemoveNextHop(Vni, Destination, NextHop, PeerKey),
    NextHopExists(Vni, Destination, NextHop, PeerKey),
    GetVnis,
    GetDestinationsByVni(Vni),
    GetDestinationsByVniWithPeer(Vni),
    GetNextHopsByDestination(Vni, Destination),
    RemoveRoutesFromPeer(SocketAddr),
    GetLocalAnnouncements,
}

/// What the table answers.
#[derive(Debug)]
pub enum RouteTableReply {
    Added(bool),
    Removed(Result<usize, RouteTableError>),
    Exists(bool),
    Vnis(Vec<Vni>),
    Destinations(VecMap<Destination, Vec<NextHop>>),
    DestinationsWithPeer(VecMap<Destination, VecMap<NextHop, Vec<PeerKey>>>),
    NextHops(Vec<NextHop>),
    RoutesRemoved(Vec<(Vni, Destination, NextHop)>),
    LocalAnnouncements(VecMap<Vni, VecMap<Destination, Vec<NextHop>>>),
}

/// What those who watch the table are told.
#[derive(Debug, Clone, Copy, PartialEq, Eq, Structural)]
pub enum RouteTableMsg {
    RouteAdded(Vni, Destination, NextHop, PeerKey),
    RouteRemoved(Vni, Destination, NextHop, PeerKey),
}

/// The routes that a node knows.
#[derive(Debug)]
pub struct RouteTable {
    attached: bool,
    vnis: VecMap<Vni, DestinationMap>,
}

impl View for RouteTable {
    type V = Set<Route>;

    closed spec fn view(&self) -> Set<Route> {
        Set::new(
            |r: Route|
                self.vnis@.contains_key(r.vni) && destinations_contain(
                    self.vnis@[r.vni],
                    r.destination,
                    r.next_hop,
                    r.peer,
                ),
        )
    }
}

impl RouteTable {
    /// No virtual network, destination or next hop is kept without a route, and
    /// none is kept twice. A view has no routes.
    pub closed spec fn wf(&self) -> bool {
        &&& self.vnis.wf()
        &&& forall|v: Vni| #[trigger]
            self.vnis@.contains_key(v) ==> destinations_wf(self.vnis@[v])
                && self.vnis@[v].has_entries()
        &&& !self.attached ==> !self.vnis.has_entries()
    }

    /// Whether the table takes routes; a view does not.
    pub closed spec fn is_attached(&self) -> bool {
        self.attached
    }

    /// A table without routes.
    pub fn new() -> (table: RouteTable)
        ensures
            table.wf(),
            table.is_attached(),
            table@ == Set::<Route>::empty(),
    {
        let table = RouteTable { attached: true, vnis: VecMap::new() };
        assert(table@ =~= Set::<Route>::empty());
        table
    }

    /// A view: a table that has no routes and takes none.
    pub fn new_view() -> (table: RouteTable)
        ensures
            table.wf(),
            !table.is_attached(),
            table@ == Set::<Route>::empty(),
    {
        let table = RouteTable { attached: false, vnis: VecMap::new() };
        assert(table@ =~= Set::<Route>::empty());
        table
    }

    /// What is kept for a virtual network, destination and next hop.
    proof fn lemma_lookup(&self)
        requires
            self.wf(),
        ensures
            vnis_of(self@) == self.vnis@.dom(),
            forall|v: Vni| #[trigger]
                self.vnis@.contains_key(v) ==> destinations_of(self@, v) == self.vnis@[v]@.dom(),
            forall|v: Vni, d: Destination|
                self.vnis@.contains_key(v) && #[trigger] self.vnis@[v]@.contains_key(d) ==> hops_of(
                    self@,
                    v,
                    d,
                ) == self.vnis@[v]@[d]@.dom(),
            forall|v: Vni, d: Destination, n: NextHop|
                self.vnis@.contains_key(v) && self.vnis@[v]@.contains_key(d)
                    && #[trigger] self.vnis@[v]@[d]@.contains_key(n) ==> peers_of(self@, v, d, n)
                    == self.vnis@[v]@[d]@[n]@,
    {
        assert forall|v: Vni, d: Destination, n: NextHop|
            self.vnis@.contains_key(v) && self.vnis@[v]@.contains_key(d)
                && #[trigger] self.vnis@[v]@[d]@.contains_key(n) implies peers_of(self@, v, d, n)
            == self.vnis@[v]@[d]@[n]@ by {
            assert(peers_of(self@, v, d, n) =~= self.vnis@[v]@[d]@[n]@);
        }
        assert forall|v: Vni, d: Destination|
            self.vnis@.contains_key(v) && #[trigger] self.vnis@[v]@.contains_key(d) implies hops_of(
            self@,
            v,
            d,
        ) == self.vnis@[v]@[d]@.dom() by {
            assert forall|n: NextHop| self.vnis@[v]@[d]@.contains_key(n) implies hops_of(
                self@,
                v,
                d,
            ).contains(n) by {
                let peer = choose|p: PeerKey| self.vnis@[v]@[d]@[n]@.contains(p);
                let route = Route { vni: v, destination: d, next_hop: n, peer };
                assert(self@.contains(route));
            }
            assert(hops_of(self@, v, d) =~= self.vnis@[v]@[d]@.dom());
        }
        assert forall|v: Vni| #[trigger] self.vnis@.contains_key(v) implies destinations_of(self@, v)
            == self.vnis@[v]@.dom() by {
            assert forall|d: Destination| self.vnis@[v]@.contains_key(d) implies destinations_of(
                self@,
                v,
            ).contains(d) by {
                let n = choose|n: NextHop| self.vnis@[v]@[d]@.contains_key(n);
                assert(hops_of(self@, v, d).contains(n));
                let route = choose|r: Route|
                    self@.contains(r) && r.vni == v && r.destination == d && r.next_hop == n;
                assert(self@.contains(route));
            }
            assert(destinations_of(self@, v) =~= self.vnis@[v]@.dom());
        }
        assert forall|v: Vni| self.vnis@.contains_key(v) implies vnis_of(self@).contains(v) by {
            let d = choose|d: Destination| self.vnis@[v]@.contains_key(d);
            assert(destinations_of(self@, v).contains(d));
            let route = choose|r: Route| self@.contains(r) && r.vni == v && r.destination == d;
            assert(self@.contains(route));
        }
        assert(vnis_of(self@) =~= self.vnis@.dom());
    }

    /// Adds a route that `received_from` announced, and tells whether it was not
    /// there before. A view takes none.
    pub fn add_next_hop(
        &mut self,
        vni: Vni,
        dest: Destination,
        nh: NextHop,
        received_from: PeerKey,
    ) -> (new: bool)
        requires
            old(self).wf(),
        ensures
            final(self).wf(),
            final(self).is_attached() == old(self).is_attached(),
            final(self)@ == if old(self).is_attached() {
                old(self)@.insert(
                    Route { vni, destination: dest, next_hop: nh, peer: received_from },
                )
            } else {
                old(self)@
            },
            new == (old(self).is_attached() && !old(self)@.contains(
                Route { vni, destination: dest, next_hop: nh, peer: received_from },
            )),
    {
        if !self.attached {
            return false;
        }
        let ghost before = *self;
        let mut dests = match self.vnis.remove(&vni) {
            Some(dests) => dests,
            None => VecMap::new(),
        };
        let new = destinations_add(&mut dests, dest, nh, received_from);
        self.vnis.insert(vni, dests);
        proof {
            let route = Route { vni, destination: dest, next_hop: nh, peer: received_from };
            assert(self@ =~= before@.insert(route));
        }
        new
    }

    /// Why a route cannot be taken out, if it cannot: the first part of it that
    /// is not there.
    pub open spec fn removal_error(
        &self,
        vni: Vni,
        dest: Destination,
        nh: NextHop,
        peer: PeerKey,
    ) -> Option<RouteTableError> {
        if !self.is_attached() {
            Some(RouteTableError::NotAvailable)
        } else if !vnis_of(self@).contains(vni) {
            Some(RouteTableError::VniNotFound(vni))
        } else if !destinations_of(self@, vni).contains(dest) {
            Some(RouteTableError::DestinationNotFound(dest, vni))
        } else if !hops_of(self@, vni, dest).contains(nh) {
            Some(RouteTableError::NextHopNotFound(nh, dest))
        } else if !peers_of(self@, vni, dest, nh).contains(peer) {
            Some(RouteTableError::PeerNotFound(peer, nh))
        } else {
            None
        }
    }

    /// Takes a route out that `received_from` announced, and returns how many
    /// others still announce it.
    pub fn remove_next_hop(
        &mut self,
        vni: Vni,
        dest: Destination,
        nh: NextHop,
        received_from: PeerKey,
    ) -> (r: Result<usize, RouteTableError>)
        requires
            old(self).wf(),
        ensures
            final(self).wf(),
            final(self).is_attached() == old(self).is_attached(),
            final(self)@ == old(self)@.remove(
                Route { vni, destination: dest, next_hop: nh, peer: received_from },
            ),
            match old(self).removal_error(vni, dest, nh, received_from) {
                Some(error) => r == Err::<usize, RouteTableError>(error),
                None => r matches Ok(remaining) && peers_of(final(self)@, vni, dest, nh).finite()
                    && remaining == peers_of(final(self)@, vni, dest, nh).len(),
            },
            old(self).removal_error(vni, dest, nh, received_from) is None <==> old(self)@.contains(
                Route { vni, destination: dest, next_hop: nh, peer: received_from },
            ),
    {
        let ghost before = *self;
        let ghost route = Route { vni, destination: dest, next_hop: nh, peer: received_from };
        proof {
            self.lemma_lookup();
            assert(!before@.contains(route) ==> before@.remove(route) =~= before@);
        }
        if !self.attached {
            assert(!before@.contains(route));
            return Err(RouteTableError::NotAvailable);
        }
        match self.vnis.get(&vni) {
            None => {
                return Err(RouteTableError::VniNotFound(vni));
            },
            Some(dests) => match dests.get(&dest) {
                None => {
                    return Err(RouteTableError::DestinationNotFound(dest, vni));
                },
                Some(hops) => match hops.get(&nh) {
                    None => {
                        return Err(RouteTableError::NextHopNotFound(nh, dest));
                    },
                    Some(peers) => {
                        if !peers.contains(&received_from) {
                            return Err(RouteTableError::PeerNotFound(received_from, nh));
                        }
                    },
                },
            },
        }
        let mut dests = match self.vnis.remove(&vni) {
            Some(dests) => dests,
            None => VecMap::new(),
        };
        let ghost dests_before = dests;
        let remaining: usize = destinations_remove(&mut dests, dest, nh, received_from);
        let ghost dests_after = dests;
        if !dests.is_empty() {
            self.vnis.insert(vni, dests);
        }
        proof {
            assert forall|r: Route| self@.contains(r) == before@.remove(route).contains(r) by {
                if r.vni == vni {
                    assert(before@.contains(r) == destinations_contain(
                        dests_before,
                        r.destination,
                        r.next_hop,
                        r.peer,
                    ));
                    assert(self@.contains(r) == destinations_contain(
                        dests_after,
                        r.destination,
                        r.next_hop,
                        r.peer,
                    ));
                }
            }
            assert(self@ =~= before@.remove(route));
            let peers = before.vnis@[vni]@[dest]@[nh]@;
            assert(peers_of(before@, vni, dest, nh) == peers);
            assert(peers_of(self@, vni, dest, nh) =~= peers.remove(received_from));
        }
        Ok(remaining)
    }

    /// Whether `received_from` announced a route.
    pub fn next_hop_exists(
        &self,
        vni: Vni,
        dest: Destination,
        nh: NextHop,
        received_from: PeerKey,
    ) -> (r: bool)
        requires
            self.wf(),
        ensures
            r == self@.contains(
                Route { vni, destination: dest, next_hop: nh, peer: received_from },
            ),
    {
        match self.vnis.get(&vni) {
            Some(dests) => match dests.get(&dest) {
                Some(hops) => match hops.get(&nh) {
                    Some(peers) => peers.contains(&received_from),
                    None => false,
                },
                None => false,
            },
            None => false,
        }
    }

    /// The virtual networks that have routes, each once.
    pub fn get_vnis(&self) -> (vnis: Vec<Vni>)
        requires
            self.wf(),
        ensures
            lists_vnis(vnis@, self@),
    {
        proof {
            self.lemma_lookup();
        }
        self.vnis.keys()
    }

    /// The next hops of a destination, each once.
    pub fn get_next_hops_by_destination(&self, vni: Vni, dest: Destination) -> (hops: Vec<NextHop>)
        requires
            self.wf(),
        ensures
            lists_hops(hops@, self@, vni, dest),
    {
        proof {
            self.lemma_lookup();
        }
        match self.vnis.get(&vni) {
            Some(dests) => match dests.get(&dest) {
                Some(hops) => {
                    return hops.keys();
                },
                None => {
                    assert(!destinations_of(self@, vni).contains(dest));
                },
            },
            None => {
                assert(!vnis_of(self@).contains(vni));
            },
        }
        let none: Vec<NextHop> = Vec::new();
        assert(none@.to_set() =~= hops_of(self@, vni, dest));
        none
    }

    /// The destinations of a virtual network with their next hops.
    pub fn get_destinations_by_vni(&self, vni: Vni) -> (result: VecMap<Destination, Vec<NextHop>>)
        requires
            self.wf(),
        ensures
            maps_destinations(result, self@, vni),
    {
        proof {
            self.lemma_lookup();
        }
        match self.vnis.get(&vni) {
            Some(dests) => destinations_hops(dests),
            None => {
                let result = VecMap::new();
                proof {
                    assert(!vnis_of(self@).contains(vni));
                    assert(result@.dom() =~= destinations_of(self@, vni));
                }
                result
            },
        }
    }

    /// The destinations of a virtual network with their next hops and those who
    /// announced them.
    pub fn get_destinations_by_vni_with_peer(&self, vni: Vni) -> (result: VecMap<
        Destination,
        VecMap<NextHop, Vec<PeerKey>>,
    >)
        requires
            self.wf(),
        ensures
            maps_destinations_with_peers(result, self@, vni),
    {
        proof {
            self.lemma_lookup();
        }
        let mut result: VecMap<Destination, VecMap<NextHop, Vec<PeerKey>>> = VecMap::new();
        match self.vnis.get(&vni) {
            Some(dests) => {
                let count: usize = dests.len();
                for i in 0..count
                    invariant
                        count == dests.key_seq().len(),
                        dests.key_seq().no_duplicates(),
                        destinations_wf(*dests),
                        result.wf(),
                        forall|d: Destination| #[trigger]
                            result@.contains_key(d) == dests.key_seq().take(i as int).contains(d),
                        forall|d: Destination| #[trigger]
                            result@.contains_key(d) ==> dests@.contains_key(d) && result@[d].wf()
                                && result@[d]@.dom() == dests@[d]@.dom(),
                        forall|d: Destination, n: NextHop|
                            result@.contains_key(d) && #[trigger] result@[d]@.contains_key(n)
                                ==> result@[d]@[n]@.no_duplicates() && result@[d]@[n]@.to_set()
                                == dests@[d]@[n]@,
                {
                    let (dest, hops) = dests.entry(i);
                    proof {
                        lemma_take_next(dests.key_seq(), i as int);
                    }
                    result.insert(dest, hops_peers(hops));
                }
                proof {
                    assert(dests.key_seq().take(count as int) =~= dests.key_seq());
                    assert forall|d: Destination|
                        result@.dom().contains(d) == dests@.dom().contains(d) by {
                        assert(result@.contains_key(d) == dests.key_seq().to_set().contains(d));
                    }
                    assert(result@.dom() =~= dests@.dom());
                }
            },
            None => {
                proof {
                    assert(!vnis_of(self@).contains(vni));
                    assert(result@.dom() =~= destinations_of(self@, vni));
                }
            },
        }
        result
    }

    /// The routes that one announcer announced.
    pub open spec fn announced_by(&self, peer: PeerKey) -> Set<Route> {
        self@.filter(|r: Route| r.peer == peer)
    }

    /// The routes that the node itself announced, by virtual network and
    /// destination.
    pub fn get_local_announcements(&self) -> (result: VecMap<
        Vni,
        VecMap<Destination, Vec<NextHop>>,
    >)
        requires
            self.wf(),
        ensures
            maps_routes(result, self.announced_by(None)),
    {
        let mut result: VecMap<Vni, VecMap<Destination, Vec<NextHop>>> = VecMap::new();
        let count: usize = self.vnis.len();
        for i in 0..count
            invariant
                count == self.vnis.key_seq().len(),
                self.vnis.key_seq().no_duplicates(),
                self.wf(),
                result.wf(),
                forall|v: Vni| #[trigger]
                    result@.contains_key(v) == (self.vnis.key_seq().take(i as int).contains(v)
                        && exists|d: Destination, n: NextHop| #[trigger]
                        destinations_contain(self.vnis@[v], d, n, None)),
                forall|v: Vni| #[trigger]
                    result@.contains_key(v) ==> self.vnis@.contains_key(v) && result@[v].wf(),
                forall|v: Vni, d: Destination|
                    result@.contains_key(v) ==> #[trigger] result@[v]@.contains_key(d) == (exists|
                        n: NextHop,
                    | #[trigger] destinations_contain(self.vnis@[v], d, n, None)),
                forall|v: Vni, d: Destination|
                    result@.contains_key(v) && #[trigger] result@[v]@.contains_key(d)
                        ==> result@[v]@[d]@.no_duplicates(),
                forall|v: Vni, d: Destination, n: NextHop|
                    result@.contains_key(v) && result@[v]@.contains_key(d)
                        ==> #[trigger] result@[v]@[d]@.contains(n) == destinations_contain(
                        self.vnis@[v],
                        d,
                        n,
                        None,
                    ),
        {
            let (vni, dests) = self.vnis.entry(i);
            proof {
                lemma_take_next(self.vnis.key_seq(), i as int);
            }
            let announced = destinations_announced(dests, None);
            if !announced.is_empty() {
                proof {
                    let d = choose|d: Destination| announced@.contains_key(d);
                    let n = choose|n: NextHop| #[trigger] destinations_contain(*dests, d, n, None);
                    assert(destinations_contain(self.vnis@[vni], d, n, None));
                }
                result.insert(vni, announced);
            } else {
                assert forall|d: Destination, n: NextHop| !#[trigger]
                    destinations_contain(self.vnis@[vni], d, n, None) by {
                    assert(!announced@.contains_key(d));
                }
            }
        }
        proof {
            assert(self.vnis.key_seq().take(count as int) =~= self.vnis.key_seq());
            let local = self.announced_by(None);
            assert forall|v: Vni, d: Destination, n: NextHop|
                self.vnis@.contains_key(v) && destinations_contain(
                    self.vnis@[v],
                    d,
                    n,
                    None,
                ) implies #[trigger] hops_of(local, v, d).contains(n) && destinations_of(
                local,
                v,
            ).contains(d) && vnis_of(local).contains(v) by {
                let route = Route { vni: v, destination: d, next_hop: n, peer: None };
                assert(local.contains(route));
            }
            assert forall|v: Vni| #[trigger] result@.dom().contains(v) == vnis_of(
                local,
            ).contains(v) by {
                assert(self.vnis.key_seq().to_set().contains(v) == self.vnis@.dom().contains(v));
                if result@.contains_key(v) {
                    let (d, n) = choose|d: Destination, n: NextHop| #[trigger]
                        destinations_contain(self.vnis@[v], d, n, None);
                    assert(hops_of(local, v, d).contains(n));
                }
            }
            assert(result@.dom() =~= vnis_of(local));
            assert forall|v: Vni| #[trigger] result@.contains_key(v) implies result@[v]@.dom()
                == destinations_of(local, v) by {
                assert forall|d: Destination| #[trigger]
                    result@[v]@.dom().contains(d) == destinations_of(local, v).contains(d) by {
                    assert(result@[v]@.contains_key(d) == (exists|n: NextHop| #[trigger]
                        destinations_contain(self.vnis@[v], d, n, None)));
                    if result@[v]@.contains_key(d) {
                        let n = choose|n: NextHop| #[trigger]
                            destinations_contain(self.vnis@[v], d, n, None);
                        assert(hops_of(local, v, d).contains(n));
                    }
                }
                assert(result@[v]@.dom() =~= destinations_of(local, v));
            }
            assert forall|v: Vni, d: Destination|
                result@.contains_key(v) && #[trigger] result@[v]@.contains_key(d) implies result@[v]@[d]@.to_set()
                == hops_of(local, v, d) by {
                assert forall|n: NextHop| #[trigger]
                    result@[v]@[d]@.to_set().contains(n) == hops_of(local, v, d).contains(n) by {
                    assert(result@[v]@[d]@.contains(n) == destinations_contain(
                        self.vnis@[v],
                        d,
                        n,
                        None,
                    ));
                }
                assert(result@[v]@[d]@.to_set() =~= hops_of(local, v, d));
            }
        }
        result
    }

    /// Takes all the routes out that a peer announced, and returns them, each
    /// once.
    pub fn remove_routes_from_peer(&mut self, peer: SocketAddr) -> (removed: Vec<
        (Vni, Destination, NextHop),
    >)
        requires
            old(self).wf(),
        ensures
            final(self).wf(),
            final(self).is_attached() == old(self).is_attached(),
            final(self)@ == old(self)@.filter(|r: Route| r.peer != Some(peer)),
            lists_routes_from(removed@, old(self)@, peer),
    {
        let ghost before = *self;
        let keys = self.vnis.keys();
        let mut removed: Vec<(Vni, Destination, NextHop)> = Vec::new();
        for i in 0..keys.len()
            invariant
                before == *old(self),
                before.wf(),
                self.wf(),
                self.attached == before.attached,
                keys@.no_duplicates(),
                keys@.to_set() == before.vnis@.dom(),
                removed@.no_duplicates(),
                forall|vni: Vni, destination: Destination, next_hop: NextHop| #[trigger]
                    removed@.contains((vni, destination, next_hop)) == (keys@.take(
                        i as int,
                    ).contains(vni) && before@.contains(
                        Route { vni, destination, next_hop, peer: Some(peer) },
                    )),
                forall|r: Route|
                    #![trigger self@.contains(r)]
                    #![trigger before@.contains(r)]
                    self@.contains(r) == (before@.contains(r) && !(r.peer == Some(peer)
                        && keys@.take(i as int).contains(r.vni))),
        {
            let vni: Vni = keys[i];
            proof {
                lemma_take_next(keys@, i as int);
            }
            let ghost middle = *self;
            match self.vnis.remove(&vni) {
                Some(mut dests) => {
                    let ghost dests_before = dests;
                    let gone = destinations_drop_peer(&mut dests, Some(peer));
                    let ghost dests_after = dests;
                    if !dests.is_empty() {
                        self.vnis.insert(vni, dests);
                    }
                    proof {
                        assert forall|d: Destination, n: NextHop| !#[trigger]
                            removed@.contains((vni, d, n)) by {}
                    }
                    push_routes(&mut removed, vni, &gone);
                    proof {
                        assert forall|r: Route|
                            #![trigger self@.contains(r)]
                            #![trigger before@.contains(r)]
                            self@.contains(r) == (before@.contains(r) && !(r.peer == Some(peer)
                                && keys@.take(i + 1).contains(r.vni))) by {
                            assert(middle@.contains(r) == (before@.contains(r) && !(r.peer == Some(
                                peer,
                            ) && keys@.take(i as int).contains(r.vni))));
                            if r.vni == vni {
                                assert(middle@.contains(r) == destinations_contain(
                                    dests_before,
                                    r.destination,
                                    r.next_hop,
                                    r.peer,
                                ));
                                assert(self@.contains(r) == destinations_contain(
                                    dests_after,
                                    r.destination,
                                    r.next_hop,
                                    r.peer,
                                ));
                            } else {
                                assert(self@.contains(r) == middle@.contains(r));
                            }
                        }
                        assert forall|v: Vni, destination: Destination, next_hop: NextHop| #[trigger]
                            removed@.contains((v, destination, next_hop)) == (keys@.take(
                                i + 1,
                            ).contains(v) && before@.contains(
                                Route { vni: v, destination, next_hop, peer: Some(peer) },
                            )) by {
                            let r = Route { vni: v, destination, next_hop, peer: Some(peer) };
                            assert(middle@.contains(r) == (before@.contains(r) && !keys@.take(
                                i as int,
                            ).contains(v)));
                            if v == vni {
                                assert(middle@.contains(r) == destinations_contain(
                                    dests_before,
                                    destination,
                                    next_hop,
                                    Some(peer),
                                ));
                            }
                        }
                    }
                },
                None => {
                    proof {
                        assert(self.vnis@ =~= middle.vnis@);
                        assert forall|r: Route| r.vni == vni implies !before@.contains(r) by {
                            assert(!middle@.contains(r));
                        }
                    }
                },
            }
        }
        proof {
            assert(keys@.take(keys@.len() as int) =~= keys@);
            assert forall|r: Route| before@.contains(r) implies keys@.contains(r.vni) by {
                assert(keys@.to_set().contains(r.vni));
            }
            assert(self@ =~= before@.filter(|r: Route| r.peer != Some(peer)));
        }
        removed
    }

    /// Whether somebody announced a route.
    pub fn has_next_hop(&self, vni: Vni, dest: Destination, nh: NextHop) -> (r: bool)
        requires
            self.wf(),
        ensures
            r == hops_of(self@, vni, dest).contains(nh),
    {
        proof {
            self.lemma_lookup();
        }
        match self.vnis.get(&vni) {
            Some(dests) => match dests.get(&dest) {
                Some(hops) => hops.contains_key(&nh),
                None => {
                    assert(!destinations_of(self@, vni).contains(dest));
                    false
                },
            },
            None => {
                assert(!vnis_of(self@).contains(vni));
                false
            },
        }
    }

    /// Whether somebody other than `peer` announced a route.
    pub fn has_other_announcer(
        &self,
        vni: Vni,
        dest: Destination,
        nh: NextHop,
        peer: SocketAddr,
    ) -> (r: bool)
        requires
            self.wf(),
        ensures
            r == from_others(self@, vni, dest, nh, peer),
    {
        match self.vnis.get(&vni) {
            Some(dests) => match dests.get(&dest) {
                Some(hops) => match hops.get(&nh) {
                    Some(peers) => {
                        assert(peers_of(self@, vni, dest, nh) =~= peers@);
                        peers.has_other(&Some(peer))
                    },
                    None => false,
                },
                None => false,
            },
            None => false,
        }
    }

    /// The routes of a virtual network that somebody other than `peer`
    /// announced, each once.
    pub fn routes_from_others(&self, vni: Vni, peer: SocketAddr) -> (result: Vec<
        (Destination, NextHop),
    >)
        requires
            self.wf(),
        ensures
            result@.no_duplicates(),
            forall|d: Destination, n: NextHop| #[trigger]
                result@.contains((d, n)) == from_others(self@, vni, d, n, peer),
    {
        let mut result: Vec<(Destination, NextHop)> = Vec::new();
        match self.vnis.get(&vni) {
            Some(dests) => {
                let count: usize = dests.len();
                for i in 0..count
                    invariant
                        count == dests.key_seq().len(),
                        dests.key_seq().no_duplicates(),
                        destinations_wf(*dests),
                        result@.no_duplicates(),
                        forall|d: Destination, n: NextHop| #[trigger]
                            result@.contains((d, n)) == (dests.key_seq().take(i as int).contains(d)
                                && exists|p: PeerKey| #[trigger]
                                destinations_contain(*dests, d, n, p) && p != Some(peer)),
                {
                    let (dest, hops) = dests.entry(i);
                    proof {
                        lemma_take_next(dests.key_seq(), i as int);
                    }
                    let others = hops_from_others(hops, Some(peer));
                    push_hops(&mut result, dest, &others);
                    assert forall|d: Destination, n: NextHop| #[trigger]
                        result@.contains((d, n)) == (dests.key_seq().take(i + 1).contains(d)
                            && exists|p: PeerKey| #[trigger]
                            destinations_contain(*dests, d, n, p) && p != Some(peer)) by {
                        if d == dest {
                            if others@.contains(n) {
                                let p = choose|p: PeerKey| #[trigger]
                                    hops_contain(*hops, n, p) && p != Some(peer);
                                assert(destinations_contain(*dests, d, n, p));
                            }
                            if exists|p: PeerKey| #[trigger]
                                destinations_contain(*dests, d, n, p) && p != Some(peer) {
                                let p = choose|p: PeerKey| #[trigger]
                                    destinations_contain(*dests, d, n, p) && p != Some(peer);
                                assert(hops_contain(*hops, n, p));
                            }
                        }
                    }
                }
                proof {
                    assert(dests.key_seq().take(count as int) =~= dests.key_seq());
                    assert forall|d: Destination, n: NextHop| #[trigger]
                        result@.contains((d, n)) == from_others(self@, vni, d, n, peer) by {
                        assert(dests.key_seq().to_set().contains(d) == dests@.dom().contains(d));
                        if result@.contains((d, n)) {
                            let p = choose|p: PeerKey| #[trigger]
                                destinations_contain(*dests, d, n, p) && p != Some(peer);
                            assert(peers_of(self@, vni, d, n).contains(p));
                        }
                        if from_others(self@, vni, d, n, peer) {
                            let p = choose|p: PeerKey| #[trigger]
                                peers_of(self@, vni, d, n).contains(p) && p != Some(peer);
                            assert(destinations_contain(*dests, d, n, p));
                        }
                    }
                }
            },
            None => {
                assert forall|d: Destination, n: NextHop| !from_others(self@, vni, d, n, peer) by {}
            },
        }
        result
    }

    /// The routes after a command.
    pub open spec fn routes_after(&self, command: RouteTableCommand) -> Set<Route> {
        match command {
            RouteTableCommand::AddNextHop(vni, destination, next_hop, peer) => if self.is_attached() {
                self@.insert(Route { vni, destination, next_hop, peer })
            } else {
                self@
            },
            RouteTableCommand::RemoveNextHop(vni, destination, next_hop, peer) => self@.remove(
                Route { vni, destination, next_hop, peer },
            ),
            RouteTableCommand::RemoveRoutesFromPeer(peer) => self@.filter(
                |r: Route| r.peer != Some(peer),
            ),
            _ => self@,
        }
    }

    /// Whether `reply` is the answer to a command.
    pub open spec fn answers(&self, command: RouteTableCommand, reply: RouteTableReply) -> bool {
        match command {
            RouteTableCommand::AddNextHop(vni, destination, next_hop, peer) => reply
                == RouteTableReply::Added(
                self.is_attached() && !self@.contains(Route { vni, destination, next_hop, peer }),
            ),
            RouteTableCommand::RemoveNextHop(vni, dest, nh, peer) => match self.removal_error(
                vni,
                dest,
                nh,
                peer,
            ) {
                Some(error) => reply == RouteTableReply::Removed(Err(error)),
                None => {
                    let left = peers_of(self.routes_after(command), vni, dest, nh);
                    left.finite() && reply == RouteTableReply::Removed(Ok(left.len() as usize))
                        && left.len() <= usize::MAX
                },
            },
            RouteTableCommand::NextHopExists(vni, destination, next_hop, peer) => reply
                == RouteTableReply::Exists(
                self@.contains(Route { vni, destination, next_hop, peer }),
            ),
            RouteTableCommand::GetVnis => reply matches RouteTableReply::Vnis(vnis) && lists_vnis(
                vnis@,
                self@,
            ),
            RouteTableCommand::GetDestinationsByVni(vni) => {
                reply matches RouteTableReply::Destinations(map) && maps_destinations(
                    map,
                    self@,
                    vni,
                )
            },
            RouteTableCommand::GetDestinationsByVniWithPeer(vni) => {
                reply matches RouteTableReply::DestinationsWithPeer(map)
                    && maps_destinations_with_peers(map, self@, vni)
            },
            RouteTableCommand::GetNextHopsByDestination(vni, dest) => {
                reply matches RouteTableReply::NextHops(hops) && lists_hops(
                    hops@,
                    self@,
                    vni,
                    dest,
                )
            },
            RouteTableCommand::RemoveRoutesFromPeer(peer) => {
                reply matches RouteTableReply::RoutesRemoved(list) && lists_routes_from(
                    list@,
                    self@,
                    peer,
                )
            },
            RouteTableCommand::GetLocalAnnouncements => {
                reply matches RouteTableReply::LocalAnnouncements(map) && maps_routes(
                    map,
                    self.announced_by(None),
                )
            },
        }
    }

    /// What the watchers are told of a command and its answer: of every route
    /// that was announced, whether or not it was new, and of every route that
    /// was taken out.
    pub open spec fn notices(&self, command: RouteTableCommand, reply: RouteTableReply) -> Seq<
        RouteTableMsg,
    > {
        match (command, reply) {
            (RouteTableCommand::AddNextHop(vni, dest, nh, peer), _) => if self.is_attached() {
                seq![RouteTableMsg::RouteAdded(vni, dest, nh, peer)]
            } else {
                Seq::empty()
            },
            (
                RouteTableCommand::RemoveNextHop(vni, dest, nh, peer),
                RouteTableReply::Removed(Ok(_)),
            ) => seq![RouteTableMsg::RouteRemoved(vni, dest, nh, peer)],
            (
                RouteTableCommand::RemoveRoutesFromPeer(peer),
                RouteTableReply::RoutesRemoved(list),
            ) => list@.map_values(
                |r: (Vni, Destination, NextHop)|
                    RouteTableMsg::RouteRemoved(r.0, r.1, r.2, Some(peer)),
            ),
            _ => Seq::empty(),
        }
    }

    /// Carries out a command, and returns the answer and what the watchers are
    /// told.
    pub fn handle(&mut self, command: RouteTableCommand) -> (r: (
        RouteTableReply,
        Vec<RouteTableMsg>,
    ))
        requires
            old(self).wf(),
        ensures
            final(self).wf(),
            final(self).is_attached() == old(self).is_attached(),
            final(self)@ == old(self).routes_after(command),
            old(self).answers(command, r.0),
            r.1@ == old(self).notices(command, r.0),
    {
        let mut notices: Vec<RouteTableMsg> = Vec::new();
        let reply = match command {
            RouteTableCommand::AddNextHop(vni, dest, nh, peer) => {
                let new = self.add_next_hop(vni, dest, nh, peer);
                if self.attached {
                    notices.push(RouteTableMsg::RouteAdded(vni, dest, nh, peer));
                }
                RouteTableReply::Added(new)
            },
            RouteTableCommand::RemoveNextHop(vni, dest, nh, peer) => {
                let result = self.remove_next_hop(vni, dest, nh, peer);
                if result.is_ok() {
                    notices.push(RouteTableMsg::RouteRemoved(vni, dest, nh, peer));
                }
                RouteTableReply::Removed(result)
            },
            RouteTableCommand::NextHopExists(vni, dest, nh, peer) => RouteTableReply::Exists(
                self.next_hop_exists(vni, dest, nh, peer),
            ),
            RouteTableCommand::GetVnis => RouteTableReply::Vnis(self.get_vnis()),
            RouteTableCommand::GetDestinationsByVni(vni) => RouteTableReply::Destinations(
                self.get_destinations_by_vni(vni),
            ),
            RouteTableCommand::GetDestinationsByVniWithPeer(vni) => {
                RouteTableReply::DestinationsWithPeer(self.get_destinations_by_vni_with_peer(vni))
            },
            RouteTableCommand::GetNextHopsByDestination(vni, dest) => RouteTableReply::NextHops(
                self.get_next_hops_by_destination(vni, dest),
            ),
            RouteTableCommand::RemoveRoutesFromPeer(peer) => {
                let removed = self.remove_routes_from_peer(peer);
                for i in 0..removed.len()
                    invariant
                        notices@ == removed@.take(i as int).map_values(
                            |r: (Vni, Destination, NextHop)|
                                RouteTableMsg::RouteRemoved(r.0, r.1, r.2, Some(peer)),
                        ),
                {
                    let (vni, dest, nh) = removed[i];
                    notices.push(RouteTableMsg::RouteRemoved(vni, dest, nh, Some(peer)));
                    assert(notices@ =~= removed@.take(i + 1).map_values(
                        |r: (Vni, Destination, NextHop)|
                            RouteTableMsg::RouteRemoved(r.0, r.1, r.2, Some(peer)),
                    ));
                }
                assert(removed@.take(removed@.len() as int) =~= removed@);
                RouteTableReply::RoutesRemoved(removed)
            },
            RouteTableCommand::GetLocalAnnouncements => RouteTableReply::LocalAnnouncements(
                self.get_local_announcements(),
            ),
        };
        assert(notices@ =~= old(self).notices(command, reply));
        (reply, notices)
    }
}

/// A route that is taken out again leaves the table as it was before it was
/// added.
pub proof fn lemma_add_remove(
    before: RouteTable,
    between: RouteTable,
    after: RouteTable,
    vni: Vni,
    dest: Destination,
    nh: NextHop,
    peer: PeerKey,
)
    requires
        before.is_attached(),
        between@ == before.routes_after(RouteTableCommand::AddNextHop(vni, dest, nh, peer)),
        after@ == between.routes_after(RouteTableCommand::RemoveNextHop(vni, dest, nh, peer)),
    ensures
        !before@.contains(Route { vni, destination: dest, next_hop: nh, peer }) ==> after@
            == before@,
        !after@.contains(Route { vni, destination: dest, next_hop: nh, peer }),
{
    if !before@.contains(Route { vni, destination: dest, next_hop: nh, peer }) {
        assert(after@ =~= before@);
    }
}

/// A route is known as long as somebody announces it: none announce it any more
/// just if it is not among the next hops of its destination.
pub proof fn lemma_last_announcer(
    routes: Set<Route>,
    vni: Vni,
    dest: Destination,
    nh: NextHop,
)
    requires
        peers_of(routes, vni, dest, nh).finite(),
    ensures
        peers_of(routes, vni, dest, nh).len() == 0 <==> !hops_of(routes, vni, dest).contains(nh),
{
    let peers = peers_of(routes, vni, dest, nh);
    if hops_of(routes, vni, dest).contains(nh) {
        let route = choose|r: Route|
            routes.contains(r) && r.vni == vni && r.destination == dest && r.next_hop == nh;
        assert(peers.contains(route.peer));
    }
    if peers.len() != 0 {
        let peer = peers.choose();
        assert(peers.contains(peer));
        assert(routes.contains(Route { vni, destination: dest, next_hop: nh, peer }));
    }
}

/// The same route may come from several peers: one more announcer adds no next
/// hop.
pub proof fn lemma_second_announcer(
    routes: Set<Route>,
    vni: Vni,
    dest: Destination,
    nh: NextHop,
    peer: PeerKey,
)
    requires
        hops_of(routes, vni, dest).contains(nh),
    ensures
        hops_of(
            routes.insert(Route { vni, destination: dest, next_hop: nh, peer }),
            vni,
            dest,
        ) == hops_of(routes, vni, dest),
{
    let more = routes.insert(Route { vni, destination: dest, next_hop: nh, peer });
    assert forall|n: NextHop| #[trigger]
        hops_of(more, vni, dest).contains(n) == hops_of(routes, vni, dest).contains(n) by {
        if hops_of(routes, vni, dest).contains(n) {
            let route = choose|r: Route|
                routes.contains(r) && r.vni == vni && r.destination == dest && r.next_hop == n;
            assert(more.contains(route));
        }
        if hops_of(more, vni, dest).contains(n) && n != nh {
            let route = choose|r: Route|
                more.contains(r) && r.vni == vni && r.destination == dest && r.next_hop == n;
            assert(routes.contains(route));
        }
    }
    assert(hops_of(more, vni, dest) =~= hops_of(routes, vni, dest));
}

} // verus!
