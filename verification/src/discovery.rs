//! What the discovery knows of the interfaces once the link, route and
//! tunnel queries have run.

use vstd::prelude::*;
use std::collections::HashMap;
use crate::links::Interfaces;
use crate::route::{Route, Rtbl};
use crate::tunnel::{TunnelPort, TunnelPorts};
use crate::wg::{after_embedded, embedded_ports, Collision};

verus! {

/// The interfaces of the host: their names, the listen ports of the tunnel
/// interfaces among them, and the table of the local routes.
pub struct IfaceInfo {
    pub id2name: HashMap<u32, String>,
    pub interface_ports: TunnelPorts,
    pub local_routes: Rtbl,
}

impl Default for IfaceInfo {
    /// Nothing is known of any interface.
    fn default() -> (r: IfaceInfo)
        ensures
            r.id2name@ == Map::<u32, String>::empty(),
            r.interface_ports@ == Seq::<TunnelPort>::empty(),
            r.local_routes@ == Seq::<Route>::empty(),
    {
        IfaceInfo {
            id2name: HashMap::new(),
            interface_ports: TunnelPorts::new(),
            local_routes: Rtbl::default(),
        }
    }
}

/// The names that link enumeration found, none if it failed.
pub open spec fn names_or_none(links: Option<Interfaces>) -> Map<u32, String> {
    match links {
        Some(found) => found.id2name@,
        None => Map::empty(),
    }
}

/// The ports that link enumeration found in the attributes of VXLAN
/// interfaces, none if it failed.
pub open spec fn embedded_or_none(links: Option<Interfaces>) -> Seq<(u32, u16)> {
    match links {
        Some(found) => found.vxlan_ports@,
        None => Seq::empty(),
    }
}

/// The routes that route enumeration found, none if it failed.
pub open spec fn routes_or_none(routes: Option<Rtbl>) -> Seq<Route> {
    match routes {
        Some(table) => table@,
        None => Seq::empty(),
    }
}

/// The ports that the tunnel device query found, none if it failed.
pub open spec fn ports_or_none(wireguard: Option<TunnelPorts>) -> Seq<TunnelPort> {
    match wireguard {
        Some(ports) => ports@,
        None => Seq::empty(),
    }
}

/// Puts together what the three queries found. A query that failed, given
/// as `None`, counts as one that found nothing: the discovery goes on
/// without names, without routes or without tunnel ports. The ports of the
/// tunnel device query come first, then those that the link attributes of
/// VXLAN interfaces give; the collisions among them come back as well.
pub fn interfaces_routes(
    links: Option<Interfaces>,
    routes: Option<Rtbl>,
    wireguard: Option<TunnelPorts>,
) -> (r: (IfaceInfo, Vec<Collision>))
    ensures
        r.0.id2name@ == names_or_none(links),
        r.0.local_routes@ == routes_or_none(routes),
        (r.0.interface_ports@, r.1@) == after_embedded(
            (ports_or_none(wireguard), Seq::empty()),
            embedded_or_none(links),
        ),
{
    let mut interface_ports = match wireguard {
        Some(ports) => ports,
        None => TunnelPorts::new(),
    };
    let mut collisions: Vec<Collision> = Vec::new();
    let id2name = match links {
        Some(found) => {
            embedded_ports(&mut interface_ports, &mut collisions, &found.vxlan_ports);
            found.id2name
        },
        None => HashMap::new(),
    };
    let local_routes = match routes {
        Some(table) => table,
        None => Rtbl::default(),
    };
    (IfaceInfo { id2name, interface_ports, local_routes }, collisions)
}

/// The interface with the given name among pairs of number and name: of
/// several with that name the one with the least number.
pub fn interface_named(pairs: &Vec<(u32, String)>, name: &str) -> (r: Option<u32>)
    ensures
        match r {
            Some(id) => (exists|i: int|
                0 <= i < pairs.len() && (#[trigger] pairs[i]).0 == id && pairs[i].1@ == name@)
                && forall|j: int|
                0 <= j < pairs.len() && (#[trigger] pairs[j]).1@ == name@ ==> id <= pairs[j].0,
            None => forall|j: int| 0 <= j < pairs.len() ==> (#[trigger] pairs[j]).1@ != name@,
        },
{
    let mut found: Option<u32> = None;
    let mut i: usize = 0;
    while i < pairs.len()
        invariant
            i <= pairs.len(),
            match found {
                Some(id) => (exists|k: int|
                    0 <= k < i && (#[trigger] pairs[k]).0 == id && pairs[k].1@ == name@)
                    && forall|j: int|
                    0 <= j < i && (#[trigger] pairs[j]).1@ == name@ ==> id <= pairs[j].0,
                None => forall|j: int| 0 <= j < i ==> (#[trigger] pairs[j]).1@ != name@,
            },
        decreases pairs.len() - i,
    {
        if crate::text::same(pairs[i].1.as_str(), name) {
            let better = match found {
                Some(id) => pairs[i].0 < id,
                None => true,
            };
            if better {
                found = Some(pairs[i].0);
            }
        }
        i = i + 1;
    }
    found
}

} // verus!
