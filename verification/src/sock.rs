//! Socket records and their attribution to interfaces.

use vstd::prelude::*;
use std::collections::HashMap;
use crate::addr::IpAddr;
use crate::route::{lookup, Route, Rtbl};
use crate::text::{eq_ignore_ascii_case, same_but_for_case};

verus! {

broadcast use vstd::std_specs::hash::group_hash_axioms;

/// The number by which the kernel knows a socket.
pub type Ino = u64;

/// Address family number of IPv4.
pub const AF_INET: u8 = 2;

/// Address family number of IPv6.
pub const AF_INET6: u8 = 10;

/// The address family of a socket record.
#[derive(Debug, Clone, Copy, PartialEq, Eq, Structural, PartialOrd, Ord, Hash)]
pub enum Family {
    V4,
    V6,
    /// An IPv6 socket that takes IPv4 traffic too.
    Both,
}

impl Family {
    /// The number of the family in a request. Only `V4` and `V6` can be asked for.
    pub open spec fn spec_proto_const(&self) -> u8 {
        match self {
            Family::V4 => AF_INET,
            _ => AF_INET6,
        }
    }

    /// The number of the family in a request.
    #[verifier::when_used_as_spec(spec_proto_const)]
    pub fn proto_const(&self) -> (r: u8)
        requires
            *self != Family::Both,
        ensures
            r == self.spec_proto_const(),
    {
        match self {
            Family::V4 => AF_INET,
            _ => AF_INET6,
        }
    }

    /// How the family is shown: `v4`, `v6` or `*`.
    pub fn name(&self) -> (r: &'static str)
        ensures
            r@ == (match self {
                Family::V4 => "v4"@,
                Family::V6 => "v6"@,
                Family::Both => "*"@,
            }),
    {
        match self {
            Family::V4 => "v4",
            Family::V6 => "v6",
            Family::Both => "*",
        }
    }

    /// Where the family stands among the families: 0, 1 or 2.
    pub fn rank(&self) -> (r: u8)
        ensures
            r == (match self {
                Family::V4 => 0u8,
                Family::V6 => 1u8,
                Family::Both => 2u8,
            }),
    {
        match self {
            Family::V4 => 0,
            Family::V6 => 1,
            Family::Both => 2,
        }
    }
}

/// The transport protocol of a socket record.
#[derive(Debug, Clone, Copy, PartialEq, Eq, Structural, PartialOrd, Ord, Hash)]
#[allow(clippy::upper_case_acronyms)]
pub enum Protocol {
    TCP,
    UDP,
    UDPlite,
    RAW,
    SCTP,
    ICMP,
}

/// The protocols in the order in which they are asked for.
pub open spec fn all_protocols() -> Seq<Protocol> {
    seq![
        Protocol::TCP,
        Protocol::UDP,
        Protocol::UDPlite,
        Protocol::RAW,
        Protocol::SCTP,
        Protocol::ICMP,
    ]
}

impl Protocol {
    /// The number of the protocol in the IP header.
    pub open spec fn spec_proto_const(&self) -> u8 {
        match self {
            Protocol::TCP => 6,
            Protocol::UDP => 17,
            Protocol::UDPlite => 136,
            Protocol::RAW => 255,
            Protocol::SCTP => 132,
            Protocol::ICMP => 1,
        }
    }

    /// The number of the protocol in the IP header.
    #[verifier::when_used_as_spec(spec_proto_const)]
    pub fn proto_const(&self) -> (r: u8)
        ensures
            r == self.spec_proto_const(),
    {
        match self {
            Protocol::TCP => 6,
            Protocol::UDP => 17,
            Protocol::UDPlite => 136,
            Protocol::RAW => 255,
            Protocol::SCTP => 132,
            Protocol::ICMP => 1,
        }
    }

    /// Where the protocol stands in `all_protocols`.
    pub open spec fn spec_rank(&self) -> u8 {
        match self {
            Protocol::TCP => 0,
            Protocol::UDP => 1,
            Protocol::UDPlite => 2,
            Protocol::RAW => 3,
            Protocol::SCTP => 4,
            Protocol::ICMP => 5,
        }
    }

    /// Where the protocol stands in `all_protocols`.
    #[verifier::when_used_as_spec(spec_rank)]
    pub fn rank(&self) -> (r: u8)
        ensures
            r == self.spec_rank(),
            all_protocols()[r as int] == *self,
    {
        match self {
            Protocol::TCP => 0,
            Protocol::UDP => 1,
            Protocol::UDPlite => 2,
            Protocol::RAW => 3,
            Protocol::SCTP => 4,
            Protocol::ICMP => 5,
        }
    }

    /// All protocols, in the order in which they are asked for.
    pub fn all() -> (r: Vec<Protocol>)
        ensures
            r@ == all_protocols(),
    {
        let mut v: Vec<Protocol> = Vec::new();
        v.push(Protocol::TCP);
        v.push(Protocol::UDP);
        v.push(Protocol::UDPlite);
        v.push(Protocol::RAW);
        v.push(Protocol::SCTP);
        v.push(Protocol::ICMP);
        assert(v@ =~= all_protocols());
        v
    }

    /// The lower-case name of the protocol.
    pub open spec fn spec_name(&self) -> Seq<char> {
        match self {
            Protocol::TCP => "tcp"@,
            Protocol::UDP => "udp"@,
            Protocol::UDPlite => "udplite"@,
            Protocol::RAW => "raw"@,
            Protocol::SCTP => "sctp"@,
            Protocol::ICMP => "icmp"@,
        }
    }

    /// The lower-case name of the protocol.
    pub fn name(&self) -> (r: &'static str)
        ensures
            r@ == self.spec_name(),
    {
        match self {
            Protocol::TCP => "tcp",
            Protocol::UDP => "udp",
            Protocol::UDPlite => "udplite",
            Protocol::RAW => "raw",
            Protocol::SCTP => "sctp",
            Protocol::ICMP => "icmp",
        }
    }
}

/// The protocol whose name `s` is but for the case of its letters: the
/// first such in `all_protocols`.
pub open spec fn protocol_named(s: Seq<char>, from: int) -> Option<Protocol>
    decreases all_protocols().len() - from,
{
    if from < 0 || from >= all_protocols().len() {
        None
    } else if same_but_for_case(s, all_protocols()[from].spec_name()) {
        Some(all_protocols()[from])
    } else {
        protocol_named(s, from + 1)
    }
}

impl Protocol {
    /// The protocol whose name `s` is, in small or capital letters.
    pub fn parse(s: &str) -> (r: Option<Protocol>)
        ensures
            r == protocol_named(s@, 0),
    {
        let all = Protocol::all();
        let mut i: usize = 0;
        while i < all.len()
            invariant
                i <= all.len(),
                all@ == all_protocols(),
                protocol_named(s@, 0) == protocol_named(s@, i as int),
            decreases all.len() - i,
        {
            if eq_ignore_ascii_case(s, all[i].name()) {
                return Some(all[i]);
            }
            i = i + 1;
        }
        None
    }
}

/// How a socket record came by its interface.
#[derive(Debug, Clone, Copy, PartialEq, Eq, Structural, PartialOrd, Ord, Hash)]
pub enum IfaceName {
    /// No interface is known for the socket.
    Unknown,
    /// The socket is bound to this interface.
    Associated(u32),
    /// The routing table gives this interface for the socket's address.
    LocalRoute(u32),
}

/// The interface of a socket that names interface `bound` and listens on
/// `addr`, where `known` are the interfaces that have a name: `bound` itself
/// if it is known, else the owner of `addr` by the routes if that is known,
/// else none.
pub open spec fn attribution(known: Set<u32>, routes: Seq<Route>, bound: u32, addr: IpAddr)
    -> IfaceName {
    if known.contains(bound) {
        IfaceName::Associated(bound)
    } else {
        inferred(known, routes, addr)
    }
}

/// The interface that the routes give for `addr`, if it has a name.
pub open spec fn inferred(known: Set<u32>, routes: Seq<Route>, addr: IpAddr) -> IfaceName {
    match lookup(routes, addr) {
        Some(id) => if known.contains(id) {
            IfaceName::LocalRoute(id)
        } else {
            IfaceName::Unknown
        },
        None => IfaceName::Unknown,
    }
}

/// The interface that the routes give for `addr`, if it has a name.
pub fn infer_interface(interfaces: &HashMap<u32, String>, local_routes: &Rtbl, addr: IpAddr) -> (r:
    IfaceName)
    ensures
        r == inferred(interfaces@.dom(), local_routes@, addr),
{
    match local_routes.route(addr) {
        Some(id) => if interfaces.contains_key(&id) {
            IfaceName::LocalRoute(id)
        } else {
            IfaceName::Unknown
        },
        None => IfaceName::Unknown,
    }
}

/// The interface of a socket that names interface `bound` and listens on `addr`.
pub fn attribute(
    interfaces: &HashMap<u32, String>,
    local_routes: &Rtbl,
    bound: u32,
    addr: IpAddr,
) -> (r: IfaceName)
    ensures
        r == attribution(interfaces@.dom(), local_routes@, bound, addr),
{
    if interfaces.contains_key(&bound) {
        IfaceName::Associated(bound)
    } else {
        infer_interface(interfaces, local_routes, addr)
    }
}

/// Direct attribution comes first: a socket that names a known interface is
/// attributed to it, whatever the routes say of its address.
pub proof fn lemma_direct_attribution_precedence(
    known: Set<u32>,
    routes: Seq<Route>,
    bound: u32,
    addr: IpAddr,
)
    requires
        known.contains(bound),
    ensures
        attribution(known, routes, bound, addr) == IfaceName::Associated(bound),
{
}

/// Without direct attribution a socket gets an interface only from the
/// routes, and only one that has a name.
pub proof fn lemma_inferred_attribution(
    known: Set<u32>,
    routes: Seq<Route>,
    bound: u32,
    addr: IpAddr,
)
    requires
        !known.contains(bound),
    ensures
        attribution(known, routes, bound, addr) == inferred(known, routes, addr),
        !(attribution(known, routes, bound, addr) is Associated),
        forall|id: u32|
            attribution(known, routes, bound, addr) == IfaceName::LocalRoute(id) ==> known.contains(
                id,
            ) && lookup(routes, addr) == Some(id),
{
}

/// What the kernel reports of one socket.
#[derive(Debug, Clone, PartialEq, Eq)]
pub struct InetRecord {
    pub source_port: u16,
    pub destination_port: u16,
    pub source_address: IpAddr,
    /// The interface that the socket is bound to, 0 if none.
    pub interface_id: u32,
    pub uid: u32,
    pub inode: u32,
    /// The value of each "IPv6 only" option in the report, in order.
    pub v6only: Vec<bool>,
}

/// Whether some "IPv6 only" option is switched off.
pub open spec fn dual_stack(v6only: Seq<bool>) -> bool {
    exists|i: int| 0 <= i < v6only.len() && !v6only[i]
}

/// A listening socket.
#[derive(Debug, PartialEq, Eq, Structural, Clone, Copy)]
pub struct SockInfo {
    pub family: Family,
    pub protocol: Protocol,
    pub port: u16,
    pub addr: IpAddr,
    pub uid: u32,
    pub ino: Ino,
    pub iface: IfaceName,
}

/// The record of the socket that the kernel reported as `ir` when asked for
/// `family` and `protocol`. A socket with "IPv6 only" switched off counts as
/// dual-stack, whatever family was asked for.
pub open spec fn record_of(
    family: Family,
    protocol: Protocol,
    ir: InetRecord,
    known: Set<u32>,
    routes: Seq<Route>,
) -> SockInfo {
    SockInfo {
        family: if dual_stack(ir.v6only@) {
            Family::Both
        } else {
            family
        },
        protocol,
        port: ir.source_port,
        addr: ir.source_address,
        uid: ir.uid,
        ino: ir.inode as u64,
        iface: attribution(known, routes, ir.interface_id, ir.source_address),
    }
}

impl SockInfo {
    /// The record of the socket that the kernel reported as `ir` when asked
    /// for `family` and `protocol`.
    pub fn new(
        family: Family,
        protocol: Protocol,
        ir: &InetRecord,
        interfaces: &HashMap<u32, String>,
        local_routes: &Rtbl,
    ) -> (r: SockInfo)
        ensures
            r == record_of(family, protocol, *ir, interfaces@.dom(), local_routes@),
    {
        let mut both = false;
        let mut i: usize = 0;
        while i < ir.v6only.len()
            invariant
                i <= ir.v6only.len(),
                both <==> exists|k: int| 0 <= k < i && !ir.v6only@[k],
            decreases ir.v6only.len() - i,
        {
            if !ir.v6only[i] {
                both = true;
            }
            i = i + 1;
        }
        SockInfo {
            family: if both {
                Family::Both
            } else {
                family
            },
            protocol,
            port: ir.source_port,
            addr: ir.source_address,
            uid: ir.uid,
            ino: ir.inode as u64,
            iface: attribute(interfaces, local_routes, ir.interface_id, ir.source_address),
        }
    }

    /// The numbers by which records are put in order: port, protocol,
    /// address family of the address, address, family of the record.
    pub open spec fn sort_key_of(self) -> (u16, u8, u8, u128, u8) {
        (
            self.port,
            self.protocol.spec_rank(),
            if self.addr is V4 {
                0u8
            } else {
                1u8
            },
            match self.addr {
                IpAddr::V4(a) => a as u128,
                IpAddr::V6(a) => a,
            },
            match self.family {
                Family::V4 => 0u8,
                Family::V6 => 1u8,
                Family::Both => 2u8,
            },
        )
    }

    /// The numbers by which records are put in order.
    pub fn sort_key(&self) -> (k: (u16, u8, u8, u128, u8))
        ensures
            k == self.sort_key_of(),
    {
        let (side, bits): (u8, u128) = match self.addr {
            IpAddr::V4(a) => (0, a as u128),
            IpAddr::V6(a) => (1, a),
        };
        (self.port, self.protocol.rank(), side, bits, self.family.rank())
    }
}

} // verus!
