//! Enumeration of the local routes, from which the routing table is built.

use vstd::prelude::*;
use netlink_packet_core::{NetlinkHeader, NetlinkMessage, NetlinkPayload};
use netlink_packet_route::route::{RouteMessage, RouteType};
use netlink_packet_route::RouteNetlinkMessage;
use crate::addr::IpAddr;
use crate::query::Record;
use crate::transport::{FLAG_DUMP, FLAG_REQUEST};
use crate::route::{longest_first, Prefix, Route, Rtbl};

verus! {

/// The bytes of a request for the routes of table `table` and type `kind`
/// with the given header flags, as `NetlinkMessage::serialize` writes them
/// on a host of the given byte order. The protocol library writes in the
/// byte order of the host it runs on.
pub uninterp spec fn route_request_bytes(flags: u16, table: u8, kind: u8, big_endian: bool) -> Seq<
    u8,
>;

/// The bytes of a request for the routes of table `table` and type `kind`,
/// with the given header flags: what the library writes for these on a
/// host of one byte order or the other.
///
/// Builds a `RouteNetlinkMessage::GetRoute` and serialises it with
/// `NetlinkMessage::finalize` and `NetlinkMessage::serialize`, into a buffer
/// of `buffer_len` bytes.
#[verifier::external_body]
pub(crate) fn encode_route_request(flags: u16, table: u8, kind: u8) -> (r: Vec<u8>)
    ensures
        exists|big_endian: bool| r@ == route_request_bytes(flags, table, kind, big_endian),
{
    let mut route = RouteMessage::default();
    route.header.table = table;
    route.header.kind = RouteType::from(kind);
    let mut header = NetlinkHeader::default();
    header.flags = flags;
    let payload = NetlinkPayload::from(RouteNetlinkMessage::GetRoute(route));
    let mut packet = NetlinkMessage::new(header, payload);
    packet.finalize();
    let mut buf = vec![0; packet.buffer_len()];
    packet.serialize(&mut buf[..]);
    buf
}

/// The number of the kernel's table of local routes.
pub const TABLE_LOCAL: u8 = 255;

/// The number of the route type "accept locally".
pub const TYPE_LOCAL: u8 = 2;

/// The bytes of the dump request for the local routes: a request with the
/// dump and request flags set, for the local table and the local type, in
/// the byte order of the host.
pub fn route_request() -> (r: Vec<u8>)
    ensures
        exists|big_endian: bool|
            r@ == route_request_bytes(FLAG_REQUEST | FLAG_DUMP, TABLE_LOCAL, TYPE_LOCAL, big_endian),
{
    encode_route_request(FLAG_REQUEST | FLAG_DUMP, TABLE_LOCAL, TYPE_LOCAL)
}

/// The destination of a route.
#[derive(Debug, Clone, Copy, PartialEq, Eq, Structural)]
pub enum Destination {
    /// A four-byte address.
    V4(u32),
    /// A sixteen-byte address.
    V6(u128),
    /// Anything else.
    Other,
}

/// What one attribute of a reported route holds.
#[derive(Debug, Clone, Copy, PartialEq, Eq, Structural)]
pub enum RouteItem {
    /// The outgoing interface.
    Oif(u32),
    /// The destination.
    Destination(Destination),
    /// Nothing that the discovery reads.
    Other,
}

/// The outgoing interfaces that the attributes give, in order.
pub open spec fn interfaces_in(items: Seq<RouteItem>) -> Seq<u32>
    decreases items.len(),
{
    if items.len() == 0 {
        Seq::empty()
    } else {
        match items.last() {
            RouteItem::Oif(iface) => interfaces_in(items.drop_last()).push(iface),
            _ => interfaces_in(items.drop_last()),
        }
    }
}

/// The destinations that the attributes give, in order.
pub open spec fn destinations_in(items: Seq<RouteItem>) -> Seq<Destination>
    decreases items.len(),
{
    if items.len() == 0 {
        Seq::empty()
    } else {
        match items.last() {
            RouteItem::Destination(dst) => destinations_in(items.drop_last()).push(dst),
            _ => destinations_in(items.drop_last()),
        }
    }
}

/// What the kernel reports of one route: the table, the type and the
/// length of the destination prefix of its header, and what each of its
/// attributes holds, in order.
#[derive(Debug, Clone, PartialEq, Eq)]
pub struct RouteReport {
    pub table: u8,
    pub kind: u8,
    pub prefix_len: u8,
    pub attributes: Vec<RouteItem>,
}

/// What the discovery reads of one reported route.
#[derive(Debug, Clone, PartialEq, Eq)]
pub struct RouteRecord {
    pub table: u8,
    pub kind: u8,
    pub prefix_len: u8,
    /// The outgoing interfaces that its attributes give, in order.
    pub out_interfaces: Vec<u32>,
    /// The destinations that its attributes give, in order.
    pub destinations: Vec<Destination>,
}

/// Why the routes could not be read.
#[derive(Debug, Clone, Copy, PartialEq, Eq, Structural)]
pub enum RouteError {
    /// A local route leads to an address that is neither IPv4 nor IPv6.
    UnknownAddressFamily,
}

/// `record` is what the discovery reads of a route with the header values
/// `head` whose attributes hold `holds`: the table, the type and the prefix
/// length, and the outgoing interfaces and the destinations that the
/// attributes give, each in order.
pub open spec fn reads_route(record: RouteRecord, head: (u8, u8, u8), holds: Seq<RouteItem>) -> bool {
    &&& (record.table, record.kind, record.prefix_len) == head
    &&& record.out_interfaces@ == interfaces_in(holds)
    &&& record.destinations@ == destinations_in(holds)
}

/// Reads out of a reported route what the discovery needs.
pub fn route_record(report: &RouteReport) -> (r: RouteRecord)
    ensures
        reads_route(r, (report.table, report.kind, report.prefix_len), report.attributes@),
{
    let n = report.attributes.len();
    let mut out_interfaces: Vec<u32> = Vec::new();
    let mut destinations: Vec<Destination> = Vec::new();
    let mut a: usize = 0;
    assert(report.attributes@.take(0) =~= Seq::<RouteItem>::empty());
    while a < n
        invariant
            a <= n,
            n == report.attributes.len(),
            out_interfaces@ == interfaces_in(report.attributes@.take(a as int)),
            destinations@ == destinations_in(report.attributes@.take(a as int)),
        decreases n - a,
    {
        assert(report.attributes@.take(a + 1).drop_last() =~= report.attributes@.take(a as int));
        match report.attributes[a] {
            RouteItem::Oif(iface) => {
                out_interfaces.push(iface);
            },
            RouteItem::Destination(dst) => {
                destinations.push(dst);
            },
            RouteItem::Other => {},
        }
        a = a + 1;
    }
    assert(report.attributes@.take(n as int) =~= report.attributes@);
    RouteRecord {
        table: report.table,
        kind: report.kind,
        prefix_len: report.prefix_len,
        out_interfaces,
        destinations,
    }
}

/// The routing-table entry that a reported route gives.
///
/// Only a route of the local table and of the local type counts, and only
/// if it names an outgoing interface and a destination; of several the first
/// of each is taken. Its destination must be an IPv4 or IPv6 address.
pub open spec fn entry_of(r: RouteRecord) -> Result<Option<Route>, RouteError> {
    if r.table == TABLE_LOCAL && r.kind == TYPE_LOCAL && r.out_interfaces@.len() > 0
        && r.destinations@.len() > 0 {
        match r.destinations@[0] {
            Destination::V4(a) => Ok(
                Some(
                    Route {
                        pfx: Prefix { dst: IpAddr::V4(a), bits: r.prefix_len },
                        iface: r.out_interfaces@[0],
                    },
                ),
            ),
            Destination::V6(a) => Ok(
                Some(
                    Route {
                        pfx: Prefix { dst: IpAddr::V6(a), bits: r.prefix_len },
                        iface: r.out_interfaces@[0],
                    },
                ),
            ),
            Destination::Other => Err(RouteError::UnknownAddressFamily),
        }
    } else {
        Ok(None)
    }
}

/// The routing-table entry that a reported route gives.
pub fn route_entry(r: &RouteRecord) -> (e: Result<Option<Route>, RouteError>)
    ensures
        e == entry_of(*r),
{
    if r.table == TABLE_LOCAL && r.kind == TYPE_LOCAL && r.out_interfaces.len() > 0
        && r.destinations.len() > 0 {
        let iface = r.out_interfaces[0];
        match r.destinations[0] {
            Destination::V4(a) => Ok(
                Some(Route { pfx: Prefix { dst: IpAddr::V4(a), bits: r.prefix_len }, iface }),
            ),
            Destination::V6(a) => Ok(
                Some(Route { pfx: Prefix { dst: IpAddr::V6(a), bits: r.prefix_len }, iface }),
            ),
            Destination::Other => Err(RouteError::UnknownAddressFamily),
        }
    } else {
        Ok(None)
    }
}

/// The entry that a record of a dump gives; records that are no routes
/// give none.
pub open spec fn record_entry(r: Record) -> Result<Option<Route>, RouteError> {
    match r {
        Record::Route(route) => entry_of(route),
        _ => Ok(None),
    }
}

/// The entries that the records of a dump give, in order, or the first
/// failure among them.
pub open spec fn entries_of(records: Seq<Record>) -> Result<Seq<Route>, RouteError>
    decreases records.len(),
{
    if records.len() == 0 {
        Ok(Seq::empty())
    } else {
        match entries_of(records.drop_last()) {
            Err(e) => Err(e),
            Ok(before) => match record_entry(records.last()) {
                Err(e) => Err(e),
                Ok(Some(route)) => Ok(before.push(route)),
                Ok(None) => Ok(before),
            },
        }
    }
}

/// The routing table of the local routes among the records of a dump.
pub fn local_routes(records: &Vec<Record>) -> (r: Result<Rtbl, RouteError>)
    ensures
        match r {
            Ok(table) => entries_of(records@) is Ok && table@ == longest_first(
                entries_of(records@)->Ok_0,
                0,
            ),
            Err(e) => entries_of(records@) == Err::<Seq<Route>, RouteError>(e),
        },
{
    let mut routes: Vec<Route> = Vec::new();
    let mut i: usize = 0;
    assert(records@.take(0) =~= Seq::<Record>::empty());
    while i < records.len()
        invariant
            i <= records.len(),
            entries_of(records@.take(i as int)) == Ok::<Seq<Route>, RouteError>(routes@),
        decreases records.len() - i,
    {
        assert(records@.take(i + 1).drop_last() =~= records@.take(i as int));
        proof {
            lemma_failure_stays(records@, i + 1);
        }
        match &records[i] {
            Record::Route(route) => {
                match route_entry(route) {
                    Ok(Some(entry)) => {
                        routes.push(entry);
                    },
                    Ok(None) => {},
                    Err(e) => {
                        return Err(e);
                    },
                }
            },
            _ => {},
        }
        i = i + 1;
    }
    assert(records@.take(records.len() as int) =~= records@);
    Ok(Rtbl::new(routes))
}

/// Once the first `n` records fail, all of them fail in the same way.
pub proof fn lemma_failure_stays(records: Seq<Record>, n: int)
    requires
        0 <= n <= records.len(),
    ensures
        entries_of(records.take(n)) is Err ==> entries_of(records) == entries_of(records.take(n)),
    decreases records.len() - n,
{
    if n < records.len() {
        assert(records.take(n + 1).drop_last() =~= records.take(n));
        lemma_failure_stays(records, n + 1);
    } else {
        assert(records.take(n) =~= records);
    }
}

} // verus!
