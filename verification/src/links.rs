//! Link enumeration: the names of the interfaces, and which of them are
//! tunnels.

use vstd::prelude::*;
use std::collections::HashMap;
use netlink_packet_core::{NetlinkHeader, NetlinkMessage, NetlinkPayload};
use netlink_packet_route::link::{LinkAttribute, LinkExtentMask, LinkMessage};
use netlink_packet_route::RouteNetlinkMessage;
use crate::query::Record;
use crate::transport::{FLAG_DUMP, FLAG_REQUEST};

verus! {

broadcast use vstd::std_specs::hash::group_hash_axioms;

/// What one item of the configuration of a VXLAN interface holds.
#[derive(Debug, Clone, Copy, PartialEq, Eq, Structural)]
pub enum VxlanItem {
    /// The port on which the interface listens.
    Port(u16),
    /// Nothing that the discovery reads.
    Other,
}

/// What one item of the link-info attribute of an interface holds.
#[derive(Debug, Clone, PartialEq, Eq)]
pub enum InfoItem {
    /// The mark of the WireGuard kind.
    WireguardKind,
    /// The configuration of a VXLAN interface, item by item.
    Vxlan(Vec<VxlanItem>),
    /// Nothing that the discovery reads.
    Other,
}

/// What one attribute of an interface holds.
#[derive(Debug, Clone, PartialEq, Eq)]
pub enum AttrItem {
    /// The name of the interface.
    Name(String),
    /// The link-info items, one by one.
    Infos(Vec<InfoItem>),
    /// Nothing that the discovery reads.
    Other,
}

/// What the kernel reports of one interface: its number and what each of
/// its attributes holds, in order.
#[derive(Debug, Clone, PartialEq, Eq)]
pub struct LinkReport {
    pub index: u32,
    pub attributes: Vec<AttrItem>,
}

/// The bytes of a request for all interfaces with the given header flags,
/// sequence number and filter mask, as `NetlinkMessage::serialize` writes
/// them on a host of the given byte order. The protocol library writes in
/// the byte order of the host it runs on.
pub uninterp spec fn link_request_bytes(
    flags: u16,
    sequence: u32,
    filter: u32,
    big_endian: bool,
) -> Seq<u8>;

/// The bytes of a request for all interfaces, with the given header flags
/// and sequence number and with `filter` as the mask of what the answer
/// may leave out: what the library writes for these on a host of one byte
/// order or the other.
///
/// Builds a `RouteNetlinkMessage::GetLink` with one `LinkAttribute::ExtMask`
/// and serialises it with `NetlinkMessage::finalize` and
/// `NetlinkMessage::serialize`, into a buffer of `buffer_len` bytes.
#[verifier::external_body]
pub(crate) fn encode_link_request(flags: u16, sequence: u32, filter: u32) -> (r: Vec<u8>)
    ensures
        exists|big_endian: bool| r@ == link_request_bytes(flags, sequence, filter, big_endian),
{
    let mut link = LinkMessage::default();
    link.attributes.push(LinkAttribute::ExtMask(vec![LinkExtentMask::from(filter)]));
    let mut header = NetlinkHeader::default();
    header.flags = flags;
    header.sequence_number = sequence;
    let payload = NetlinkPayload::from(RouteNetlinkMessage::GetLink(link));
    let mut packet = NetlinkMessage::new(header, payload);
    packet.finalize();
    let mut buf = vec![0; packet.buffer_len()];
    packet.serialize(&mut buf[..]);
    buf
}

/// The mask that lets the kernel leave the statistics out of its answer.
pub const FILTER_SKIP_STATS: u32 = 8;

/// The bytes of the dump request for all interfaces: a request with the
/// dump and request flags set, the sequence number 1, and the mask that
/// leaves the statistics out, in the byte order of the host.
pub fn link_request() -> (r: Vec<u8>)
    ensures
        exists|big_endian: bool|
            r@ == link_request_bytes(FLAG_DUMP | FLAG_REQUEST, 1, FILTER_SKIP_STATS, big_endian),
{
    encode_link_request(FLAG_DUMP | FLAG_REQUEST, 1, FILTER_SKIP_STATS)
}

/// What the discovery reads of one reported interface.
#[derive(Debug, Clone, PartialEq, Eq)]
pub struct LinkRecord {
    /// The number of the interface.
    pub index: u32,
    /// The names that its attributes give, in order.
    pub names: Vec<String>,
    /// How many of its link-info items say that it is of the WireGuard kind.
    pub wireguard_kinds: usize,
    /// The ports in its VXLAN configuration, in order.
    pub vxlan_ports: Vec<u16>,
}

/// The ports in the items of a VXLAN configuration, in order.
pub open spec fn ports_of(data: Seq<VxlanItem>) -> Seq<u16>
    decreases data.len(),
{
    if data.len() == 0 {
        Seq::empty()
    } else {
        match data.last() {
            VxlanItem::Port(port) => ports_of(data.drop_last()).push(port),
            VxlanItem::Other => ports_of(data.drop_last()),
        }
    }
}

/// The ports in the VXLAN configurations among link-info items, in order.
pub open spec fn info_ports(infos: Seq<InfoItem>) -> Seq<u16>
    decreases infos.len(),
{
    if infos.len() == 0 {
        Seq::empty()
    } else {
        match infos.last() {
            InfoItem::Vxlan(data) => info_ports(infos.drop_last()) + ports_of(data@),
            _ => info_ports(infos.drop_last()),
        }
    }
}

/// How many of the link-info items are marks of the WireGuard kind.
pub open spec fn info_kinds(infos: Seq<InfoItem>) -> nat
    decreases infos.len(),
{
    if infos.len() == 0 {
        0
    } else {
        match infos.last() {
            InfoItem::WireguardKind => info_kinds(infos.drop_last()) + 1,
            _ => info_kinds(infos.drop_last()),
        }
    }
}

/// The names that the attributes give, in order.
pub open spec fn names_in(holds: Seq<AttrItem>) -> Seq<Seq<char>>
    decreases holds.len(),
{
    if holds.len() == 0 {
        Seq::empty()
    } else {
        match holds.last() {
            AttrItem::Name(name) => names_in(holds.drop_last()).push(name@),
            _ => names_in(holds.drop_last()),
        }
    }
}

/// How many marks of the WireGuard kind the attributes hold.
pub open spec fn kinds_in(holds: Seq<AttrItem>) -> nat
    decreases holds.len(),
{
    if holds.len() == 0 {
        0
    } else {
        match holds.last() {
            AttrItem::Infos(infos) => kinds_in(holds.drop_last()) + info_kinds(infos@),
            _ => kinds_in(holds.drop_last()),
        }
    }
}

/// The ports in the VXLAN configurations that the attributes hold, in
/// order.
pub open spec fn ports_in(holds: Seq<AttrItem>) -> Seq<u16>
    decreases holds.len(),
{
    if holds.len() == 0 {
        Seq::empty()
    } else {
        match holds.last() {
            AttrItem::Infos(infos) => ports_in(holds.drop_last()) + info_ports(infos@),
            _ => ports_in(holds.drop_last()),
        }
    }
}

/// A count as a machine number: the count itself, or the greatest number
/// if the count is greater.
pub open spec fn capped(n: nat) -> usize {
    if n > usize::MAX {
        usize::MAX
    } else {
        n as usize
    }
}

/// `record` is what the discovery reads of an interface with the given
/// number whose attributes hold `holds`: its number, the names that the
/// attributes give, the number of marks of the WireGuard kind, and the
/// ports of VXLAN configurations, each in order.
pub open spec fn reads_link(record: LinkRecord, number: u32, holds: Seq<AttrItem>) -> bool {
    &&& record.index == number
    &&& crate::text::texts(record.names@) == names_in(holds)
    &&& record.wireguard_kinds == capped(kinds_in(holds))
    &&& record.vxlan_ports@ == ports_in(holds)
}

/// Reads out of a reported interface what the discovery needs.
pub fn link_record(report: &LinkReport) -> (r: LinkRecord)
    ensures
        reads_link(r, report.index, report.attributes@),
{
    let ghost holds = report.attributes@;
    let n = report.attributes.len();
    let mut names: Vec<String> = Vec::new();
    let mut wireguard_kinds: usize = 0;
    let mut vxlan_ports: Vec<u16> = Vec::new();
    let mut a: usize = 0;
    proof {
        assert(holds.take(0) =~= Seq::<AttrItem>::empty());
        assert(crate::text::texts(names@) =~= names_in(holds.take(0)));
    }
    while a < n
        invariant
            a <= n,
            n == holds.len(),
            holds == report.attributes@,
            crate::text::texts(names@) == names_in(holds.take(a as int)),
            wireguard_kinds == capped(kinds_in(holds.take(a as int))),
            vxlan_ports@ == ports_in(holds.take(a as int)),
        decreases n - a,
    {
        let ghost before = holds.take(a as int);
        proof {
            assert(holds.take(a + 1).drop_last() =~= before);
            assert(holds.take(a + 1).last() == holds[a as int]);
        }
        match &report.attributes[a] {
            AttrItem::Name(name) => {
                let ghost shown = crate::text::texts(names@);
                names.push(name.clone());
                assert(crate::text::texts(names@) =~= shown.push(name@));
            },
            AttrItem::Infos(infos) => {
                let count = infos.len();
                let mut i: usize = 0;
                proof {
                    assert(infos@.take(0) =~= Seq::<InfoItem>::empty());
                    assert(vxlan_ports@ =~= ports_in(before) + info_ports(infos@.take(0)));
                }
                while i < count
                    invariant
                        i <= count,
                        count == infos.len(),
                        wireguard_kinds == capped(
                            kinds_in(before) + info_kinds(infos@.take(i as int)),
                        ),
                        vxlan_ports@ == ports_in(before) + info_ports(infos@.take(i as int)),
                    decreases count - i,
                {
                    let ghost earlier = infos@.take(i as int);
                    proof {
                        assert(infos@.take(i + 1).drop_last() =~= earlier);
                        assert(infos@.take(i + 1).last() == infos@[i as int]);
                    }
                    match &infos[i] {
                        InfoItem::WireguardKind => {
                            if wireguard_kinds < usize::MAX {
                                wireguard_kinds = wireguard_kinds + 1;
                            }
                        },
                        InfoItem::Vxlan(data) => {
                            let items = data.len();
                            let mut d: usize = 0;
                            proof {
                                assert(data@.take(0) =~= Seq::<VxlanItem>::empty());
                                assert(vxlan_ports@ =~= ports_in(before) + info_ports(earlier)
                                    + ports_of(data@.take(0)));
                            }
                            while d < items
                                invariant
                                    d <= items,
                                    items == data.len(),
                                    vxlan_ports@ == ports_in(before) + info_ports(earlier)
                                        + ports_of(data@.take(d as int)),
                                decreases items - d,
                            {
                                proof {
                                    assert(data@.take(d + 1).drop_last() =~= data@.take(d as int));
                                    assert(data@.take(d + 1).last() == data@[d as int]);
                                }
                                match data[d] {
                                    VxlanItem::Port(port) => {
                                        vxlan_ports.push(port);
                                        assert(vxlan_ports@ =~= ports_in(before) + info_ports(
                                            earlier,
                                        ) + ports_of(data@.take(d + 1)));
                                    },
                                    VxlanItem::Other => {},
                                }
                                d = d + 1;
                            }
                            proof {
                                assert(data@.take(items as int) =~= data@);
                                assert(ports_in(before) + info_ports(earlier) + ports_of(data@)
                                    =~= ports_in(before) + (info_ports(earlier) + ports_of(data@)));
                            }
                        },
                        InfoItem::Other => {},
                    }
                    i = i + 1;
                }
                proof {
                    assert(infos@.take(count as int) =~= infos@);
                }
            },
            AttrItem::Other => {},
        }
        a = a + 1;
    }
    proof {
        assert(holds.take(n as int) =~= holds);
    }
    LinkRecord { index: report.index, names, wireguard_kinds, vxlan_ports }
}

/// What link enumeration found.
pub struct Interfaces {
    /// The name of each interface, by its number.
    pub id2name: HashMap<u32, String>,
    /// The interfaces of the WireGuard kind, whose port must be asked for.
    pub wireguard_ids: Vec<u32>,
    /// The VXLAN interfaces with the port that their configuration gives.
    pub vxlan_ports: Vec<(u32, u16)>,
}

/// What link enumeration found, as plain values.
pub struct Found {
    pub names: Map<u32, String>,
    pub wireguard_ids: Seq<u32>,
    pub vxlan_ports: Seq<(u32, u16)>,
}

impl View for Interfaces {
    type V = Found;

    open spec fn view(&self) -> Found {
        Found {
            names: self.id2name@,
            wireguard_ids: self.wireguard_ids@,
            vxlan_ports: self.vxlan_ports@,
        }
    }
}

/// What is known after one more reported interface: the last name that its
/// attributes give is its name; it is listed once as a WireGuard interface
/// for each mark of that kind; each port of its VXLAN configuration is
/// listed with it.
pub open spec fn after_link(before: Found, link: LinkRecord) -> Found {
    Found {
        names: if link.names@.len() == 0 {
            before.names
        } else {
            before.names.insert(link.index, link.names@.last())
        },
        wireguard_ids: before.wireguard_ids + Seq::new(
            link.wireguard_kinds as nat,
            |i: int| link.index,
        ),
        vxlan_ports: before.vxlan_ports + link.vxlan_ports@.map_values(
            |port: u16| (link.index, port),
        ),
    }
}

/// What is known after the records of a dump, in order; records that are
/// no interfaces change nothing.
pub open spec fn after_records(before: Found, records: Seq<Record>) -> Found
    decreases records.len(),
{
    if records.len() == 0 {
        before
    } else {
        let known = after_records(before, records.drop_last());
        match records.last() {
            Record::Link(link) => after_link(known, link),
            _ => known,
        }
    }
}

/// Nothing is known.
pub open spec fn nothing_found() -> Found {
    Found { names: Map::empty(), wireguard_ids: Seq::empty(), vxlan_ports: Seq::empty() }
}

impl Default for Interfaces {
    /// No interface at all.
    fn default() -> (r: Interfaces)
        ensures
            r@ == nothing_found(),
    {
        Interfaces { id2name: HashMap::new(), wireguard_ids: Vec::new(), vxlan_ports: Vec::new() }
    }
}

impl Interfaces {
    /// Takes note of one reported interface.
    pub fn absorb(&mut self, link: &LinkRecord)
        ensures
            final(self)@ == after_link(old(self)@, *link),
    {
        let n = link.names.len();
        if n > 0 {
            self.id2name.insert(link.index, link.names[n - 1].clone());
        }
        let mut k: usize = 0;
        assert(self.wireguard_ids@ =~= old(self).wireguard_ids@ + Seq::new(
            0,
            |i: int| link.index,
        ));
        while k < link.wireguard_kinds
            invariant
                k <= link.wireguard_kinds,
                self.id2name@ == after_link(old(self)@, *link).names,
                self.vxlan_ports == old(self).vxlan_ports,
                self.wireguard_ids@ == old(self).wireguard_ids@ + Seq::new(
                    k as nat,
                    |i: int| link.index,
                ),
            decreases link.wireguard_kinds - k,
        {
            self.wireguard_ids.push(link.index);
            k = k + 1;
            assert(self.wireguard_ids@ =~= old(self).wireguard_ids@ + Seq::new(
                k as nat,
                |i: int| link.index,
            ));
        }
        let mut p: usize = 0;
        assert(self.vxlan_ports@ =~= old(self).vxlan_ports@ + link.vxlan_ports@.take(0).map_values(
            |port: u16| (link.index, port),
        ));
        while p < link.vxlan_ports.len()
            invariant
                p <= link.vxlan_ports.len(),
                self.id2name@ == after_link(old(self)@, *link).names,
                self.wireguard_ids@ == after_link(old(self)@, *link).wireguard_ids,
                self.vxlan_ports@ == old(self).vxlan_ports@ + link.vxlan_ports@.take(
                    p as int,
                ).map_values(|port: u16| (link.index, port)),
            decreases link.vxlan_ports.len() - p,
        {
            self.vxlan_ports.push((link.index, link.vxlan_ports[p]));
            p = p + 1;
            assert(self.vxlan_ports@ =~= old(self).vxlan_ports@ + link.vxlan_ports@.take(
                p as int,
            ).map_values(|port: u16| (link.index, port)));
        }
        assert(link.vxlan_ports@.take(link.vxlan_ports.len() as int) =~= link.vxlan_ports@);
    }
}

/// The interfaces that the records of a link dump report.
pub fn interface_names(records: &Vec<Record>) -> (r: Interfaces)
    ensures
        r@ == after_records(nothing_found(), records@),
{
    let mut found = Interfaces::default();
    let mut i: usize = 0;
    assert(records@.take(0) =~= Seq::<Record>::empty());
    while i < records.len()
        invariant
            i <= records.len(),
            found@ == after_records(nothing_found(), records@.take(i as int)),
        decreases records.len() - i,
    {
        assert(records@.take(i + 1).drop_last() =~= records@.take(i as int));
        match &records[i] {
            Record::Link(link) => {
                found.absorb(link);
            },
            _ => {},
        }
        i = i + 1;
    }
    assert(records@.take(records.len() as int) =~= records@);
    found
}

} // verus!
