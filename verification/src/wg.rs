//! The tunnel device query: the listen ports of the WireGuard interfaces.

use vstd::prelude::*;
use netlink_packet_core::{NetlinkHeader, NetlinkMessage, NetlinkPayload};
use netlink_packet_generic::ctrl::nlas::GenlCtrlAttrs;
use netlink_packet_generic::ctrl::{GenlCtrl, GenlCtrlCmd};
use netlink_packet_generic::GenlMessage;
use netlink_packet_wireguard::nlas::WgDeviceAttrs;
use netlink_packet_wireguard::{Wireguard, WireguardCmd};
use crate::query::Record;
use crate::seqs::present;
use crate::transport::{FLAG_ACK, FLAG_DUMP, FLAG_REQUEST};
use crate::tunnel::{owner_of, TunnelPort, TunnelPorts};

verus! {

/// The bytes of a request to the control family for the family of the given
/// name with the given header flags and sequence number, as
/// `NetlinkMessage::serialize` writes them on a host of the given byte
/// order.
pub uninterp spec fn family_request_bytes(
    flags: u16,
    sequence: u32,
    name: Seq<char>,
    big_endian: bool,
) -> Seq<u8>;

/// The bytes of a request to the WireGuard family, known to the kernel as
/// family `family`, for the device with interface number `interface`, with
/// the given header flags and sequence number, as
/// `NetlinkMessage::serialize` writes them on a host of the given byte
/// order.
pub uninterp spec fn device_request_bytes(
    flags: u16,
    sequence: u32,
    family: u16,
    interface: u32,
    big_endian: bool,
) -> Seq<u8>;

/// The bytes of a request to the control family for the family of the given
/// name, with the given header flags and sequence number: what the library
/// writes for these on a host of one byte order or the other.
///
/// The name must be short enough for the length of its attribute to fit
/// into sixteen bits, else the library writes out of range.
///
/// Builds a `GenlCtrl` with the command `GenlCtrlCmd::GetFamily` and one
/// `GenlCtrlAttrs::FamilyName`, and serialises it with
/// `NetlinkMessage::finalize` and `NetlinkMessage::serialize`, into a buffer
/// of `buffer_len` bytes.
#[verifier::external_body]
pub(crate) fn encode_family_request(flags: u16, sequence: u32, name: &str) -> (r: Vec<u8>)
    requires
        name@.len() < 16000,
    ensures
        exists|big_endian: bool| r@ == family_request_bytes(flags, sequence, name@, big_endian),
{
    let nlas = vec![GenlCtrlAttrs::FamilyName(name.to_owned())];
    let message = GenlMessage::from_payload(GenlCtrl { cmd: GenlCtrlCmd::GetFamily, nlas });
    let mut header = NetlinkHeader::default();
    header.flags = flags;
    header.sequence_number = sequence;
    let mut packet = NetlinkMessage::new(header, NetlinkPayload::from(message));
    packet.finalize();
    let mut buf = vec![0; packet.buffer_len()];
    packet.serialize(&mut buf[..]);
    buf
}

/// The bytes of a request to the WireGuard family, known to the kernel as
/// family `family`, for the device with interface number `interface`, with
/// the given header flags and sequence number: what the library writes
/// for these on a host of one byte order or the other.
///
/// Builds a `Wireguard` with the command `WireguardCmd::GetDevice` and one
/// `WgDeviceAttrs::IfIndex`, sets the family with
/// `GenlMessage::set_resolved_family_id`, and serialises it with
/// `NetlinkMessage::finalize` and `NetlinkMessage::serialize`, into a buffer
/// of `buffer_len` bytes.
#[verifier::external_body]
pub(crate) fn encode_device_request(flags: u16, sequence: u32, family: u16, interface: u32) -> (r:
    Vec<u8>)
    ensures
        exists|big_endian: bool|
            r@ == device_request_bytes(flags, sequence, family, interface, big_endian),
{
    let nlas = vec![WgDeviceAttrs::IfIndex(interface)];
    let mut message = GenlMessage::from_payload(Wireguard { cmd: WireguardCmd::GetDevice, nlas });
    message.set_resolved_family_id(family);
    let mut header = NetlinkHeader::default();
    header.flags = flags;
    header.sequence_number = sequence;
    let mut packet = NetlinkMessage::new(header, NetlinkPayload::from(message));
    packet.finalize();
    let mut buf = vec![0; packet.buffer_len()];
    packet.serialize(&mut buf[..]);
    buf
}

/// The values that are present among what the attributes of an answer
/// hold, in order: the family identifiers of an answer of the control
/// family, or the listen ports of a report of a tunnel device.
fn present_values(items: &Vec<Option<u16>>) -> (r: Vec<u16>)
    ensures
        r@ == present(items@),
{
    let n = items.len();
    let mut out: Vec<u16> = Vec::new();
    let mut a: usize = 0;
    assert(items@.take(0) =~= Seq::<Option<u16>>::empty());
    while a < n
        invariant
            a <= n,
            n == items.len(),
            out@ == present(items@.take(a as int)),
        decreases n - a,
    {
        assert(items@.take(a + 1).drop_last() =~= items@.take(a as int));
        if let Some(value) = items[a] {
            out.push(value);
        }
        a = a + 1;
    }
    assert(items@.take(n as int) =~= items@);
    out
}

/// The family identifiers in an answer of the control family, in order,
/// given what each of its attributes holds.
pub fn family_ids(items: &Vec<Option<u16>>) -> (ids: Vec<u16>)
    ensures
        ids@ == present(items@),
{
    present_values(items)
}

/// The listen ports in a report of a tunnel device, in order, given what
/// each of its attributes holds.
pub fn listen_ports(items: &Vec<Option<u16>>) -> (ports: Vec<u16>)
    ensures
        ports@ == present(items@),
{
    present_values(items)
}

/// The bytes of the request that resolves the identifier of the WireGuard
/// family: a request for the family named `wireguard`, with the request
/// and acknowledge flags set and the sequence number 1, in the byte order
/// of the host.
pub fn family_request() -> (r: Vec<u8>)
    ensures
        exists|big_endian: bool|
            r@ == family_request_bytes(FLAG_REQUEST | FLAG_ACK, 1, "wireguard"@, big_endian),
{
    proof {
        reveal_strlit("wireguard");
    }
    encode_family_request(FLAG_REQUEST | FLAG_ACK, 1, "wireguard")
}

/// The bytes of the request for the device with interface number
/// `interface`, for the WireGuard family that the kernel knows as `family`:
/// a request with the dump, request and acknowledge flags set and the
/// sequence number 2, in the byte order of the host.
pub fn device_request(family: u16, interface: u32) -> (r: Vec<u8>)
    ensures
        exists|big_endian: bool|
            r@ == device_request_bytes(
                FLAG_DUMP | FLAG_REQUEST | FLAG_ACK,
                2,
                family,
                interface,
                big_endian,
            ),
{
    encode_device_request(FLAG_DUMP | FLAG_REQUEST | FLAG_ACK, 2, family, interface)
}

/// Whether the tunnel device query has anything to ask: it has not if there
/// is no WireGuard interface.
pub fn needed(interface_ids: &Vec<u32>) -> (r: bool)
    ensures
        r == (interface_ids@.len() > 0),
{
    interface_ids.len() > 0
}

/// The family identifier that the records of an answer give: the last one
/// that they name.
pub open spec fn resolved_family(records: Seq<Record>) -> Option<u16>
    decreases records.len(),
{
    if records.len() == 0 {
        None
    } else {
        match records.last() {
            Record::Family(ids) => if ids@.len() > 0 {
                Some(ids@.last())
            } else {
                resolved_family(records.drop_last())
            },
            _ => resolved_family(records.drop_last()),
        }
    }
}

/// The family identifier that the records of an answer give. Without one
/// the tunnel device query cannot go on.
pub fn family_id(records: &Vec<Record>) -> (r: Option<u16>)
    ensures
        r == resolved_family(records@),
{
    let mut i: usize = records.len();
    assert(records@.take(i as int) =~= records@);
    while i > 0
        invariant
            i <= records.len(),
            resolved_family(records@) == resolved_family(records@.take(i as int)),
        decreases i,
    {
        i = i - 1;
        assert(records@.take(i + 1).drop_last() =~= records@.take(i as int));
        assert(records@.take(i + 1).last() == records@[i as int]);
        match &records[i] {
            Record::Family(ids) => {
                if ids.len() > 0 {
                    return Some(ids[ids.len() - 1]);
                }
            },
            _ => {},
        }
    }
    None
}

/// Two interfaces that report the same listen port.
#[derive(Debug, Clone, Copy, PartialEq, Eq, Structural)]
pub struct Collision {
    pub port: u16,
    /// The interface that reported the port first and keeps it.
    pub kept: u32,
    /// The interface whose report is passed over.
    pub ignored: u32,
}

/// The ports and the collisions after `interface` reported `port`.
pub open spec fn after_claim(
    state: (Seq<TunnelPort>, Seq<Collision>),
    interface: u32,
    port: u16,
) -> (Seq<TunnelPort>, Seq<Collision>) {
    match owner_of(state.0, port) {
        Some(first) => if first != interface {
            (state.0, state.1.push(Collision { port, kept: first, ignored: interface }))
        } else {
            state
        },
        None => (state.0.push(TunnelPort { iface: interface, port }), state.1),
    }
}

/// The ports and the collisions after `interface` reported each of
/// `ports`, in order.
pub open spec fn after_claims(
    state: (Seq<TunnelPort>, Seq<Collision>),
    interface: u32,
    ports: Seq<u16>,
) -> (Seq<TunnelPort>, Seq<Collision>)
    decreases ports.len(),
{
    if ports.len() == 0 {
        state
    } else {
        after_claim(after_claims(state, interface, ports.drop_last()), interface, ports.last())
    }
}

/// The ports and the collisions after the records of the answer for
/// `interface`, in order; only the reports of a device count.
pub open spec fn after_devices(
    state: (Seq<TunnelPort>, Seq<Collision>),
    interface: u32,
    records: Seq<Record>,
) -> (Seq<TunnelPort>, Seq<Collision>)
    decreases records.len(),
{
    if records.len() == 0 {
        state
    } else {
        let before = after_devices(state, interface, records.drop_last());
        match records.last() {
            Record::Device(ports) => after_claims(before, interface, ports@),
            _ => before,
        }
    }
}

/// Records that `interface` listens on each of `listen`, and each collision
/// with a port that another interface reported before.
pub fn claim_ports(
    ports: &mut TunnelPorts,
    collisions: &mut Vec<Collision>,
    interface: u32,
    listen: &Vec<u16>,
)
    ensures
        (final(ports)@, final(collisions)@) == after_claims(
            (old(ports)@, old(collisions)@),
            interface,
            listen@,
        ),
{
    let mut i: usize = 0;
    assert(listen@.take(0) =~= Seq::<u16>::empty());
    while i < listen.len()
        invariant
            i <= listen.len(),
            (ports@, collisions@) == after_claims(
                (old(ports)@, old(collisions)@),
                interface,
                listen@.take(i as int),
            ),
        decreases listen.len() - i,
    {
        assert(listen@.take(i + 1).drop_last() =~= listen@.take(i as int));
        match ports.claim(interface, listen[i]) {
            Some(first) => {
                collisions.push(Collision { port: listen[i], kept: first, ignored: interface });
            },
            None => {},
        }
        i = i + 1;
    }
    assert(listen@.take(listen.len() as int) =~= listen@);
}

/// Takes note of the answer to the request for the device `interface`:
/// of each listen port that it reports, and of each collision.
pub fn wireguards(
    ports: &mut TunnelPorts,
    collisions: &mut Vec<Collision>,
    interface: u32,
    records: &Vec<Record>,
)
    ensures
        (final(ports)@, final(collisions)@) == after_devices(
            (old(ports)@, old(collisions)@),
            interface,
            records@,
        ),
{
    let mut i: usize = 0;
    assert(records@.take(0) =~= Seq::<Record>::empty());
    while i < records.len()
        invariant
            i <= records.len(),
            (ports@, collisions@) == after_devices(
                (old(ports)@, old(collisions)@),
                interface,
                records@.take(i as int),
            ),
        decreases records.len() - i,
    {
        assert(records@.take(i + 1).drop_last() =~= records@.take(i as int));
        match &records[i] {
            Record::Device(listen) => {
                claim_ports(ports, collisions, interface, listen);
            },
            _ => {},
        }
        i = i + 1;
    }
    assert(records@.take(records.len() as int) =~= records@);
}

/// The ports and the collisions after each VXLAN interface of `embedded`
/// reported its port, in order.
pub open spec fn after_embedded(
    state: (Seq<TunnelPort>, Seq<Collision>),
    embedded: Seq<(u32, u16)>,
) -> (Seq<TunnelPort>, Seq<Collision>)
    decreases embedded.len(),
{
    if embedded.len() == 0 {
        state
    } else {
        after_claim(
            after_embedded(state, embedded.drop_last()),
            embedded.last().0,
            embedded.last().1,
        )
    }
}

/// Takes note of the ports that the link attributes of the VXLAN
/// interfaces give.
pub fn embedded_ports(
    ports: &mut TunnelPorts,
    collisions: &mut Vec<Collision>,
    embedded: &Vec<(u32, u16)>,
)
    ensures
        (final(ports)@, final(collisions)@) == after_embedded(
            (old(ports)@, old(collisions)@),
            embedded@,
        ),
{
    let mut i: usize = 0;
    assert(embedded@.take(0) =~= Seq::<(u32, u16)>::empty());
    while i < embedded.len()
        invariant
            i <= embedded.len(),
            (ports@, collisions@) == after_embedded(
                (old(ports)@, old(collisions)@),
                embedded@.take(i as int),
            ),
        decreases embedded.len() - i,
    {
        assert(embedded@.take(i + 1).drop_last() =~= embedded@.take(i as int));
        let (interface, port) = embedded[i];
        match ports.claim(interface, port) {
            Some(first) => {
                collisions.push(Collision { port, kept: first, ignored: interface });
            },
            None => {},
        }
        i = i + 1;
    }
    assert(embedded@.take(embedded.len() as int) =~= embedded@);
}

} // verus!
