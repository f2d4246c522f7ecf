//! Enumeration of the listening sockets over the socket-diagnostics
//! protocol.

use vstd::prelude::*;
use std::collections::HashMap;
use netlink_packet_core::{NetlinkHeader, NetlinkMessage, NetlinkPayload};
use netlink_packet_sock_diag::inet::nlas::Nla;
use netlink_packet_sock_diag::inet::{
    ExtensionFlags, InetRequest, InetResponse, SocketId, StateFlags,
};
use netlink_packet_sock_diag::SockDiagMessage;
use crate::addr::IpAddr;
use crate::query::{deliver, handed_on, signals_of, Record};
use crate::registry::{inserted, SocketPool};
use crate::route::{Route, Rtbl};
use crate::seqs::present;
use crate::sock::{
    all_protocols, record_of, Family, InetRecord, Protocol, SockInfo, AF_INET, AF_INET6,
};
use crate::transport::{contents, run, walk, Dump, Signal, FLAG_DUMP, FLAG_REQUEST};

verus! {

/// `netlink_packet_core::NetlinkMessage`: a decoded frame, header and
/// payload. Nothing is known of its contents but through the functions below.
#[verifier::external_type_specification]
#[verifier::external_body]
#[verifier::reject_recursive_types(I)]
pub struct ExNetlinkMessage<I>(NetlinkMessage<I>);

/// `netlink_packet_sock_diag::SockDiagMessage`: a message of the
/// socket-diagnostics protocol.
#[verifier::external_type_specification]
#[verifier::external_body]
pub struct ExSockDiagMessage(SockDiagMessage);

/// `netlink_packet_sock_diag::inet::InetResponse`: what the kernel reports
/// of one internet socket.
#[verifier::external_type_specification]
#[verifier::external_body]
pub struct ExInetResponse(InetResponse);

/// What the header of a socket report holds.
pub struct InetHead {
    pub source_port: u16,
    pub destination_port: u16,
    pub source_address: IpAddr,
    pub interface_id: u32,
    pub uid: u32,
    pub inode: u32,
}

/// What the header of a socket report holds: of its fields `uid` and
/// `inode`, and of its field `socket_id` the ports, the interface and the
/// source address, the address as the number that `u32::from` or
/// `u128::from` gives for it.
pub uninterp spec fn inet_head_of(response: InetResponse) -> InetHead;

/// What the attributes of a socket report hold, one item for each
/// attribute of its field `nlas`, in order: the value of the option for a
/// `Nla::SkV6Only`, nothing for any other.
pub uninterp spec fn inet_options(response: InetResponse) -> Seq<Option<bool>>;

/// What the payload of a decoded frame of the socket-diagnostics protocol
/// is: the variant of its `NetlinkPayload`, for an error reply with the code
/// that `ErrorMessage::raw_code` gives, which is 0 for a reply without code.
pub uninterp spec fn diag_signal(message: NetlinkMessage<SockDiagMessage>) -> Signal;

/// What a decoded frame of the socket-diagnostics protocol reports of a
/// socket: if its payload is a `SockDiagMessage::InetResponse`, what the
/// header and the attributes of that response hold.
pub uninterp spec fn diag_report(message: NetlinkMessage<SockDiagMessage>) -> Option<
    (InetHead, Seq<Option<bool>>),
>;

/// What `NetlinkMessage::<SockDiagMessage>::deserialize` makes of a frame
/// on a host of the given byte order: nothing if it fails, else what the
/// payload of the message is and what the message reports of a socket. The
/// protocol library decodes in the byte order of the host it runs on.
pub uninterp spec fn diag_frame(frame: Seq<u8>, big_endian: bool) -> Option<
    (Signal, Option<(InetHead, Seq<Option<bool>>)>),
>;

/// Decodes one frame as a message of the socket-diagnostics protocol, with
/// `NetlinkMessage::<SockDiagMessage>::deserialize`: what the library makes
/// of the frame on a host of one byte order or the other.
#[verifier::external_body]
pub(crate) fn decode_diag_frame(frame: &[u8]) -> (r: Option<NetlinkMessage<SockDiagMessage>>)
    ensures
        exists|big_endian: bool|
            match r {
                Some(message) => #[trigger] diag_frame(frame@, big_endian) == Some(
                    (diag_signal(message), diag_report(message)),
                ),
                None => diag_frame(frame@, big_endian) is None,
            },
{
    NetlinkMessage::<SockDiagMessage>::deserialize(frame).ok()
}

/// What the payload of a decoded frame is.
///
/// Tells the variants of `netlink_packet_core::NetlinkPayload` apart, and for
/// an error reply reads its code with `ErrorMessage::raw_code`, which gives 0
/// for a reply without code.
#[verifier::external_body]
pub(crate) fn message_signal(message: &NetlinkMessage<SockDiagMessage>) -> (r: Signal)
    ensures
        r == diag_signal(*message),
{
    match &message.payload {
        NetlinkPayload::Done(_) => Signal::Done,
        NetlinkPayload::Error(e) => Signal::Error(e.raw_code()),
        NetlinkPayload::Noop => Signal::Noop,
        NetlinkPayload::Overrun(_) => Signal::Overrun,
        NetlinkPayload::InnerMessage(_) => Signal::Inner,
        _ => Signal::Garbled,
    }
}

/// The report of an internet socket in a decoded frame, if its payload is
/// one: the field of `SockDiagMessage::InetResponse` in the field of
/// `NetlinkPayload::InnerMessage`.
#[verifier::external_body]
pub(crate) fn message_response(message: &NetlinkMessage<SockDiagMessage>) -> (r: Option<
    &InetResponse,
>)
    ensures
        match r {
            Some(response) => diag_report(*message) == Some(
                (inet_head_of(*response), inet_options(*response)),
            ),
            None => diag_report(*message) is None,
        },
{
    match &message.payload {
        NetlinkPayload::InnerMessage(SockDiagMessage::InetResponse(response)) => Some(&**response),
        _ => None,
    }
}

/// The fields of the header of a socket report that the discovery reads:
/// `uid` and `inode`, and of `socket_id` the ports, the interface and the
/// source address, the address as the number that `u32::from` or
/// `u128::from` gives for it.
#[verifier::external_body]
pub(crate) fn inet_head(response: &InetResponse) -> (r: InetHead)
    ensures
        r == inet_head_of(*response),
{
    let id = &response.header.socket_id;
    InetHead {
        source_port: id.source_port,
        destination_port: id.destination_port,
        source_address: match id.source_address {
            core::net::IpAddr::V4(a) => IpAddr::V4(u32::from(a)),
            core::net::IpAddr::V6(a) => IpAddr::V6(u128::from(a)),
        },
        interface_id: id.interface_id,
        uid: response.header.uid,
        inode: response.header.inode,
    }
}

/// Number of attributes of a socket report: the length of its field `nlas`.
#[verifier::external_body]
pub(crate) fn inet_attribute_count(response: &InetResponse) -> (n: usize)
    ensures
        n == inet_options(*response).len(),
{
    response.nlas.len()
}

/// The value of the "IPv6 only" option in attribute `i` of a socket report,
/// if the attribute is this option: the field of `Nla::SkV6Only`.
#[verifier::external_body]
pub(crate) fn inet_v6only(response: &InetResponse, i: usize) -> (r: Option<bool>)
    requires
        i < inet_options(*response).len(),
    ensures
        r == inet_options(*response)[i as int],
{
    match response.nlas.get(i) {
        Some(Nla::SkV6Only(only)) => Some(*only),
        _ => None,
    }
}

/// The socket states that a request asks for: all of them.
pub const ALL_STATES: u32 = 0xffe;

/// The extensions that a request asks for: none.
pub const NO_EXTENSIONS: u8 = 0;

/// The bytes of a request for the sockets of `protocol` with the given
/// header flags, family number, extensions and socket states, for the
/// wildcard socket `SocketId::new_v4`, as `NetlinkMessage::serialize`
/// writes them on a host of the given byte order.
pub uninterp spec fn inet4_request_bytes(
    flags: u16,
    family: u8,
    protocol: u8,
    extensions: u8,
    states: u32,
    big_endian: bool,
) -> Seq<u8>;

/// The bytes of a request for the sockets of `protocol` with the given
/// header flags, family number, extensions and socket states, for the
/// wildcard socket `SocketId::new_v6`, as `NetlinkMessage::serialize`
/// writes them on a host of the given byte order.
pub uninterp spec fn inet6_request_bytes(
    flags: u16,
    family: u8,
    protocol: u8,
    extensions: u8,
    states: u32,
    big_endian: bool,
) -> Seq<u8>;

/// The bytes of a request for the IPv4 sockets of `protocol`, with the given
/// header flags, family number, extensions and socket states, and the
/// wildcard socket `SocketId::new_v4`; what the library writes for these on
/// a host of one byte order or the other.
///
/// Builds a `SockDiagMessage::InetRequest`, the extensions and states by
/// `from_bits_truncate`, and serialises it with `NetlinkMessage::finalize`
/// and `NetlinkMessage::serialize`, into a buffer of `buffer_len` bytes.
#[verifier::external_body]
pub(crate) fn encode_inet4_request(
    flags: u16,
    family: u8,
    protocol: u8,
    extensions: u8,
    states: u32,
) -> (r: Vec<u8>)
    ensures
        exists|big_endian: bool|
            r@ == inet4_request_bytes(flags, family, protocol, extensions, states, big_endian),
{
    let socket_id = SocketId::new_v4();
    let extensions = ExtensionFlags::from_bits_truncate(extensions);
    let states = StateFlags::from_bits_truncate(states);
    let request = InetRequest { family, protocol, socket_id, extensions, states };
    let mut header = NetlinkHeader::default();
    header.flags = flags;
    let payload = NetlinkPayload::from(SockDiagMessage::InetRequest(request));
    let mut packet = NetlinkMessage::new(header, payload);
    packet.finalize();
    let mut buf = vec![0; packet.buffer_len()];
    packet.serialize(&mut buf[..]);
    buf
}

/// The bytes of a request for the IPv6 sockets of `protocol`, with the given
/// header flags, family number, extensions and socket states, and the
/// wildcard socket `SocketId::new_v6`; what the library writes for these on
/// a host of one byte order or the other.
///
/// Builds a `SockDiagMessage::InetRequest`, the extensions and states by
/// `from_bits_truncate`, and serialises it with `NetlinkMessage::finalize`
/// and `NetlinkMessage::serialize`, into a buffer of `buffer_len` bytes.
#[verifier::external_body]
pub(crate) fn encode_inet6_request(
    flags: u16,
    family: u8,
    protocol: u8,
    extensions: u8,
    states: u32,
) -> (r: Vec<u8>)
    ensures
        exists|big_endian: bool|
            r@ == inet6_request_bytes(flags, family, protocol, extensions, states, big_endian),
{
    let socket_id = SocketId::new_v6();
    let extensions = ExtensionFlags::from_bits_truncate(extensions);
    let states = StateFlags::from_bits_truncate(states);
    let request = InetRequest { family, protocol, socket_id, extensions, states };
    let mut header = NetlinkHeader::default();
    header.flags = flags;
    let payload = NetlinkPayload::from(SockDiagMessage::InetRequest(request));
    let mut packet = NetlinkMessage::new(header, payload);
    packet.finalize();
    let mut buf = vec![0; packet.buffer_len()];
    packet.serialize(&mut buf[..]);
    buf
}

/// `record` is what the discovery reads of a socket report whose header
/// holds `head` and whose attributes hold `options`: the fields of the
/// header, and the values of the "IPv6 only" options in order.
pub open spec fn reads_inet(record: InetRecord, head: InetHead, options: Seq<Option<bool>>) -> bool {
    &&& record.source_port == head.source_port
    &&& record.destination_port == head.destination_port
    &&& record.source_address == head.source_address
    &&& record.interface_id == head.interface_id
    &&& record.uid == head.uid
    &&& record.inode == head.inode
    &&& record.v6only@ == present(options)
}

/// Reads out of a socket report what the discovery needs.
pub(crate) fn inet_record(response: &InetResponse) -> (r: InetRecord)
    ensures
        reads_inet(r, inet_head_of(*response), inet_options(*response)),
{
    let head = inet_head(response);
    let n = inet_attribute_count(response);
    let mut v6only: Vec<bool> = Vec::new();
    let mut i: usize = 0;
    assert(inet_options(*response).take(0) =~= Seq::<Option<bool>>::empty());
    while i < n
        invariant
            i <= n,
            n == inet_options(*response).len(),
            v6only@ == present(inet_options(*response).take(i as int)),
        decreases n - i,
    {
        assert(inet_options(*response).take(i + 1).drop_last() =~= inet_options(*response).take(
            i as int,
        ));
        if let Some(only) = inet_v6only(response, i) {
            v6only.push(only);
        }
        i = i + 1;
    }
    assert(inet_options(*response).take(n as int) =~= inet_options(*response));
    InetRecord {
        source_port: head.source_port,
        destination_port: head.destination_port,
        source_address: head.source_address,
        interface_id: head.interface_id,
        uid: head.uid,
        inode: head.inode,
        v6only,
    }
}

/// `decoded` is what a frame turns out to be on a host of the given byte
/// order: `Garbled`, without a record, if the frame cannot be decoded; else
/// what its payload is, with the record of the reported socket if the
/// payload is a message of the protocol that reports one, and without a
/// record otherwise.
pub open spec fn decodes(frame: Seq<u8>, big_endian: bool, decoded: (Signal, Record)) -> bool {
    match diag_frame(frame, big_endian) {
        None => decoded.0 == Signal::Garbled && decoded.1 is Other,
        Some((what, report)) => decoded.0 == what && (match report {
            Some((head, options)) => if what == Signal::Inner {
                decoded.1 matches Record::Inet(r) && reads_inet(r, head, options)
            } else {
                decoded.1 is Other
            },
            None => decoded.1 is Other,
        }),
    }
}

/// Some byte order makes `decoded` what the frame turns out to be.
pub open spec fn decodes_somehow(frame: Seq<u8>, decoded: (Signal, Record)) -> bool {
    exists|big_endian: bool| decodes(frame, big_endian, decoded)
}

/// Decodes one frame of a dump of sockets: what its payload is and, for a
/// report of a socket, its record, as the protocol library decodes the
/// frame on this host.
pub fn decode(frame: &[u8]) -> (r: (Signal, Record))
    ensures
        decodes_somehow(frame@, r),
{
    match decode_diag_frame(frame) {
        Some(message) => {
            let ghost order = choose|big_endian: bool|
                #[trigger] diag_frame(frame@, big_endian) == Some(
                    (diag_signal(message), diag_report(message)),
                );
            let what = message_signal(&message);
            let r = match (what, message_response(&message)) {
                (Signal::Inner, Some(response)) => (what, Record::Inet(inet_record(response))),
                _ => (what, Record::Other),
            };
            assert(decodes(frame@, order, r));
            r
        },
        None => {
            let ghost order = choose|big_endian: bool|
                #[trigger] diag_frame(frame@, big_endian) is None;
            let r = (Signal::Garbled, Record::Other);
            assert(decodes(frame@, order, r));
            r
        },
    }
}

/// Each of `decoded` is what the frame at its place turns out to be, for
/// some byte order.
pub open spec fn decoded_from(frames: Seq<Seq<u8>>, decoded: Seq<(Signal, Record)>) -> bool {
    decoded.len() == frames.len() && forall|k: int|
        0 <= k < frames.len() ==> decodes_somehow(#[trigger] frames[k], decoded[k])
}

/// Takes the bytes of one receive call of a dump of sockets: reassembles the
/// frames, decodes each, moves the dump on by what each turns out to be,
/// and appends the records of the messages that are handed on.
///
/// The frames are those that a walk over the buffered bytes finds. The
/// dump ends where the steps for what the frames decode to lead, and the
/// records of the frames that these steps hand on are appended, in order.
pub fn receive(dump: &mut Dump, chunk: &[u8], records: &mut Vec<Record>)
    ensures
        final(dump).reassembler().big_endian() == old(dump).reassembler().big_endian(),
        final(dump).reassembler().pending() == walk(
            old(dump).reassembler().pending() + chunk@,
            old(dump).reassembler().big_endian(),
        ).1,
        exists|decoded: Seq<(Signal, Record)>|
            #[trigger] decoded_from(
                walk(
                    old(dump).reassembler().pending() + chunk@,
                    old(dump).reassembler().big_endian(),
                ).0,
                decoded,
            ) && final(dump).spec_state() == run(old(dump).spec_state(), signals_of(decoded))
                && final(records)@ == old(records)@ + handed_on(
                old(dump).spec_state(),
                decoded,
            ),
{
    let frames = dump.feed(chunk);
    let ghost found = walk(
        old(dump).reassembler().pending() + chunk@,
        old(dump).reassembler().big_endian(),
    ).0;
    let mut decoded: Vec<(Signal, Record)> = Vec::new();
    let mut i: usize = 0;
    while i < frames.len()
        invariant
            i <= frames.len(),
            decoded.len() == i,
            contents(frames@) == found,
            forall|k: int| 0 <= k < i ==> decodes_somehow(#[trigger] found[k], decoded@[k]),
        decreases frames.len() - i,
    {
        let one = decode(frames[i].as_slice());
        assert(found[i as int] == frames@[i as int]@);
        decoded.push(one);
        i = i + 1;
    }
    assert(decoded_from(found, decoded@));
    deliver(dump, decoded, records);
}

/// The pairs of family and protocol that are asked for, in order: for IPv4
/// and then for IPv6 each protocol of `all_protocols`.
pub open spec fn all_queries() -> Seq<(Family, Protocol)> {
    Seq::new(
        12,
        |i: int|
            (
                if i < 6 {
                    Family::V4
                } else {
                    Family::V6
                },
                all_protocols()[i % 6],
            ),
    )
}

/// The pairs of family and protocol that are asked for, in order.
pub fn queries() -> (r: Vec<(Family, Protocol)>)
    ensures
        r@ == all_queries(),
{
    let protocols = Protocol::all();
    let mut out: Vec<(Family, Protocol)> = Vec::new();
    let mut i: usize = 0;
    while i < 12
        invariant
            i <= 12,
            protocols@ == all_protocols(),
            out@ == all_queries().take(i as int),
        decreases 12 - i,
    {
        let family = if i < 6 {
            Family::V4
        } else {
            Family::V6
        };
        out.push((family, protocols[i % 6]));
        i = i + 1;
        assert(out@ =~= all_queries().take(i as int));
    }
    assert(all_queries().take(12) =~= all_queries());
    out
}

/// The bytes of the dump request for the sockets of one family and
/// protocol: a request with the dump and request flags set, for the
/// numbers of the family and the protocol, no extensions, all socket states
/// and the wildcard socket of the family, in the byte order of the host.
pub fn inet_request(family: Family, protocol: Protocol) -> (r: Vec<u8>)
    requires
        family != Family::Both,
    ensures
        match family {
            Family::V4 => exists|big_endian: bool|
                r@ == inet4_request_bytes(
                    FLAG_REQUEST | FLAG_DUMP,
                    AF_INET,
                    protocol.spec_proto_const(),
                    NO_EXTENSIONS,
                    ALL_STATES,
                    big_endian,
                ),
            _ => exists|big_endian: bool|
                r@ == inet6_request_bytes(
                    FLAG_REQUEST | FLAG_DUMP,
                    AF_INET6,
                    protocol.spec_proto_const(),
                    NO_EXTENSIONS,
                    ALL_STATES,
                    big_endian,
                ),
        },
{
    match family {
        Family::V4 => encode_inet4_request(
            FLAG_REQUEST | FLAG_DUMP,
            family.proto_const(),
            protocol.proto_const(),
            NO_EXTENSIONS,
            ALL_STATES,
        ),
        _ => encode_inet6_request(
            FLAG_REQUEST | FLAG_DUMP,
            family.proto_const(),
            protocol.proto_const(),
            NO_EXTENSIONS,
            ALL_STATES,
        ),
    }
}

/// The pool after a record of a dump for `family` and `protocol` went in.
/// Only the report of a socket without remote port, a listening socket,
/// goes in.
pub open spec fn with_report(
    pool: Seq<SockInfo>,
    family: Family,
    protocol: Protocol,
    record: Record,
    known: Set<u32>,
    routes: Seq<Route>,
) -> Seq<SockInfo> {
    match record {
        Record::Inet(ir) => if ir.destination_port == 0 {
            inserted(pool, record_of(family, protocol, ir, known, routes))
        } else {
            pool
        },
        _ => pool,
    }
}

/// The pool after the records of a dump for `family` and `protocol` went
/// in, in order.
pub open spec fn with_reports(
    pool: Seq<SockInfo>,
    family: Family,
    protocol: Protocol,
    records: Seq<Record>,
    known: Set<u32>,
    routes: Seq<Route>,
) -> Seq<SockInfo>
    decreases records.len(),
{
    if records.len() == 0 {
        pool
    } else {
        with_report(
            with_reports(pool, family, protocol, records.drop_last(), known, routes),
            family,
            protocol,
            records.last(),
            known,
            routes,
        )
    }
}

/// Puts the listening sockets among the records of a dump for `family` and
/// `protocol` into the pool.
pub fn all_sockets(
    pool: &mut SocketPool,
    family: Family,
    protocol: Protocol,
    records: &Vec<Record>,
    interfaces: &HashMap<u32, String>,
    local_routes: &Rtbl,
)
    ensures
        final(pool)@ == with_reports(
            old(pool)@,
            family,
            protocol,
            records@,
            interfaces@.dom(),
            local_routes@,
        ),
{
    let mut i: usize = 0;
    assert(records@.take(0) =~= Seq::<Record>::empty());
    while i < records.len()
        invariant
            i <= records.len(),
            pool@ == with_reports(
                old(pool)@,
                family,
                protocol,
                records@.take(i as int),
                interfaces@.dom(),
                local_routes@,
            ),
        decreases records.len() - i,
    {
        assert(records@.take(i + 1).drop_last() =~= records@.take(i as int));
        match &records[i] {
            Record::Inet(ir) => {
                if ir.destination_port == 0 {
                    pool.insert(SockInfo::new(family, protocol, ir, interfaces, local_routes));
                }
            },
            _ => {},
        }
        i = i + 1;
    }
    assert(records@.take(records.len() as int) =~= records@);
}

} // verus!
