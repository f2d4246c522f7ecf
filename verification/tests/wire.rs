use netlink_packet_core::{NetlinkHeader, NetlinkMessage, NetlinkPayload};
use netlink_packet_generic::ctrl::nlas::GenlCtrlAttrs;
use netlink_packet_generic::ctrl::{GenlCtrl, GenlCtrlCmd};
use netlink_packet_generic::GenlMessage;
use netlink_packet_route::link::{LinkAttribute, LinkExtentMask};
use netlink_packet_route::route::RouteType;
use netlink_packet_route::RouteNetlinkMessage;
use netlink_packet_sock_diag::inet::nlas::Nla;
use netlink_packet_sock_diag::inet::{InetResponse, InetResponseHeader, SocketId, StateFlags};
use netlink_packet_sock_diag::SockDiagMessage;
use netlink_packet_wireguard::nlas::WgDeviceAttrs;
use netlink_packet_wireguard::{Wireguard, WireguardCmd};
use ports::addr::IpAddr;
use ports::diag::{all_sockets, decode, inet_request, queries, receive, ALL_STATES, NO_EXTENSIONS};
use ports::links::{
    interface_names, link_record, link_request, AttrItem, InfoItem, LinkRecord, LinkReport,
    VxlanItem,
};
use ports::query::{deliver, record, Record, Report};
use ports::registry::SocketPool;
use ports::route::Rtbl;
use ports::routes::{
    local_routes, route_record, route_request, Destination, RouteItem, RouteRecord, RouteReport,
};
use ports::sock::{Family, IfaceName, InetRecord, Protocol};
use ports::transport::{Dump, DumpState, Signal, TransportError};
use ports::tunnel::TunnelPorts;
use ports::wg::{
    device_request, family_id, family_ids, family_request, listen_ports, wireguards,
};
use std::collections::HashMap;

fn control(kind: u16, payload: &[u8]) -> Vec<u8> {
    let mut out = Vec::new();
    out.extend_from_slice(&((16 + payload.len()) as u32).to_ne_bytes());
    out.extend_from_slice(&kind.to_ne_bytes());
    out.extend_from_slice(&0u16.to_ne_bytes());
    out.extend_from_slice(&0u32.to_ne_bytes());
    out.extend_from_slice(&0u32.to_ne_bytes());
    out.extend_from_slice(payload);
    out
}

fn done() -> Vec<u8> {
    control(3, &0i32.to_ne_bytes())
}

fn error(code: i32) -> Vec<u8> {
    let mut payload = code.to_ne_bytes().to_vec();
    payload.extend_from_slice(&control(18, &[])[..16]);
    control(2, &payload)
}

fn wireguard_link() -> LinkReport {
    LinkReport {
        index: 4,
        attributes: vec![
            AttrItem::Name("wg0".into()),
            AttrItem::Other,
            AttrItem::Infos(vec![InfoItem::WireguardKind]),
        ],
    }
}

fn vxlan_link() -> LinkReport {
    LinkReport {
        index: 9,
        attributes: vec![
            AttrItem::Name("vx0".into()),
            AttrItem::Infos(vec![
                InfoItem::Other,
                InfoItem::Vxlan(vec![VxlanItem::Other, VxlanItem::Port(4789)]),
            ]),
        ],
    }
}

#[test]
fn link_reports_become_link_records() {
    assert_eq!(
        link_record(&wireguard_link()),
        LinkRecord { index: 4, names: vec!["wg0".to_string()], wireguard_kinds: 1, vxlan_ports: vec![] }
    );
    assert_eq!(
        link_record(&vxlan_link()),
        LinkRecord {
            index: 9,
            names: vec!["vx0".to_string()],
            wireguard_kinds: 0,
            vxlan_ports: vec![4789],
        }
    );
    assert_eq!(
        link_record(&LinkReport { index: 1, attributes: vec![] }),
        LinkRecord { index: 1, names: vec![], wireguard_kinds: 0, vxlan_ports: vec![] }
    );
}

#[test]
fn link_attributes_are_read_in_order() {
    let report = LinkReport {
        index: 12,
        attributes: vec![
            AttrItem::Name("first".into()),
            AttrItem::Infos(vec![InfoItem::WireguardKind, InfoItem::WireguardKind]),
            AttrItem::Other,
            AttrItem::Name("second".into()),
            AttrItem::Infos(vec![
                InfoItem::Other,
                InfoItem::Vxlan(vec![VxlanItem::Port(1), VxlanItem::Other, VxlanItem::Port(3)]),
                InfoItem::Vxlan(vec![]),
                InfoItem::WireguardKind,
                InfoItem::Vxlan(vec![VxlanItem::Port(5)]),
            ]),
        ],
    };
    assert_eq!(
        link_record(&report),
        LinkRecord {
            index: 12,
            names: vec!["first".to_string(), "second".to_string()],
            wireguard_kinds: 3,
            vxlan_ports: vec![1, 3, 5],
        }
    );
}

#[test]
fn route_attributes_are_read_in_order() {
    let report = RouteReport {
        table: 255,
        kind: 2,
        prefix_len: 32,
        attributes: vec![
            RouteItem::Oif(7),
            RouteItem::Other,
            RouteItem::Destination(Destination::V4(0x0a00_0001)),
            RouteItem::Oif(8),
            RouteItem::Destination(Destination::Other),
        ],
    };
    assert_eq!(
        route_record(&report),
        RouteRecord {
            table: 255,
            kind: 2,
            prefix_len: 32,
            out_interfaces: vec![7, 8],
            destinations: vec![Destination::V4(0x0a00_0001), Destination::Other],
        }
    );
}

#[test]
fn reports_become_records_of_their_kind() {
    assert!(matches!(record(&Report::Link(wireguard_link())), Record::Link(l) if l.index == 4));
    let route = RouteReport { table: 254, kind: 1, prefix_len: 0, attributes: vec![] };
    assert!(matches!(record(&Report::Route(route)), Record::Route(r) if r.table == 254));
    assert!(matches!(
        record(&Report::Family(vec![None, Some(28), None, Some(29)])),
        Record::Family(ids) if ids == vec![28, 29]
    ));
    assert!(matches!(
        record(&Report::Device(vec![Some(51820), None])),
        Record::Device(ports) if ports == vec![51820]
    ));
    assert!(matches!(record(&Report::Other), Record::Other));
    assert_eq!(family_ids(&vec![None, None]), Vec::<u16>::new());
    assert_eq!(listen_ports(&vec![Some(1), Some(1)]), vec![1, 1]);
}

fn link(report: LinkReport) -> (Signal, Record) {
    (Signal::Inner, record(&Report::Link(report)))
}

#[test]
fn link_dump_gives_names_and_tunnels() {
    let mut dump = Dump::new();
    let mut records = Vec::new();
    deliver(
        &mut dump,
        vec![link(wireguard_link()), (Signal::Noop, Record::Other), link(vxlan_link())],
        &mut records,
    );
    assert_eq!(dump.state(), DumpState::Receiving);
    assert_eq!(records.len(), 2);
    deliver(&mut dump, vec![(Signal::Done, Record::Other), link(vxlan_link())], &mut records);
    assert_eq!(dump.state(), DumpState::Finished);
    assert_eq!(records.len(), 2);
    let found = interface_names(&records);
    assert_eq!(found.id2name.len(), 2);
    assert_eq!(found.id2name.get(&4).map(|s| s.as_str()), Some("wg0"));
    assert_eq!(found.id2name.get(&9).map(|s| s.as_str()), Some("vx0"));
    assert_eq!(found.wireguard_ids, vec![4]);
    assert_eq!(found.vxlan_ports, vec![(9, 4789)]);
}

#[test]
fn delivery_stops_at_the_end_of_the_dump() {
    let run = |decoded: Vec<(Signal, Record)>| {
        let mut dump = Dump::new();
        let mut records = Vec::new();
        deliver(&mut dump, decoded, &mut records);
        (dump.state(), records.len())
    };
    assert_eq!(run(vec![]), (DumpState::Receiving, 0));
    assert_eq!(
        run(vec![link(wireguard_link()), (Signal::Error(0), Record::Other), link(vxlan_link())]),
        (DumpState::Finished, 1)
    );
    assert_eq!(
        run(vec![link(wireguard_link()), (Signal::Error(-1), Record::Other), link(vxlan_link())]),
        (DumpState::Failed(TransportError::Rejected(-1)), 1)
    );
    assert_eq!(
        run(vec![(Signal::Garbled, Record::Other), link(vxlan_link())]),
        (DumpState::Failed(TransportError::Undecodable), 0)
    );
    assert_eq!(
        run(vec![(Signal::Overrun, Record::Other)]),
        (DumpState::Failed(TransportError::Unexpected(4)), 0)
    );
    // whatever comes with a message that is not handed on is dropped
    assert_eq!(run(vec![(Signal::Noop, Record::Family(vec![1]))]), (DumpState::Receiving, 0));
}

#[test]
fn route_dump_gives_the_local_routes() {
    let loopback = RouteReport {
        table: 255,
        kind: 2,
        prefix_len: 8,
        attributes: vec![
            RouteItem::Other,
            RouteItem::Destination(Destination::V4(0x7f00_0000)),
            RouteItem::Oif(1),
        ],
    };
    let host = RouteReport {
        table: 255,
        kind: 2,
        prefix_len: 32,
        attributes: vec![RouteItem::Destination(Destination::V4(0xc0a8_0105)), RouteItem::Oif(2)],
    };
    let unicast = RouteReport {
        table: 254,
        kind: 1,
        prefix_len: 0,
        attributes: vec![RouteItem::Destination(Destination::V4(0)), RouteItem::Oif(2)],
    };
    let six = RouteReport {
        table: 255,
        kind: 2,
        prefix_len: 128,
        attributes: vec![RouteItem::Destination(Destination::V6(1)), RouteItem::Oif(1)],
    };
    let mut dump = Dump::new();
    let mut records = Vec::new();
    let decoded = vec![loopback, host, unicast, six]
        .into_iter()
        .map(|r| (Signal::Inner, record(&Report::Route(r))))
        .chain([(Signal::Done, Record::Other)])
        .collect();
    deliver(&mut dump, decoded, &mut records);
    assert_eq!(dump.state(), DumpState::Finished);
    let table = local_routes(&records).unwrap();
    assert_eq!(table.len(), 3);
    assert_eq!(table.route(IpAddr::v4(192, 168, 1, 5)), Some(2));
    assert_eq!(table.route(IpAddr::v4(127, 1, 2, 3)), Some(1));
    assert_eq!(table.route(IpAddr::v4(8, 8, 8, 8)), None);
    assert_eq!(table.route(IpAddr::V6(1)), Some(1));
    assert_eq!(table.route(IpAddr::V6(2)), None);
}

#[test]
fn tunnel_answers_give_family_and_ports() {
    let answer = vec![record(&Report::Family(vec![None, Some(0x1c)])), Record::Other];
    assert_eq!(family_id(&answer), Some(0x1c));
    assert_eq!(family_id(&Vec::new()), None);
    assert_eq!(family_id(&vec![Record::Family(vec![]), Record::Other]), None);
    assert_eq!(
        family_id(&vec![Record::Family(vec![1, 2]), Record::Family(vec![]), Record::Other]),
        Some(2)
    );
    let device = vec![record(&Report::Device(vec![None, Some(51820)]))];
    let mut ports = TunnelPorts::new();
    let mut collisions = Vec::new();
    wireguards(&mut ports, &mut collisions, 4, &device);
    assert_eq!(ports.owner(51820), Some(4));
    assert_eq!(ports.owner(51821), None);
    assert!(collisions.is_empty());
}

#[test]
fn control_frames_are_told_apart() {
    assert_eq!(decode(&done()).0, Signal::Done);
    assert_eq!(decode(&error(0)).0, Signal::Error(0));
    assert_eq!(decode(&error(-13)).0, Signal::Error(-13));
    assert_eq!(decode(&control(1, &[])).0, Signal::Noop);
    assert_eq!(decode(&control(4, &[1, 2])).0, Signal::Overrun);
    assert_eq!(decode(&[1, 2, 3]).0, Signal::Garbled);
    assert_eq!(decode(&control(3, &[])).0, Signal::Garbled);
    assert_eq!(decode(&control(77, &[1])).0, Signal::Garbled);
    assert!(matches!(decode(&done()).1, Record::Other));
    assert!(matches!(decode(&[]).1, Record::Other));
}

fn inet_response(
    source: &str,
    source_port: u16,
    destination_port: u16,
    interface_id: u32,
    inode: u32,
    v6only: Option<bool>,
) -> Vec<u8> {
    let mut socket_id = SocketId::new_v6();
    socket_id.source_address = source.parse().unwrap();
    socket_id.source_port = source_port;
    socket_id.destination_port = destination_port;
    socket_id.interface_id = interface_id;
    let mut response = InetResponse {
        header: InetResponseHeader {
            family: 10,
            state: 10,
            timer: None,
            socket_id,
            recv_queue: 0,
            send_queue: 0,
            uid: 1000,
            inode,
        },
        nlas: Default::default(),
    };
    response.nlas.push(Nla::Tos(0));
    if let Some(only) = v6only {
        response.nlas.push(Nla::SkV6Only(only));
    }
    let message = SockDiagMessage::InetResponse(Box::new(response));
    let mut packet = NetlinkMessage::new(NetlinkHeader::default(), NetlinkPayload::from(message));
    packet.finalize();
    let mut buf = vec![0; packet.buffer_len()];
    packet.serialize(&mut buf[..]);
    buf
}

#[test]
fn socket_reports_become_socket_records() {
    let (signal, record) = decode(&inet_response("::", 8080, 0, 3, 4711, Some(false)));
    assert_eq!(signal, Signal::Inner);
    match record {
        Record::Inet(ir) => assert_eq!(
            ir,
            InetRecord {
                source_port: 8080,
                destination_port: 0,
                source_address: IpAddr::V6(0),
                interface_id: 3,
                uid: 1000,
                inode: 4711,
                v6only: vec![false],
            }
        ),
        _ => panic!("a socket record was expected"),
    }
    match decode(&inet_response("::ffff:10.1.2.3", 22, 40000, 0, 7, None)).1 {
        Record::Inet(ir) => {
            assert_eq!(ir.source_address, IpAddr::V6(0xffff_0a01_0203));
            assert_eq!(ir.destination_port, 40000);
            assert_eq!(ir.v6only, Vec::<bool>::new());
        }
        _ => panic!("a socket record was expected"),
    }
}

#[test]
fn socket_dump_keeps_the_listening_sockets() {
    let mut bytes = inet_response("::", 8080, 0, 0, 1, Some(false));
    bytes.extend_from_slice(&inet_response("fe80::1", 22, 0, 3, 2, Some(true)));
    bytes.extend_from_slice(&inet_response("::1", 40000, 443, 0, 3, None));
    bytes.extend_from_slice(&done());
    let mut dump = Dump::new();
    let mut records = Vec::new();
    receive(&mut dump, &bytes, &mut records);
    assert_eq!(dump.state(), DumpState::Finished);
    assert_eq!(records.len(), 3);
    let mut names = HashMap::new();
    names.insert(3u32, "eth0".to_string());
    let mut pool = SocketPool::new();
    all_sockets(&mut pool, Family::V6, Protocol::TCP, &records, &names, &Rtbl::default());
    let found = pool.records();
    assert_eq!(found.len(), 2);
    assert_eq!(found[0].ino, 1);
    assert_eq!(found[0].family, Family::Both);
    assert_eq!(found[0].iface, IfaceName::Unknown);
    assert_eq!(found[0].port, 8080);
    assert_eq!(found[0].uid, 1000);
    assert_eq!(found[1].ino, 2);
    assert_eq!(found[1].family, Family::V6);
    assert_eq!(found[1].iface, IfaceName::Associated(3));
    assert_eq!(found[1].addr, IpAddr::V6(0xfe80_0000_0000_0000_0000_0000_0000_0001));
}

#[test]
fn split_frame_gives_the_same_records() {
    let whole = inet_response("::1", 443, 0, 0, 9, Some(true));
    let mut one = Dump::new();
    let mut at_once = Vec::new();
    receive(&mut one, &whole, &mut at_once);
    assert_eq!(at_once.len(), 1);
    for cut in 0..whole.len() {
        let mut two = Dump::new();
        let mut in_parts = Vec::new();
        receive(&mut two, &whole[..cut], &mut in_parts);
        assert!(in_parts.is_empty());
        receive(&mut two, &whole[cut..], &mut in_parts);
        assert_eq!(in_parts.len(), 1);
        match (&in_parts[0], &at_once[0]) {
            (Record::Inet(a), Record::Inet(b)) => assert_eq!(a, b),
            _ => panic!("socket records were expected"),
        }
        assert_eq!(two.state(), one.state());
    }
}

#[test]
fn error_reply_fails_the_dump() {
    let mut dump = Dump::new();
    let mut records = Vec::new();
    let mut bytes = inet_response("::", 80, 0, 0, 1, None);
    bytes.extend_from_slice(&error(-1));
    bytes.extend_from_slice(&inet_response("::", 81, 0, 0, 2, None));
    receive(&mut dump, &bytes, &mut records);
    assert_eq!(dump.state(), DumpState::Failed(TransportError::Rejected(-1)));
    assert_eq!(records.len(), 1);
    let mut acked = Dump::new();
    receive(&mut acked, &error(0), &mut records);
    assert_eq!(acked.state(), DumpState::Finished);
    let mut broken = Dump::new();
    receive(&mut broken, &control(77, &[1]), &mut records);
    assert_eq!(broken.state(), DumpState::Failed(TransportError::Undecodable));
    let mut lost = Dump::new();
    receive(&mut lost, &control(4, &[]), &mut records);
    assert_eq!(lost.state(), DumpState::Failed(TransportError::Unexpected(4)));
    let mut idle = Dump::new();
    receive(&mut idle, &[], &mut records);
    assert_eq!(idle.state(), DumpState::Receiving);
    assert_eq!(records.len(), 1);
}

#[test]
fn link_request_asks_for_all_links() {
    let bytes = link_request();
    let request = NetlinkMessage::<RouteNetlinkMessage>::deserialize(&bytes).unwrap();
    assert_eq!(request.header.length as usize, bytes.len());
    assert_eq!(request.header.flags, 0x301);
    assert_eq!(request.header.sequence_number, 1);
    match request.payload {
        NetlinkPayload::InnerMessage(RouteNetlinkMessage::GetLink(link)) => assert_eq!(
            link.attributes,
            vec![LinkAttribute::ExtMask(vec![LinkExtentMask::SkipStats])]
        ),
        _ => panic!("a link request was expected"),
    }
}

#[test]
fn route_request_asks_for_the_local_table() {
    let bytes = route_request();
    let request = NetlinkMessage::<RouteNetlinkMessage>::deserialize(&bytes).unwrap();
    assert_eq!(request.header.flags, 0x301);
    match request.payload {
        NetlinkPayload::InnerMessage(RouteNetlinkMessage::GetRoute(route)) => {
            assert_eq!(route.header.table, 255);
            assert_eq!(route.header.kind, RouteType::Local);
        }
        _ => panic!("a route request was expected"),
    }
}

#[test]
fn inet_requests_cover_both_families() {
    let all = queries();
    assert_eq!(all.len(), 12);
    assert_eq!(all[0], (Family::V4, Protocol::TCP));
    assert_eq!(all[5], (Family::V4, Protocol::ICMP));
    assert_eq!(all[6], (Family::V6, Protocol::TCP));
    assert_eq!(all[11], (Family::V6, Protocol::ICMP));
    for (family, protocol) in all {
        let bytes = inet_request(family, protocol);
        assert_eq!(bytes.len(), 72);
        assert_eq!(bytes[..4], 72u32.to_ne_bytes());
        assert_eq!(bytes[4..6], netlink_packet_sock_diag::SOCK_DIAG_BY_FAMILY.to_ne_bytes());
        assert_eq!(bytes[6..8], 0x301u16.to_ne_bytes());
        assert_eq!(bytes[16], family.proto_const());
        assert_eq!(bytes[17], protocol.proto_const());
        assert_eq!(bytes[18], 0);
        assert_eq!(bytes[20..24], StateFlags::all().bits().to_ne_bytes());
        assert_eq!(bytes[20..24], ALL_STATES.to_ne_bytes());
        assert_eq!(bytes[18], NO_EXTENSIONS);
        assert!(bytes[24..72].iter().all(|b| *b == 0));
    }
    assert_eq!(Family::V4.proto_const(), netlink_packet_sock_diag::AF_INET);
    assert_eq!(Family::V6.proto_const(), netlink_packet_sock_diag::AF_INET6);
    assert_eq!(Protocol::TCP.proto_const(), netlink_packet_sock_diag::IPPROTO_TCP);
    assert_eq!(Protocol::UDP.proto_const(), netlink_packet_sock_diag::IPPROTO_UDP);
    assert_eq!(Protocol::UDPlite.proto_const(), netlink_packet_sock_diag::IPPROTO_UDPLITE);
    assert_eq!(Protocol::RAW.proto_const(), netlink_packet_sock_diag::IPPROTO_RAW);
    assert_eq!(Protocol::SCTP.proto_const(), netlink_packet_sock_diag::IPPROTO_SCTP);
    assert_eq!(Protocol::ICMP.proto_const(), netlink_packet_sock_diag::IPPROTO_ICMP);
}

#[test]
fn tunnel_requests_name_family_and_device() {
    let bytes = family_request();
    let request = NetlinkMessage::<GenlMessage<GenlCtrl>>::deserialize(&bytes).unwrap();
    assert_eq!(request.header.flags, 5);
    assert_eq!(request.header.sequence_number, 1);
    match request.payload {
        NetlinkPayload::InnerMessage(message) => {
            assert_eq!(message.payload.cmd, GenlCtrlCmd::GetFamily);
            assert_eq!(message.payload.nlas, vec![GenlCtrlAttrs::FamilyName("wireguard".into())]);
        }
        _ => panic!("a family request was expected"),
    }
    let bytes = device_request(0x1c, 7);
    let request = NetlinkMessage::<GenlMessage<Wireguard>>::deserialize(&bytes).unwrap();
    assert_eq!(request.header.flags, 0x305);
    assert_eq!(request.header.sequence_number, 2);
    assert_eq!(request.header.message_type, 0x1c);
    match request.payload {
        NetlinkPayload::InnerMessage(message) => {
            assert_eq!(message.payload.cmd, WireguardCmd::GetDevice);
            assert_eq!(message.payload.nlas, vec![WgDeviceAttrs::IfIndex(7)]);
        }
        _ => panic!("a device request was expected"),
    }
}
