use ports::addr::IpAddr;
use ports::discovery::{interface_named, interfaces_routes, IfaceInfo};
use ports::links::{interface_names, Interfaces, LinkRecord};
use ports::registry::{collect, distinct_keys, partition, Registry, SocketPool};
use ports::route::{Prefix, Route, Rtbl};
use ports::routes::{local_routes, route_entry, Destination, RouteError, RouteRecord};
use ports::sock::{attribute, infer_interface, Family, IfaceName, InetRecord, Protocol, SockInfo};
use ports::tunnel::{TunnelPort, TunnelPorts};
use ports::wg::{claim_ports, embedded_ports, needed, wireguards, Collision};
use ports::query::Record;
use std::collections::HashMap;

fn sock(ino: u64, protocol: Protocol, port: u16, uid: u32) -> SockInfo {
    SockInfo {
        family: Family::V4,
        protocol,
        port,
        addr: IpAddr::V4(0),
        uid,
        ino,
        iface: IfaceName::Unknown,
    }
}

#[test]
fn tunnel_socket_leaves_the_general_pool() {
    let mut ports = TunnelPorts::new();
    assert_eq!(ports.claim(4, 51820), None);
    let mut pool = SocketPool::new();
    pool.insert(sock(1, Protocol::TCP, 22, 0));
    pool.insert(sock(2, Protocol::UDP, 51820, 0));
    pool.insert(sock(3, Protocol::UDP, 53, 101));
    let registry = Registry::new(pool, &ports);
    let (rest, buckets) = registry.into_parts();
    assert_eq!(rest.records(), vec![sock(1, Protocol::TCP, 22, 0), sock(3, Protocol::UDP, 53, 101)]);
    assert_eq!(rest.get(2), None);
    assert_eq!(buckets.len(), 1);
    assert_eq!(buckets[0].key, 4);
    assert_eq!(buckets[0].sockets, vec![sock(2, Protocol::UDP, 51820, 0)]);
}

#[test]
fn tunnel_sockets_cannot_be_claimed_by_a_process() {
    let mut ports = TunnelPorts::new();
    ports.claim(4, 51820);
    ports.claim(5, 51821);
    let mut pool = SocketPool::new();
    pool.insert(sock(1, Protocol::UDP, 51821, 0));
    pool.insert(sock(2, Protocol::UDP, 51820, 0));
    pool.insert(sock(3, Protocol::UDP, 51820, 0));
    pool.insert(sock(4, Protocol::TCP, 80, 33));
    let mut registry = Registry::new(pool, &ports);
    assert_eq!(registry.pool_len(), 1);
    assert_eq!(registry.claim(2), None);
    assert_eq!(registry.claim(4), Some(sock(4, Protocol::TCP, 80, 33)));
    assert_eq!(registry.claim(4), None);
    let (_, buckets) = registry.into_parts();
    assert_eq!(buckets.len(), 2);
    assert_eq!(buckets[0].key, 5);
    assert_eq!(buckets[0].sockets, vec![sock(1, Protocol::UDP, 51821, 0)]);
    assert_eq!(buckets[1].key, 4);
    assert_eq!(
        buckets[1].sockets,
        vec![sock(2, Protocol::UDP, 51820, 0), sock(3, Protocol::UDP, 51820, 0)]
    );
}

#[test]
fn unclaimed_sockets_are_grouped_by_user() {
    let mut pool = SocketPool::new();
    pool.insert(sock(1, Protocol::TCP, 22, 0));
    pool.insert(sock(2, Protocol::TCP, 8080, 1000));
    pool.insert(sock(3, Protocol::UDP, 53, 0));
    pool.insert(sock(4, Protocol::UDP, 5353, 1000));
    pool.insert(sock(5, Protocol::TCP, 631, 7));
    let mut registry = Registry::new(pool, &TunnelPorts::new());
    assert_eq!(registry.claim(4), Some(sock(4, Protocol::UDP, 5353, 1000)));
    let groups = registry.unassigned();
    assert_eq!(groups.len(), 3);
    assert_eq!(groups[0].key, 0);
    assert_eq!(groups[0].sockets, vec![sock(1, Protocol::TCP, 22, 0), sock(3, Protocol::UDP, 53, 0)]);
    assert_eq!(groups[1].key, 1000);
    assert_eq!(groups[1].sockets, vec![sock(2, Protocol::TCP, 8080, 1000)]);
    assert_eq!(groups[2].key, 7);
    assert_eq!(groups[2].sockets, vec![sock(5, Protocol::TCP, 631, 7)]);
}

#[test]
fn pool_is_keyed_by_inode() {
    let mut pool = SocketPool::new();
    pool.insert(sock(1, Protocol::TCP, 22, 0));
    pool.insert(sock(2, Protocol::TCP, 80, 0));
    pool.insert(sock(1, Protocol::UDP, 53, 9));
    assert_eq!(pool.len(), 2);
    assert_eq!(pool.position(1), Some(0));
    assert_eq!(pool.position(3), None);
    assert_eq!(pool.get(1), Some(sock(1, Protocol::UDP, 53, 9)));
    assert_eq!(pool.remove(1), Some(sock(1, Protocol::UDP, 53, 9)));
    assert_eq!(pool.remove(1), None);
    assert_eq!(pool.records(), vec![sock(2, Protocol::TCP, 80, 0)]);
}

#[test]
fn partition_keeps_the_order() {
    let records = vec![
        sock(1, Protocol::TCP, 1, 0),
        sock(2, Protocol::TCP, 2, 0),
        sock(3, Protocol::TCP, 3, 0),
        sock(4, Protocol::TCP, 4, 0),
    ];
    let keys = vec![Some(9), None, Some(8), Some(9)];
    assert_eq!(distinct_keys(&keys), vec![9, 8]);
    assert_eq!(collect(&records, &keys, Some(9)), vec![records[0], records[3]]);
    assert_eq!(collect(&records, &keys, Some(7)), vec![]);
    let (rest, groups) = partition(&records, &keys);
    assert_eq!(rest, vec![records[1]]);
    assert_eq!(groups.len(), 2);
    assert_eq!(groups[0].key, 9);
    assert_eq!(groups[0].sockets, vec![records[0], records[3]]);
    assert_eq!(groups[1].key, 8);
    assert_eq!(groups[1].sockets, vec![records[2]]);
    // keys that do not run side by side with the records key nothing
    let (rest, groups) = partition(&records, &vec![Some(1)]);
    assert!(rest.is_empty());
    assert!(groups.is_empty());
    assert!(collect(&records, &vec![None], None).is_empty());
}

#[test]
fn first_tunnel_keeps_a_contested_port() {
    let mut ports = TunnelPorts::new();
    let mut collisions = Vec::new();
    claim_ports(&mut ports, &mut collisions, 4, &vec![51820, 51821]);
    claim_ports(&mut ports, &mut collisions, 5, &vec![51820]);
    claim_ports(&mut ports, &mut collisions, 4, &vec![51820]);
    assert_eq!(ports.owner(51820), Some(4));
    assert_eq!(ports.owner(51821), Some(4));
    assert_eq!(ports.len(), 2);
    assert_eq!(collisions, vec![Collision { port: 51820, kept: 4, ignored: 5 }]);
    assert_eq!(
        ports.entries(),
        vec![TunnelPort { iface: 4, port: 51820 }, TunnelPort { iface: 4, port: 51821 }]
    );
    wireguards(
        &mut ports,
        &mut collisions,
        6,
        &vec![Record::Other, Record::Device(vec![51821, 51822]), Record::Family(vec![1])],
    );
    assert_eq!(ports.owner(51822), Some(6));
    assert_eq!(collisions.len(), 2);
    assert_eq!(collisions[1], Collision { port: 51821, kept: 4, ignored: 6 });
    embedded_ports(&mut ports, &mut collisions, &vec![(9, 4789), (10, 51822)]);
    assert_eq!(ports.owner(4789), Some(9));
    assert_eq!(collisions[2], Collision { port: 51822, kept: 6, ignored: 10 });
}

#[test]
fn tunnel_query_is_skipped_without_tunnels() {
    assert!(!needed(&vec![]));
    assert!(needed(&vec![4]));
}

fn known() -> HashMap<u32, String> {
    let mut names = HashMap::new();
    names.insert(2u32, "eth0".to_string());
    names.insert(3u32, "eth1".to_string());
    names
}

fn routes() -> Rtbl {
    Rtbl::new(vec![
        Route { pfx: Prefix { dst: IpAddr::v4(10, 0, 0, 0), bits: 8 }, iface: 3 },
        Route { pfx: Prefix { dst: IpAddr::v4(172, 16, 0, 0), bits: 12 }, iface: 8 },
    ])
}

#[test]
fn direct_attribution_comes_first() {
    let names = known();
    let table = routes();
    assert_eq!(attribute(&names, &table, 2, IpAddr::v4(10, 1, 1, 1)), IfaceName::Associated(2));
    assert_eq!(attribute(&names, &table, 2, IpAddr::v4(8, 8, 8, 8)), IfaceName::Associated(2));
    assert_eq!(attribute(&names, &table, 0, IpAddr::v4(10, 1, 1, 1)), IfaceName::LocalRoute(3));
    assert_eq!(attribute(&names, &table, 77, IpAddr::v4(10, 1, 1, 1)), IfaceName::LocalRoute(3));
    assert_eq!(attribute(&names, &table, 0, IpAddr::v4(172, 16, 1, 1)), IfaceName::Unknown);
    assert_eq!(attribute(&names, &table, 0, IpAddr::v4(8, 8, 8, 8)), IfaceName::Unknown);
    assert_eq!(infer_interface(&names, &table, IpAddr::v4(10, 1, 1, 1)), IfaceName::LocalRoute(3));
}

#[test]
fn socket_record_is_made_from_the_report() {
    let names = known();
    let table = routes();
    let report = InetRecord {
        source_port: 443,
        destination_port: 0,
        source_address: IpAddr::v4(10, 0, 0, 1),
        interface_id: 0,
        uid: 33,
        inode: 99,
        v6only: vec![true, false],
    };
    assert_eq!(
        SockInfo::new(Family::V6, Protocol::TCP, &report, &names, &table),
        SockInfo {
            family: Family::Both,
            protocol: Protocol::TCP,
            port: 443,
            addr: IpAddr::v4(10, 0, 0, 1),
            uid: 33,
            ino: 99,
            iface: IfaceName::LocalRoute(3),
        }
    );
    let only = InetRecord { v6only: vec![true], interface_id: 2, ..report.clone() };
    let made = SockInfo::new(Family::V6, Protocol::SCTP, &only, &names, &table);
    assert_eq!(made.family, Family::V6);
    assert_eq!(made.iface, IfaceName::Associated(2));
    let plain = InetRecord { v6only: vec![], ..report };
    assert_eq!(SockInfo::new(Family::V4, Protocol::UDP, &plain, &names, &table).family, Family::V4);
    assert_eq!(made.sort_key(), (443, 4, 0, 0x0a00_0001, 1));
}

#[test]
fn protocols_and_families_have_names() {
    assert_eq!(Protocol::all().len(), 6);
    let names: Vec<&str> = Protocol::all().iter().map(|p| p.name()).collect();
    assert_eq!(names, vec!["tcp", "udp", "udplite", "raw", "sctp", "icmp"]);
    let ranks: Vec<u8> = Protocol::all().iter().map(|p| p.rank()).collect();
    assert_eq!(ranks, vec![0, 1, 2, 3, 4, 5]);
    assert_eq!(Family::V4.name(), "v4");
    assert_eq!(Family::V6.name(), "v6");
    assert_eq!(Family::Both.name(), "*");
    assert_eq!(Family::Both.rank(), 2);
}

#[test]
fn failed_queries_count_as_empty() {
    let (info, collisions) = interfaces_routes(None, None, None);
    assert!(info.id2name.is_empty());
    assert_eq!(info.interface_ports.len(), 0);
    assert_eq!(info.local_routes.len(), 0);
    assert!(collisions.is_empty());
    let empty = IfaceInfo::default();
    assert!(empty.id2name.is_empty());
    let mut wireguard = TunnelPorts::new();
    wireguard.claim(4, 51820);
    let links = Interfaces {
        id2name: known(),
        wireguard_ids: vec![4],
        vxlan_ports: vec![(9, 4789), (9, 51820)],
    };
    let (info, collisions) = interfaces_routes(Some(links), Some(routes()), Some(wireguard));
    assert_eq!(info.id2name.len(), 2);
    assert_eq!(info.local_routes.len(), 2);
    assert_eq!(info.interface_ports.owner(51820), Some(4));
    assert_eq!(info.interface_ports.owner(4789), Some(9));
    assert_eq!(collisions, vec![Collision { port: 51820, kept: 4, ignored: 9 }]);
    let links = Interfaces { id2name: known(), wireguard_ids: vec![], vxlan_ports: vec![(9, 4789)] };
    let (info, _) = interfaces_routes(Some(links), None, None);
    assert_eq!(info.interface_ports.owner(4789), Some(9));
    assert_eq!(info.local_routes.len(), 0);
}

fn route_record(
    table: u8,
    kind: u8,
    prefix_len: u8,
    out_interfaces: Vec<u32>,
    destinations: Vec<Destination>,
) -> RouteRecord {
    RouteRecord { table, kind, prefix_len, out_interfaces, destinations }
}

#[test]
fn only_local_routes_enter_the_table() {
    let local = route_record(255, 2, 8, vec![1, 5], vec![Destination::V4(0x7f00_0000)]);
    assert_eq!(
        route_entry(&local),
        Ok(Some(Route { pfx: Prefix { dst: IpAddr::V4(0x7f00_0000), bits: 8 }, iface: 1 }))
    );
    let six = route_record(255, 2, 128, vec![3], vec![Destination::V6(1), Destination::V4(9)]);
    assert_eq!(
        route_entry(&six),
        Ok(Some(Route { pfx: Prefix { dst: IpAddr::V6(1), bits: 128 }, iface: 3 }))
    );
    assert_eq!(route_entry(&route_record(254, 2, 8, vec![1], vec![Destination::V4(1)])), Ok(None));
    assert_eq!(route_entry(&route_record(255, 1, 8, vec![1], vec![Destination::V4(1)])), Ok(None));
    assert_eq!(route_entry(&route_record(255, 2, 8, vec![], vec![Destination::V4(1)])), Ok(None));
    assert_eq!(route_entry(&route_record(255, 2, 8, vec![1], vec![])), Ok(None));
    assert_eq!(route_entry(&route_record(254, 2, 8, vec![1], vec![Destination::Other])), Ok(None));
    let odd = route_record(255, 2, 20, vec![1], vec![Destination::Other, Destination::V4(1)]);
    assert_eq!(route_entry(&odd), Err(RouteError::UnknownAddressFamily));
    let records = vec![
        Record::Route(six),
        Record::Other,
        Record::Route(odd),
        Record::Route(local.clone()),
    ];
    match local_routes(&records) {
        Err(e) => assert_eq!(e, RouteError::UnknownAddressFamily),
        Ok(_) => panic!("a route to an unknown kind of address must fail"),
    }
    let table = local_routes(&vec![Record::Route(local), Record::Family(vec![1])]).unwrap();
    assert_eq!(table.len(), 1);
    assert_eq!(table.route(IpAddr::v4(127, 0, 0, 1)), Some(1));
}

#[test]
fn links_are_noted_one_by_one() {
    let mut found = Interfaces::default();
    assert!(found.id2name.is_empty());
    found.absorb(&LinkRecord {
        index: 4,
        names: vec!["old".into(), "wg0".into()],
        wireguard_kinds: 2,
        vxlan_ports: vec![],
    });
    found.absorb(&LinkRecord {
        index: 9,
        names: vec![],
        wireguard_kinds: 0,
        vxlan_ports: vec![4789, 4790],
    });
    assert_eq!(found.id2name.len(), 1);
    assert_eq!(found.id2name.get(&4).map(|s| s.as_str()), Some("wg0"));
    assert_eq!(found.wireguard_ids, vec![4, 4]);
    assert_eq!(found.vxlan_ports, vec![(9, 4789), (9, 4790)]);
    let again = interface_names(&vec![
        Record::Other,
        Record::Link(LinkRecord {
            index: 4,
            names: vec!["renamed".into()],
            wireguard_kinds: 0,
            vxlan_ports: vec![],
        }),
    ]);
    assert_eq!(again.id2name.get(&4).map(|s| s.as_str()), Some("renamed"));
    assert!(again.wireguard_ids.is_empty());
}

#[test]
fn interfaces_are_found_by_name() {
    let pairs = vec![
        (7u32, "eth0".to_string()),
        (3, "lo".to_string()),
        (5, "eth0".to_string()),
        (9, "eth0".to_string()),
    ];
    assert_eq!(interface_named(&pairs, "eth0"), Some(5));
    assert_eq!(interface_named(&pairs, "lo"), Some(3));
    assert_eq!(interface_named(&pairs, "wg0"), None);
    assert_eq!(interface_named(&vec![], "lo"), None);
}
