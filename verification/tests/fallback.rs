use ports::addr::IpAddr;
use ports::fallback::{all_sockets, record, tcp_table, udp_table, TableEntry, Tables};
use ports::query::Record;
use ports::registry::SocketPool;
use ports::route::{Prefix, Route, Rtbl};
use ports::sock::{Family, IfaceName, InetRecord, Protocol, SockInfo};
use ports::transport::host_is_big_endian;
use std::collections::HashMap;

fn entry(port: u16, remote_port: u16, inode: u64) -> TableEntry {
    TableEntry {
        local_address: IpAddr::v4(10, 0, 0, 1),
        local_port: port,
        remote_port,
        uid: 12,
        inode,
    }
}

fn names() -> HashMap<u32, String> {
    let mut names = HashMap::new();
    names.insert(3u32, "eth1".to_string());
    names
}

fn routes() -> Rtbl {
    Rtbl::new(vec![Route { pfx: Prefix { dst: IpAddr::v4(10, 0, 0, 0), bits: 8 }, iface: 3 }])
}

fn expected(family: Family, protocol: Protocol, port: u16, ino: u64) -> SockInfo {
    SockInfo {
        family,
        protocol,
        port,
        addr: IpAddr::v4(10, 0, 0, 1),
        uid: 12,
        ino,
        iface: IfaceName::LocalRoute(3),
    }
}

#[test]
fn one_readable_table_is_enough() {
    let tables = Tables {
        udp6: Err("udp6 unreadable".to_string()),
        tcp6: Err("tcp6 unreadable".to_string()),
        udp: Err("udp unreadable".to_string()),
        tcp: Ok(vec![entry(22, 0, 1), entry(40000, 443, 2), entry(80, 0, 3)]),
    };
    let found = all_sockets(&tables, &names(), &routes()).unwrap();
    assert_eq!(
        found.sockets.records(),
        vec![
            expected(Family::V4, Protocol::TCP, 22, 1),
            expected(Family::V4, Protocol::TCP, 80, 3),
        ]
    );
    assert_eq!(found.warnings, vec!["udp6 unreadable", "tcp6 unreadable", "udp unreadable"]);
}

#[test]
fn no_readable_table_is_an_error() {
    let tables = Tables {
        udp6: Err("a".to_string()),
        tcp6: Err("b".to_string()),
        udp: Err("c".to_string()),
        tcp: Err("d".to_string()),
    };
    match all_sockets(&tables, &names(), &routes()) {
        Err(errors) => assert_eq!(errors, vec!["a", "b", "c", "d"]),
        Ok(_) => panic!("no table could be read"),
    }
}

#[test]
fn tables_go_in_in_order() {
    let tables = Tables {
        udp6: Ok(vec![entry(53, 0, 1)]),
        tcp6: Ok(vec![entry(80, 0, 2)]),
        udp: Ok(vec![entry(67, 0, 3), entry(68, 0, 1)]),
        tcp: Ok(vec![]),
    };
    let found = all_sockets(&tables, &HashMap::new(), &Rtbl::default()).unwrap();
    assert!(found.warnings.is_empty());
    let records = found.sockets.records();
    assert_eq!(records.len(), 3);
    assert_eq!(
        records[0],
        SockInfo { iface: IfaceName::Unknown, ..expected(Family::V4, Protocol::UDP, 68, 1) }
    );
    assert_eq!(records[1].family, Family::V6);
    assert_eq!(records[1].protocol, Protocol::TCP);
    assert_eq!(records[2].ino, 3);
}

#[test]
fn fallback_record_agrees_with_the_kernel_report() {
    let mut known = names();
    known.insert(2u32, "eth0".to_string());
    let line = entry(443, 0, 9);
    let from_table = record(Family::V4, Protocol::TCP, &line, &known, &routes());
    for bound in [0u32, 2, 3, 50] {
        let report = InetRecord {
            source_port: 443,
            destination_port: 0,
            source_address: IpAddr::v4(10, 0, 0, 1),
            interface_id: bound,
            uid: 12,
            inode: 9,
            v6only: vec![],
        };
        let from_kernel = SockInfo::new(Family::V4, Protocol::TCP, &report, &known, &routes());
        assert_eq!(from_table.port, from_kernel.port);
        assert_eq!(from_table.addr, from_kernel.addr);
        assert_eq!(from_table.protocol, from_kernel.protocol);
        assert_eq!(from_table.ino, from_kernel.ino);
        assert_eq!(from_table.iface, IfaceName::LocalRoute(3));
        if bound == 0 || bound == 50 {
            assert_eq!(from_table, from_kernel);
        } else {
            assert_eq!(from_kernel.iface, IfaceName::Associated(bound));
        }
    }
}

const TCP: &str = "  sl  local_address rem_address   st tx_queue rx_queue tr tm->when retrnsmt   uid  timeout inode
   0: 0100007F:0277 00000000:0000 0A 00000000:00000000 00:00000000 00000000     0        0 12345 1 0000000000000000 100 0 0 10 0
   1: 0100007F:A1B2 0100007F:0277 01 00000000:00000000 00:00000000 00000000  1000        0 23456 1 0000000000000000 20 4 30 10 -1
";

const UDP6: &str = "  sl  local_address                         remote_address                        st tx_queue rx_queue tr tm->when retrnsmt   uid  timeout inode ref pointer drops
 2054: 00000000000000000000000001000000:14E9 00000000000000000000000000000000:0000 07 00000000:00000000 00:00000000 00000000   105        0 34567 2 0000000000000000 0
";

#[test]
fn connection_tables_are_parsed() {
    let lines = tcp_table(TCP.as_bytes()).unwrap();
    assert_eq!(lines.len(), 2);
    if !host_is_big_endian() {
        assert_eq!(
            lines[0],
            TableEntry {
                local_address: IpAddr::v4(127, 0, 0, 1),
                local_port: 631,
                remote_port: 0,
                uid: 0,
                inode: 12345,
            }
        );
        assert_eq!(lines[1].remote_port, 631);
        assert_eq!(lines[1].local_port, 0xa1b2);
        assert_eq!(lines[1].uid, 1000);
        assert_eq!(lines[1].inode, 23456);
    }
    let lines = udp_table(UDP6.as_bytes()).unwrap();
    assert_eq!(lines.len(), 1);
    if !host_is_big_endian() {
        assert_eq!(
            lines[0],
            TableEntry {
                local_address: IpAddr::V6(1),
                local_port: 5353,
                remote_port: 0,
                uid: 105,
                inode: 34567,
            }
        );
    }
    assert!(tcp_table(b"header\nnot a table line\n").is_err());
    assert!(udp_table(b"header\n 1: 0100007F:0277\n").is_err());
    assert_eq!(tcp_table(b"").unwrap(), vec![]);
}

#[test]
fn fallback_gives_no_more_than_the_dumps() {
    // one state of the kernel: family, protocol and what is reported of each socket
    let state = vec![
        (Family::V4, Protocol::TCP, 22u16, 0u16, 1u32, false),
        (Family::V4, Protocol::TCP, 40000, 443, 2, false),
        (Family::V6, Protocol::TCP, 80, 0, 3, true),
        (Family::V6, Protocol::UDP, 53, 0, 4, false),
        (Family::V4, Protocol::SCTP, 9, 0, 5, false),
        (Family::V4, Protocol::UDP, 67, 0, 6, false),
    ];
    let report = |s: &(Family, Protocol, u16, u16, u32, bool)| InetRecord {
        source_port: s.2,
        destination_port: s.3,
        source_address: if s.0 == Family::V4 { IpAddr::v4(10, 0, 0, 1) } else { IpAddr::V6(1) },
        interface_id: 3,
        uid: 12,
        inode: s.4,
        v6only: if s.5 { vec![false] } else { vec![] },
    };
    let lines = |family: Family, protocol: Protocol| -> Result<Vec<TableEntry>, String> {
        Ok(state
            .iter()
            .filter(|s| s.0 == family && s.1 == protocol)
            .map(|s| {
                let r = report(s);
                TableEntry {
                    local_address: r.source_address,
                    local_port: r.source_port,
                    remote_port: r.destination_port,
                    uid: r.uid,
                    inode: u64::from(r.inode),
                }
            })
            .collect())
    };
    let tables = Tables {
        udp6: lines(Family::V6, Protocol::UDP),
        tcp6: lines(Family::V6, Protocol::TCP),
        udp: lines(Family::V4, Protocol::UDP),
        tcp: lines(Family::V4, Protocol::TCP),
    };
    let from_tables = all_sockets(&tables, &names(), &routes()).unwrap().sockets.records();
    let mut pool = SocketPool::new();
    for (family, protocol) in ports::diag::queries() {
        let dump: Vec<Record> = state
            .iter()
            .filter(|s| s.0 == family && s.1 == protocol)
            .map(|s| Record::Inet(report(s)))
            .collect();
        ports::diag::all_sockets(&mut pool, family, protocol, &dump, &names(), &routes());
    }
    let from_dumps = pool.records();
    assert_eq!(from_tables.len(), 4);
    assert_eq!(from_dumps.len(), 5);
    for f in &from_tables {
        assert!(f.protocol == Protocol::TCP || f.protocol == Protocol::UDP);
        assert!(f.family != Family::Both);
        assert!(!matches!(f.iface, IfaceName::Associated(_)));
        assert!(from_dumps.iter().any(|n| n.port == f.port
            && n.addr == f.addr
            && n.protocol == f.protocol
            && n.ino == f.ino
            && n.uid == f.uid));
    }
    assert!(from_dumps.iter().any(|n| n.protocol == Protocol::SCTP));
    assert!(from_dumps.iter().any(|n| n.family == Family::Both));
}
