use ports::addr::IpAddr;
use ports::display::{
    covers_both_wildcards, group_label, group_leaves, hides_unassigned, interface_label,
    interface_name, is_before, leaf_text, order, process_label, sockets_tree, unassigned_label, Key,
};
use ports::filters::{Filters, PortRange};
use ports::options::{
    decide, is_help, match_arg, parse_args, parse_port_range, parse_prefix, parse_uid, perform,
    prefix_address_text, split_args, table, wants_help, warns_unknown_uid, Action, ArgError, Lookups,
    Matched, Pending, PortFault,
};
use ports::procs::{ProcDesc, ProcNamePre};
use ports::route::{Prefix, Route, Rtbl};
use ports::sock::{Family, IfaceName, Protocol, SockInfo};
use ports::text::{eq_ignore_ascii_case, find, head, parse_digits, parse_i32, parse_unsigned};
use std::collections::HashMap;

fn matched(kind: char, value: &str, took_next: bool) -> Result<Option<Matched>, ArgError> {
    Ok(Some(Matched { kind, value: value.to_string(), took_next }))
}

#[test]
fn arguments_name_their_filters() {
    let next = "80".to_string();
    assert_eq!(match_arg(":22", None), matched('p', "22", false));
    assert_eq!(match_arg(":", None), Ok(None));
    assert_eq!(match_arg("%17", Some(&next)), matched('P', "17", false));
    assert_eq!(match_arg("/ssh", None), matched('c', "ssh", false));
    assert_eq!(match_arg("-p", Some(&next)), matched('p', "80", true));
    assert_eq!(match_arg("--port", Some(&next)), matched('p', "80", true));
    assert_eq!(match_arg("--port=443", Some(&next)), matched('p', "443", false));
    assert_eq!(match_arg("-p443", Some(&next)), matched('p', "443", false));
    assert_eq!(match_arg("--portx", None), matched('p', "x", false));
    assert_eq!(match_arg("-P=1", None), matched('P', "1", false));
    assert_eq!(match_arg("--process-id", Some(&next)), matched('P', "80", true));
    assert_eq!(match_arg("--address=::1", None), matched('a', "ess=::1", false));
    assert_eq!(match_arg("--addr=::1", None), matched('a', "::1", false));
    assert_eq!(match_arg("--prefix", Some(&next)), matched('a', "80", true));
    assert_eq!(match_arg("-uroot", None), matched('u', "root", false));
    assert_eq!(match_arg("--interface=eth0", None), matched('i', "eth0", false));
    assert_eq!(match_arg("--iface=eth0", None), matched('i', "eth0", false));
    assert_eq!(match_arg("--command", None), Err(ArgError::MissingValue("--command".into())));
    assert_eq!(match_arg("-a", None), Err(ArgError::MissingValue("-a".into())));
    assert_eq!(match_arg("tcp", None), Ok(None));
    assert_eq!(match_arg("--self", None), Ok(None));
    assert_eq!(match_arg("", None), Ok(None));
    assert_eq!(table().len(), 6);
}

#[test]
fn command_line_is_split_into_values() {
    let args: Vec<String> =
        ["ports", "-p", "80-90", "tcp", ":22", "--user", "root"].iter().map(|s| s.to_string()).collect();
    let pending = split_args(&args).unwrap();
    let expected = vec![
        Pending { kind: Some('p'), value: "80-90".into() },
        Pending { kind: None, value: "tcp".into() },
        Pending { kind: Some('p'), value: "22".into() },
        Pending { kind: Some('u'), value: "root".into() },
    ];
    assert_eq!(pending, expected);
    let missing: Vec<String> = ["ports", "tcp", "-c"].iter().map(|s| s.to_string()).collect();
    assert_eq!(split_args(&missing), Err(ArgError::MissingValue("-c".into())));
    assert_eq!(split_args(&vec!["ports".to_string()]), Ok(vec![]));
    assert_eq!(split_args(&vec![]), Ok(vec![]));
    assert!(wants_help(&args.iter().cloned().chain(["-?".to_string()]).collect()));
    assert!(!wants_help(&args));
    assert!(is_help("--help"));
    assert!(is_help("help"));
    assert!(!is_help("-H"));
}

#[test]
fn numbers_are_read_as_the_standard_library_reads_them() {
    for text in ["0", "7", "007", "+5", "65535", "65536", "", "+", "-0", " 1", "1 ", "1a", "٣"] {
        assert_eq!(parse_unsigned(text, 65535), text.parse::<u16>().ok().map(u64::from), "{text}");
    }
    for text in ["4294967295", "4294967296", "99999999999999999999999", "+0"] {
        assert_eq!(parse_uid(text), text.parse::<u32>().ok(), "{text}");
    }
    for text in ["0", "-0", "-1", "+1", "2147483647", "2147483648", "-2147483648", "-2147483649", "-", "--1", "+-1", ""] {
        assert_eq!(parse_i32(text), text.parse::<i32>().ok(), "{text}");
    }
    assert_eq!(parse_digits("18446744073709551615", u64::MAX), Some(u64::MAX));
    assert_eq!(parse_digits("18446744073709551616", u64::MAX), None);
    assert_eq!(parse_digits("+1", 9), None);
}

#[test]
fn port_ranges_go_either_way() {
    assert_eq!(parse_port_range("80"), Ok(PortRange { start: 80, end: 80 }));
    assert_eq!(parse_port_range("80-90"), Ok(PortRange { start: 80, end: 90 }));
    assert_eq!(parse_port_range("90-80"), Ok(PortRange { start: 80, end: 90 }));
    assert_eq!(parse_port_range("0-65535"), Ok(PortRange { start: 0, end: 65535 }));
    assert_eq!(parse_port_range("http"), Err(PortFault::Single));
    assert_eq!(parse_port_range("65536"), Err(PortFault::Single));
    assert_eq!(parse_port_range("-80"), Err(PortFault::Start));
    assert_eq!(parse_port_range("a-80"), Err(PortFault::Start));
    assert_eq!(parse_port_range("80-"), Err(PortFault::End));
    assert_eq!(parse_port_range("80-90-100"), Err(PortFault::End));
}

#[test]
fn prefixes_take_their_length_from_the_text() {
    let dst = IpAddr::v4(10, 0, 0, 0);
    assert_eq!(prefix_address_text("10.0.0.0/8"), "10.0.0.0");
    assert_eq!(prefix_address_text("::1"), "::1");
    assert_eq!(prefix_address_text("/8"), "");
    assert_eq!(parse_prefix("10.0.0.0/8", Some(dst)), Some(Prefix { dst, bits: 8 }));
    assert_eq!(parse_prefix("10.0.0.0", Some(dst)), Some(Prefix { dst, bits: 32 }));
    assert_eq!(parse_prefix("::", Some(IpAddr::V6(0))), Some(Prefix { dst: IpAddr::V6(0), bits: 128 }));
    assert_eq!(parse_prefix("10.0.0.0/255", Some(dst)), Some(Prefix { dst, bits: 255 }));
    assert_eq!(parse_prefix("10.0.0.0/256", Some(dst)), None);
    assert_eq!(parse_prefix("10.0.0.0/", Some(dst)), None);
    assert_eq!(parse_prefix("10.0.0.0/8/8", Some(dst)), None);
    assert_eq!(parse_prefix("10.0.0.0/8", None), None);
    assert_eq!(find("a/b/c", '/'), Some(1));
    assert_eq!(find("abc", '/'), None);
    assert_eq!(head("a/b", 1), "a");
    assert_eq!(head("a/b", 3), "a/b");
    assert_eq!(head("a/b", 9), "a/b");
}

fn nothing() -> Lookups {
    Lookups {
        user_by_name: None,
        uid_known: false,
        address: None,
        interface: None,
        current_uid: 1000,
        effective_uid: 0,
    }
}

fn routes() -> Rtbl {
    Rtbl::new(vec![
        Route { pfx: Prefix { dst: IpAddr::v4(10, 0, 0, 0), bits: 8 }, iface: 3 },
        Route { pfx: Prefix { dst: IpAddr::v4(10, 0, 0, 1), bits: 32 }, iface: 3 },
        Route { pfx: Prefix { dst: IpAddr::v4(127, 0, 0, 0), bits: 8 }, iface: 1 },
    ])
}

#[test]
fn values_are_read_by_their_filter() {
    let t = routes();
    let none = nothing();
    assert_eq!(decide(Some('c'), "Ssh", &none, &t), Ok(Action::Cmd("Ssh".into())));
    assert_eq!(decide(Some('P'), "17", &none, &t), Ok(Action::Pid(17)));
    assert_eq!(decide(Some('P'), "x", &none, &t), Err(ArgError::BadPid("x".into())));
    assert_eq!(decide(Some('u'), "33", &none, &t), Ok(Action::Users(vec![33])));
    assert_eq!(decide(Some('u'), "www", &none, &t), Err(ArgError::UnknownUser("www".into())));
    let www = Lookups { user_by_name: Some(33), ..none };
    assert_eq!(decide(Some('u'), "www", &www, &t), Ok(Action::Users(vec![33])));
    assert_eq!(decide(Some('u'), "44", &www, &t), Ok(Action::Users(vec![33])));
    assert_eq!(
        decide(Some('p'), "90-80", &none, &t),
        Ok(Action::Port(PortRange { start: 80, end: 90 }))
    );
    assert_eq!(decide(Some('p'), "x-1", &none, &t), Err(ArgError::BadPortStart("x-1".into())));
    assert_eq!(decide(Some('p'), "1-x", &none, &t), Err(ArgError::BadPortEnd("1-x".into())));
    assert_eq!(decide(Some('p'), "x", &none, &t), Err(ArgError::BadPort("x".into())));
    let eth = Lookups { interface: Some(3), ..none };
    assert_eq!(
        decide(Some('i'), "eth1", &eth, &t),
        Ok(Action::Prefixes(vec![
            Prefix { dst: IpAddr::v4(10, 0, 0, 1), bits: 32 },
            Prefix { dst: IpAddr::v4(10, 0, 0, 0), bits: 8 },
        ]))
    );
    assert_eq!(decide(Some('i'), "eth9", &none, &t), Err(ArgError::UnknownInterface("eth9".into())));
    let addr = Lookups { address: Some(IpAddr::V6(1)), ..none };
    assert_eq!(
        decide(Some('a'), "::1/64", &addr, &t),
        Ok(Action::Prefixes(vec![Prefix { dst: IpAddr::V6(1), bits: 64 }]))
    );
    assert_eq!(decide(Some('a'), "nowhere", &none, &t), Err(ArgError::BadPrefix("nowhere".into())));
    assert_eq!(decide(Some('z'), "x", &none, &t), Err(ArgError::UnknownArgument("x".into())));
}

#[test]
fn bare_arguments_are_tried_in_order() {
    let t = routes();
    let none = nothing();
    assert_eq!(decide(None, "-s", &none, &t), Ok(Action::Users(vec![1000, 0])));
    assert_eq!(decide(None, "--self", &none, &t), Ok(Action::Users(vec![1000, 0])));
    assert_eq!(decide(None, "--UDP", &none, &t), Ok(Action::Proto(Protocol::UDP)));
    assert_eq!(decide(None, "Tcp", &none, &t), Ok(Action::Proto(Protocol::TCP)));
    assert_eq!(decide(None, "udplite", &none, &t), Ok(Action::Proto(Protocol::UDPlite)));
    let everything = Lookups {
        user_by_name: Some(7),
        address: Some(IpAddr::V4(1)),
        interface: Some(1),
        ..none
    };
    assert_eq!(decide(None, "sctp", &everything, &t), Ok(Action::Proto(Protocol::SCTP)));
    assert_eq!(
        decide(None, "0.0.0.1", &everything, &t),
        Ok(Action::Prefixes(vec![Prefix { dst: IpAddr::V4(1), bits: 32 }]))
    );
    let named = Lookups { address: None, ..everything };
    assert_eq!(
        decide(None, "lo", &named, &t),
        Ok(Action::Prefixes(vec![Prefix { dst: IpAddr::v4(127, 0, 0, 0), bits: 8 }]))
    );
    let user = Lookups { interface: None, ..named };
    assert_eq!(decide(None, "lo", &user, &t), Ok(Action::Users(vec![7])));
    assert_eq!(decide(None, "lo", &none, &t), Err(ArgError::UnknownArgument("lo".into())));
    assert_eq!(Protocol::parse("ICMP"), Some(Protocol::ICMP));
    assert_eq!(Protocol::parse("icmp6"), None);
    assert!(eq_ignore_ascii_case("RaW", "raw"));
    assert!(!eq_ignore_ascii_case("r\u{e4}w", "r\u{c4}w"));
    assert!(!eq_ignore_ascii_case("@", "`"));
}

#[test]
fn unknown_user_numbers_are_warned_of() {
    let none = nothing();
    assert_eq!(warns_unknown_uid(Some('u'), "33", &none), Some(33));
    assert_eq!(warns_unknown_uid(Some('u'), "www", &none), None);
    assert_eq!(warns_unknown_uid(Some('u'), "33", &Lookups { uid_known: true, ..none }), None);
    assert_eq!(warns_unknown_uid(Some('u'), "33", &Lookups { user_by_name: Some(1), ..none }), None);
    assert_eq!(warns_unknown_uid(Some('p'), "33", &none), None);
    assert_eq!(warns_unknown_uid(None, "33", &none), None);
}

#[test]
fn filters_are_filled_in_order() {
    let t = routes();
    let pending = vec![
        Pending { kind: Some('p'), value: "80".into() },
        Pending { kind: None, value: "tcp".into() },
        Pending { kind: None, value: "TCP".into() },
        Pending { kind: None, value: "udp".into() },
        Pending { kind: Some('u'), value: "5".into() },
        Pending { kind: None, value: "-s".into() },
        Pending { kind: Some('c'), value: "ssh".into() },
        Pending { kind: Some('P'), value: "1".into() },
        Pending { kind: Some('a'), value: "10.0.0.0/8".into() },
    ];
    let mut looks = vec![nothing(); 9];
    looks[8].address = Some(IpAddr::v4(10, 0, 0, 0));
    let filters = parse_args(&pending, &looks, &t).unwrap();
    assert_eq!(filters.port, vec![PortRange { start: 80, end: 80 }]);
    assert_eq!(filters.proto, vec![Protocol::TCP, Protocol::UDP]);
    assert_eq!(filters.user, vec![5, 1000, 0]);
    assert_eq!(filters.cmd, vec!["ssh"]);
    assert_eq!(filters.pid, vec![1]);
    assert_eq!(filters.pfxs, vec![Prefix { dst: IpAddr::v4(10, 0, 0, 0), bits: 8 }]);
    let bad = vec![
        Pending { kind: Some('p'), value: "80".into() },
        Pending { kind: Some('P'), value: "one".into() },
        Pending { kind: Some('p'), value: "x".into() },
    ];
    match parse_args(&bad, &looks, &t) {
        Err(e) => assert_eq!(e, ArgError::BadPid("one".into())),
        Ok(_) => panic!("the process number is no number"),
    }
    let mut f = Filters::empty();
    perform(&mut f, Action::Proto(Protocol::RAW));
    perform(&mut f, Action::Proto(Protocol::RAW));
    perform(&mut f, Action::Users(vec![]));
    perform(&mut f, Action::Prefixes(vec![]));
    assert_eq!(f.proto, vec![Protocol::RAW]);
    assert!(f.user.is_empty());
}

fn sock(family: Family, protocol: Protocol, port: u16, addr: IpAddr, iface: IfaceName) -> SockInfo {
    SockInfo { family, protocol, port, addr, uid: 0, ino: 0, iface }
}

fn names() -> HashMap<u32, String> {
    let mut names = HashMap::new();
    names.insert(2u32, "eth0".to_string());
    names
}

#[test]
fn keys_are_put_in_order() {
    let k = |a: u64, b: u128, c: u64| Key { a, b, c };
    assert!(is_before(k(1, 9, 9), k(2, 0, 0)));
    assert!(is_before(k(1, 1, 9), k(1, 2, 0)));
    assert!(is_before(k(1, 1, 1), k(1, 1, 2)));
    assert!(!is_before(k(1, 1, 1), k(1, 1, 1)));
    assert!(!is_before(k(2, 0, 0), k(1, 9, 9)));
    assert_eq!(
        order(&vec![k(3, 0, 0), k(1, 2, 0), k(3, 0, 0), k(1, 1, 5), k(0, 9, 9), k(1, 2, 0)]),
        vec![k(0, 9, 9), k(1, 1, 5), k(1, 2, 0), k(3, 0, 0)]
    );
    assert_eq!(order(&vec![]), vec![]);
}

#[test]
fn addresses_are_shown_with_their_interface() {
    let n = names();
    let v6any = IpAddr::V6(0);
    let show = |family, addr, iface| leaf_text(&sock(family, Protocol::TCP, 1, addr, iface), &n);
    assert_eq!(show(Family::Both, v6any, IfaceName::Unknown), "*");
    assert_eq!(show(Family::Both, v6any, IfaceName::Associated(2)), "*%eth0");
    assert_eq!(show(Family::V6, v6any, IfaceName::Unknown), "::");
    assert_eq!(show(Family::V6, v6any, IfaceName::Associated(2)), "::%eth0");
    assert_eq!(show(Family::Both, IpAddr::V6(1), IfaceName::Unknown), "::1");
    assert_eq!(show(Family::V4, IpAddr::v4(10, 1, 2, 3), IfaceName::LocalRoute(2)), "10.1.2.3 (eth0)");
    assert_eq!(show(Family::Both, v6any, IfaceName::LocalRoute(2)), ":: (eth0)");
    assert_eq!(show(Family::V4, IpAddr::V4(0), IfaceName::Associated(9)), "0.0.0.0%#9");
    assert_eq!(
        show(Family::V6, IpAddr::V6(0xfe80_0000_0000_0000_0000_0000_0000_0001), IfaceName::Unknown),
        "fe80::1"
    );
    assert_eq!(interface_name(&n, 2), "eth0");
    assert_eq!(interface_name(&n, 4294967295), "#4294967295");
    assert_eq!(interface_label(&n, 2), "[network interface eth0]");
    assert_eq!(interface_label(&n, 7), "[network interface #7]");
    assert_eq!(group_label(51820, Protocol::UDP), ":51820 udp");
    assert_eq!(group_label(0, Protocol::UDPlite), ":0 udplite");
}

#[test]
fn sockets_become_a_tree_by_port() {
    let n = names();
    let v4any = IpAddr::V4(0);
    let v6any = IpAddr::V6(0);
    let sockets = vec![
        sock(Family::V6, Protocol::TCP, 443, v6any, IfaceName::Unknown),
        sock(Family::V4, Protocol::TCP, 443, v4any, IfaceName::Unknown),
        sock(Family::V4, Protocol::UDP, 53, IpAddr::v4(127, 0, 0, 53), IfaceName::LocalRoute(2)),
        sock(Family::V4, Protocol::TCP, 53, IpAddr::v4(127, 0, 0, 53), IfaceName::LocalRoute(2)),
        sock(Family::Both, Protocol::TCP, 22, v6any, IfaceName::Unknown),
        sock(Family::V4, Protocol::TCP, 53, IpAddr::v4(10, 0, 0, 1), IfaceName::Associated(2)),
        sock(Family::V4, Protocol::TCP, 53, IpAddr::v4(10, 0, 0, 1), IfaceName::Associated(2)),
    ];
    assert!(covers_both_wildcards(&sockets[..2].to_vec()));
    assert!(!covers_both_wildcards(&sockets[..3].to_vec()));
    assert!(!covers_both_wildcards(&sockets[1..3].to_vec()));
    let all = Filters::empty();
    assert_eq!(
        sockets_tree(&sockets, &all, &n).render(None, false),
        ":22 tcp / *\n:53 tcp\n\u{251c} 10.0.0.1%eth0\n\u{2514} 127.0.0.53 (eth0)\n:53 udp / 127.0.0.53 (eth0)\n:443 tcp / 0.0.0.0 + ::\n"
    );
    let tcp = Filters { proto: vec![Protocol::UDP], ..Filters::empty() };
    assert_eq!(sockets_tree(&sockets, &tcp, &n).render(None, false), ":53 udp / 127.0.0.53 (eth0)\n");
    let low = Filters { port: vec![PortRange { start: 0, end: 52 }], ..Filters::empty() };
    assert_eq!(sockets_tree(&sockets, &low, &n).render(None, false), ":22 tcp / *\n");
    let ten = Filters {
        pfxs: vec![Prefix { dst: IpAddr::v4(10, 0, 0, 0), bits: 8 }],
        ..Filters::empty()
    };
    assert_eq!(
        sockets_tree(&sockets, &ten, &n).render(None, false),
        ":22 tcp / *\n:53 tcp / 10.0.0.1%eth0\n:443 tcp / 0.0.0.0 + ::\n"
    );
    assert_eq!(group_leaves(&sockets[2..3].to_vec(), &ten, &n), Vec::<String>::new());
    assert_eq!(sockets_tree(&vec![], &all, &n).len(), 0);
}

#[test]
fn owners_are_labelled() {
    let mut pd = ProcDesc {
        pid: 17,
        user: "root".into(),
        uid: 0,
        name: Some("sshd".into()),
        info: ProcNamePre { name: None, exe: None, cmdline: None },
        sockets: vec![sock(Family::V4, Protocol::TCP, 22, IpAddr::V4(0), IfaceName::Unknown)],
    };
    assert_eq!(process_label(&pd), "sshd (pid 17 user root)");
    assert_eq!(pd.socket_keys(), vec![(22, 0, 0, 0, 0)]);
    pd.name = None;
    pd.pid = -3;
    assert_eq!(process_label(&pd), "pid -3 user root");
    assert_eq!(unassigned_label(33, &Some("www".into()), 1000), "??? (user 33/www?)");
    assert_eq!(unassigned_label(33, &Some("www".into()), 0), "??? (user 33)");
    assert_eq!(unassigned_label(33, &None, 1000), "??? (user 33)");
    let by_pid = Filters { pid: vec![1], ..Filters::empty() };
    assert!(hides_unassigned(&by_pid, 2));
    assert!(!hides_unassigned(&by_pid, 0));
    assert!(!hides_unassigned(&Filters::empty(), 2));
}
