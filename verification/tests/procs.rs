use ports::procs::{
    interpreter_name, java_ps_name, looks_ish, lua_ps_name, node_ps_name, ps_name, py_ps_name, scan,
    ProcDesc, ProcNamePre, Special,
};
use ports::registry::{Registry, SocketPool};
use ports::addr::IpAddr;
use ports::sock::{Family, IfaceName, Protocol, SockInfo};
use ports::tunnel::TunnelPorts;

fn owned(args: &[&str]) -> Vec<String> {
    args.iter().map(|s| s.to_string()).collect()
}

#[test]
fn py_ps_name_synapse() {
    let cmdline = [
        "/usr/bin/python3",
        "-m",
        "synapse.app.homeserver",
        "--config-path=/etc/synapse/homeserver.yaml",
    ]
    .into_iter()
    .map(|s| s.to_owned())
    .collect();
    let name = py_ps_name(&ProcNamePre {
        name: Some("python".into()),
        exe: Some("/usr/bin/python3".into()),
        cmdline: Some(cmdline),
    });
    assert_eq!(name.as_deref(), Some("python -m synapse.app.homeserver"));
}

#[test]
fn py_ps_name_mms() {
    let cmdline = ["/usr/bin/python", "/home/self/MMS/app.py"]
        .into_iter()
        .map(ToOwned::to_owned)
        .collect();

    let name = py_ps_name(&ProcNamePre {
        name: Some("python".into()),
        exe: Some("/usr/bin/python3.10".into()),
        cmdline: Some(cmdline),
    });
    assert_eq!(name.as_deref(), Some("/home/self/MMS/app.py"));
}

#[test]
fn java_ps_name_flink() {
    let cmdline = [
        "/opt/java/openjdk/bin/java",
        "-Xmx1073741824",
        "-Xms1073741824",
        "-XX:MaxMetaspaceSize=268435456",
        "-Dlog.file=/opt/flink/log/flink--standalonesession-0-pride.log",
        "-Dlog4j.configuration=file:/opt/flink/conf/log4j-console.properties",
        "-Dlog4j.configurationFile=file:/opt/flink/conf/log4j-console.properties",
        "-Dlogback.configurationFile=file:/opt/flink/conf/logback-console.xml",
        "-classpath",
        "/opt/flink/lib/flink-cep-1.16.0.jar:/opt…::::",
        "org.apache.flink.runtime.entrypoint.StandaloneSessionClusterEntrypoint",
        "-D",
        "jobmanager.memory.off-heap.size=134217728b",
        "-D",
        "jobmanager.memory.jvm-overhead.min=201326592b",
        "-D",
        "jobmanager.memory.jvm-metaspace.size=268435456b",
        "-D",
        "jobmanager.memory.heap.size=1073741824b",
        "-D",
        "jobmanager.memory.jvm-overhead.max=201326592b",
        "--configDir",
        "/opt/flink/conf",
        "--executionMode",
        "cluster",
    ]
    .into_iter()
    .map(|s| s.to_owned())
    .collect();
    let name = java_ps_name(&ProcNamePre {
        name: Some("java".to_owned()),
        exe: Some("/opt/java/openjdk/bin/java".into()),
        cmdline: Some(cmdline),
    });
    assert_eq!(
        name.as_deref(),
        Some("java org.apache.flink.runtime.entrypoint.StandaloneSessionClusterEntrypoint")
    );
}

#[test]
fn node_ps_name_simple() {
    let cmdline = ["node", "serve.js"]
        .into_iter()
        .map(ToOwned::to_owned)
        .collect();

    let name = node_ps_name(&ProcNamePre {
        name: Some("node".into()),
        exe: Some("/usr/bin/node".into()),
        cmdline: Some(cmdline),
    });
    assert_eq!(name.as_deref(), Some("node serve.js"));
}

#[test]
fn lua_names_its_script() {
    let name = lua_ps_name(&ProcNamePre {
        name: Some("lua5.4".into()),
        exe: Some("/usr/bin/lua5.4".into()),
        cmdline: Some(owned(&["lua5.4", "-i", "-l", "socket", "srv.lua"])),
    });
    assert_eq!(name.as_deref(), Some("srv.lua"));
    let other = lua_ps_name(&ProcNamePre {
        name: Some("lua5.4".into()),
        exe: Some("/usr/bin/lua5.4".into()),
        cmdline: Some(owned(&["lua5.4", "main"])),
    });
    assert_eq!(other.as_deref(), Some("lua5.4 main"));
}

#[test]
fn looks_ish_takes_versions_only() {
    assert!(looks_ish("python", "python"));
    assert!(looks_ish("python", "/usr/bin/python3.10"));
    assert!(looks_ish("python", "python3"));
    assert!(!looks_ish("python", "pythonx"));
    assert!(!looks_ish("python", "/usr/bin/pypy"));
    assert!(!looks_ish("python", "python/"));
    assert!(looks_ish("", "3.1"));
    // numeric characters of other scripts count as digits too
    assert!(looks_ish("lua", "lua\u{0663}"));
}

#[test]
fn interpreter_needs_all_three_to_match() {
    let has_arg: Vec<&str> = vec![];
    let cmdline = Some(owned(&["python", "x.py"]));
    let name = Some("python".to_string());
    let run = |name: &Option<String>, exe: &Option<String>, cmdline: &Option<Vec<String>>| {
        interpreter_name(
            "python",
            Some(".py"),
            &has_arg,
            &has_arg,
            &has_arg,
            Special::Nothing,
            name,
            exe,
            cmdline,
        )
    };
    assert_eq!(run(&name, &Some("python3".into()), &cmdline).as_deref(), Some("x.py"));
    assert_eq!(run(&None, &Some("python3".into()), &cmdline), None);
    assert_eq!(run(&name, &None, &cmdline), None);
    assert_eq!(run(&name, &Some("python3".into()), &None), None);
    assert_eq!(run(&name, &Some("ruby".into()), &cmdline), None);
    assert_eq!(run(&Some("ruby".into()), &Some("python3".into()), &cmdline), None);
    assert_eq!(run(&name, &Some("python3".into()), &Some(owned(&["ruby", "x.py"]))), None);
    assert_eq!(run(&name, &Some("python3".into()), &Some(vec![])), None);
}

#[test]
fn scan_follows_the_grammar() {
    let has_arg = vec!["-W"];
    let no_arg = vec!["-u"];
    let prefix_arg = vec!["--opt="];
    let run = |args: &[&str], special: Special| {
        scan("python", &owned(args), Some(".py"), &has_arg, &no_arg, &prefix_arg, special)
    };
    assert_eq!(run(&["python"], Special::Nothing), None);
    assert_eq!(run(&["python", "-u", "a.py"], Special::Nothing).as_deref(), Some("a.py"));
    assert_eq!(run(&["python", "-W", "a.py", "b"], Special::Nothing).as_deref(), Some("python b"));
    assert_eq!(run(&["python", "-W"], Special::Nothing), None);
    assert_eq!(run(&["python", "--opt=1", "b.py"], Special::Nothing).as_deref(), Some("b.py"));
    assert_eq!(run(&["python", "--unknown", "b.py"], Special::Nothing), None);
    assert_eq!(run(&["python", "--", "-x"], Special::Nothing).as_deref(), Some("-x"));
    assert_eq!(run(&["python", "--"], Special::Nothing), None);
    assert_eq!(run(&["python", "-m", "mod"], Special::PythonModule).as_deref(), Some("python -m mod"));
    assert_eq!(run(&["python", "-m"], Special::PythonModule), None);
    assert_eq!(run(&["python", "-jar", "a.jar"], Special::JavaJar).as_deref(), Some("a.jar"));
    assert_eq!(run(&["python", "-jar", "a.zip"], Special::JavaJar), None);
    assert_eq!(run(&["python", "-jar"], Special::JavaJar), None);
}

#[test]
fn ps_name_prefers_the_interpreters() {
    let (name, info) = ps_name(
        Some("/usr/bin/python3".into()),
        Some(owned(&["python3", "-m", "http.server"])),
    );
    assert_eq!(info.name.as_deref(), Some("python3"));
    assert_eq!(name.as_deref(), Some("python3 -m http.server"));
    let (name, info) = ps_name(Some("/usr/sbin/sshd".into()), Some(owned(&["sshd: listener"])));
    assert_eq!(info.name.as_deref(), Some("sshd"));
    assert_eq!(name.as_deref(), Some("sshd"));
    let (name, info) = ps_name(None, Some(owned(&["/sbin/init", "splash"])));
    assert_eq!(info.name.as_deref(), Some("/sbin/init"));
    assert_eq!(name.as_deref(), Some("/sbin/init"));
    let (name, info) = ps_name(None, None);
    assert_eq!(info.name, None);
    assert_eq!(name, None);
    let (name, _) = ps_name(None, Some(vec![]));
    assert_eq!(name, None);
}

fn sock(ino: u64, port: u16, uid: u32) -> SockInfo {
    SockInfo {
        family: Family::V4,
        protocol: Protocol::TCP,
        port,
        addr: IpAddr::V4(0),
        uid,
        ino,
        iface: IfaceName::Unknown,
    }
}

#[test]
fn inspect_ps_claims_each_socket_once() {
    let mut pool = SocketPool::new();
    pool.insert(sock(10, 80, 0));
    pool.insert(sock(11, 443, 0));
    pool.insert(sock(12, 22, 0));
    let mut registry = Registry::new(pool, &TunnelPorts::new());
    let first = ProcDesc::inspect_ps(
        7,
        1000,
        Some("/usr/bin/node".into()),
        Some(owned(&["node", "serve.js"])),
        Some("alice".into()),
        true,
        &vec![11, 99, 10, 11],
        &mut registry,
    );
    assert_eq!(first.pid, 7);
    assert_eq!(first.uid, 1000);
    assert_eq!(first.user, "alice");
    assert_eq!(first.name.as_deref(), Some("node serve.js"));
    assert_eq!(first.sockets, vec![sock(11, 443, 0), sock(10, 80, 0)]);
    assert_eq!(registry.pool_len(), 1);
    let second = ProcDesc::inspect_ps(
        8,
        4294967295,
        None,
        None,
        Some("bob".into()),
        false,
        &vec![10, 12],
        &mut registry,
    );
    assert_eq!(second.user, "4294967295");
    assert_eq!(second.name, None);
    assert_eq!(second.sockets, vec![sock(12, 22, 0)]);
    assert_eq!(registry.pool_len(), 0);
    let third = ProcDesc::inspect_ps(9, 0, None, None, None, true, &vec![12], &mut registry);
    assert_eq!(third.user, "0");
    assert!(third.sockets.is_empty());
}
