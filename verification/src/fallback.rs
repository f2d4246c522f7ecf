//! Socket records from the textual connection tables, for when the kernel
//! refuses the socket-diagnostics protocol.

use vstd::prelude::*;
use std::collections::HashMap;
use procfs::net::{TcpNetEntries, TcpNetEntry, UdpNetEntries, UdpNetEntry};
use procfs::FromReadSI;
use crate::addr::IpAddr;
use crate::registry::{distinct_inodes, inserted, SocketPool};
use crate::route::{Route, Rtbl};
use crate::sock::{
    dual_stack, infer_interface, inferred, record_of, Family, InetRecord, Protocol, SockInfo,
};

verus! {

/// One line of a connection table.
#[derive(Clone, Copy, Debug, PartialEq, Eq, Structural)]
pub struct TableEntry {
    pub local_address: IpAddr,
    pub local_port: u16,
    pub remote_port: u16,
    pub uid: u32,
    pub inode: u64,
}

/// One connection table: its lines, or why it could not be read.
pub type Table = Result<Vec<TableEntry>, String>;

/// The four connection tables.
pub struct Tables {
    pub udp6: Table,
    pub tcp6: Table,
    pub udp: Table,
    pub tcp: Table,
}

/// The record of the socket of table line `e`. The tables name no
/// interface, so one can only be inferred from the routes.
pub open spec fn fallback_record(
    family: Family,
    protocol: Protocol,
    e: TableEntry,
    known: Set<u32>,
    routes: Seq<Route>,
) -> SockInfo {
    SockInfo {
        family,
        protocol,
        port: e.local_port,
        addr: e.local_address,
        uid: e.uid,
        ino: e.inode,
        iface: inferred(known, routes, e.local_address),
    }
}

/// The pool after the listening sockets among `entries` went in, in order.
/// A socket listens if it has no remote port.
pub open spec fn absorbed(
    pool: Seq<SockInfo>,
    family: Family,
    protocol: Protocol,
    entries: Seq<TableEntry>,
    known: Set<u32>,
    routes: Seq<Route>,
) -> Seq<SockInfo>
    decreases entries.len(),
{
    if entries.len() == 0 {
        pool
    } else {
        let before = absorbed(pool, family, protocol, entries.drop_last(), known, routes);
        if entries.last().remote_port == 0 {
            inserted(before, fallback_record(family, protocol, entries.last(), known, routes))
        } else {
            before
        }
    }
}

/// The pool after a table went in; a table that could not be read leaves it
/// as it is.
pub open spec fn with_table(
    pool: Seq<SockInfo>,
    family: Family,
    protocol: Protocol,
    table: Table,
    known: Set<u32>,
    routes: Seq<Route>,
) -> Seq<SockInfo> {
    match table {
        Ok(entries) => absorbed(pool, family, protocol, entries@, known, routes),
        Err(_) => pool,
    }
}

/// The failure of a table, if it has one.
pub open spec fn failure(table: Table) -> Seq<String> {
    match table {
        Ok(_) => Seq::empty(),
        Err(e) => seq![e],
    }
}

/// The failures of the four tables, in the order in which the tables are read.
pub open spec fn failures(t: Tables) -> Seq<String> {
    failure(t.udp6) + failure(t.tcp6) + failure(t.udp) + failure(t.tcp)
}

/// The records of the four tables: those of `udp6`, `tcp6`, `udp` and `tcp`
/// went into an empty pool, in this order.
pub open spec fn sockets(t: Tables, known: Set<u32>, routes: Seq<Route>) -> Seq<SockInfo> {
    let p1 = with_table(Seq::empty(), Family::V6, Protocol::UDP, t.udp6, known, routes);
    let p2 = with_table(p1, Family::V6, Protocol::TCP, t.tcp6, known, routes);
    let p3 = with_table(p2, Family::V4, Protocol::UDP, t.udp, known, routes);
    with_table(p3, Family::V4, Protocol::TCP, t.tcp, known, routes)
}

/// What the fallback found: the records, and a warning for each table that
/// could not be read.
pub struct Fallback {
    pub sockets: SocketPool,
    pub warnings: Vec<String>,
}

/// The record of the socket of table line `e`.
pub fn record(
    family: Family,
    protocol: Protocol,
    e: &TableEntry,
    interfaces: &HashMap<u32, String>,
    local_routes: &Rtbl,
) -> (r: SockInfo)
    ensures
        r == fallback_record(family, protocol, *e, interfaces@.dom(), local_routes@),
{
    SockInfo {
        family,
        protocol,
        port: e.local_port,
        addr: e.local_address,
        uid: e.uid,
        ino: e.inode,
        iface: infer_interface(interfaces, local_routes, e.local_address),
    }
}

/// Puts the listening sockets of one table into the pool, and the failure
/// of the table, if it has one, among the failures.
pub fn absorb_table(
    pool: &mut SocketPool,
    errors: &mut Vec<String>,
    family: Family,
    protocol: Protocol,
    table: &Table,
    interfaces: &HashMap<u32, String>,
    local_routes: &Rtbl,
)
    ensures
        final(pool)@ == with_table(
            old(pool)@,
            family,
            protocol,
            *table,
            interfaces@.dom(),
            local_routes@,
        ),
        final(errors)@ == old(errors)@ + failure(*table),
{
    match table {
        Ok(entries) => {
            let mut i: usize = 0;
            assert(entries@.take(0) =~= Seq::<TableEntry>::empty());
            while i < entries.len()
                invariant
                    i <= entries.len(),
                    pool@ == absorbed(
                        old(pool)@,
                        family,
                        protocol,
                        entries@.take(i as int),
                        interfaces@.dom(),
                        local_routes@,
                    ),
                decreases entries.len() - i,
            {
                assert(entries@.take(i + 1).drop_last() =~= entries@.take(i as int));
                if entries[i].remote_port == 0 {
                    pool.insert(record(family, protocol, &entries[i], interfaces, local_routes));
                }
                i = i + 1;
            }
            assert(entries@.take(entries.len() as int) =~= entries@);
            assert(errors@ + Seq::<String>::empty() =~= errors@);
        },
        Err(e) => {
            errors.push(e.clone());
            assert(old(errors)@.push(*e) =~= old(errors)@ + seq![*e]);
        },
    }
}

/// The listening sockets of the four tables. If at least one table could be
/// read, the records of the readable tables come back, with the failures of
/// the others as warnings. If none could be read, the four failures come
/// back as the error.
pub fn all_sockets(tables: &Tables, interfaces: &HashMap<u32, String>, local_routes: &Rtbl) -> (r:
    Result<Fallback, Vec<String>>)
    ensures
        match r {
            Ok(found) => failures(*tables).len() < 4 && found.sockets@ == sockets(
                *tables,
                interfaces@.dom(),
                local_routes@,
            ) && found.warnings@ == failures(*tables),
            Err(errors) => failures(*tables).len() == 4 && errors@ == failures(*tables),
        },
{
    let mut pool = SocketPool::new();
    let mut errors: Vec<String> = Vec::new();
    absorb_table(
        &mut pool,
        &mut errors,
        Family::V6,
        Protocol::UDP,
        &tables.udp6,
        interfaces,
        local_routes,
    );
    absorb_table(
        &mut pool,
        &mut errors,
        Family::V6,
        Protocol::TCP,
        &tables.tcp6,
        interfaces,
        local_routes,
    );
    absorb_table(
        &mut pool,
        &mut errors,
        Family::V4,
        Protocol::UDP,
        &tables.udp,
        interfaces,
        local_routes,
    );
    absorb_table(
        &mut pool,
        &mut errors,
        Family::V4,
        Protocol::TCP,
        &tables.tcp,
        interfaces,
        local_routes,
    );
    assert(errors@ =~= failures(*tables));
    if errors.len() < 4 {
        Ok(Fallback { sockets: pool, warnings: errors })
    } else {
        Err(errors)
    }
}

/// Fallback equivalence. Where a table line and a report of the kernel
/// describe the same socket, the record from the table has the port,
/// address, protocol, user and inode of the record from the report. It is
/// never attributed to an interface directly; where the record from the
/// report is not either, the two name the same interface. The two are of the
/// same family unless the report shows a dual-stack socket.
pub proof fn lemma_fallback_equivalence(
    family: Family,
    protocol: Protocol,
    e: TableEntry,
    ir: InetRecord,
    known: Set<u32>,
    routes: Seq<Route>,
)
    requires
        e.local_port == ir.source_port,
        e.local_address == ir.source_address,
        e.uid == ir.uid,
        e.inode == ir.inode,
    ensures
        ({
            let f = fallback_record(family, protocol, e, known, routes);
            let n = record_of(family, protocol, ir, known, routes);
            &&& f.port == n.port && f.addr == n.addr && f.protocol == n.protocol
            &&& f.uid == n.uid && f.ino == n.ino
            &&& !(f.iface is Associated)
            &&& !(n.iface is Associated) ==> f.iface == n.iface
            &&& !dual_stack(ir.v6only@) ==> f == SockInfo { iface: f.iface, ..n }
        }),
{
}

/// A record that the tables can give: of TCP or UDP, and not attributed to
/// an interface directly.
pub open spec fn narrow(s: SockInfo) -> bool {
    (s.protocol == Protocol::TCP || s.protocol == Protocol::UDP) && !(s.iface is Associated)
}

/// All records of `pool` are such as the tables can give.
pub open spec fn all_narrow(pool: Seq<SockInfo>) -> bool {
    forall|i: int| 0 <= i < pool.len() ==> narrow(#[trigger] pool[i])
}

/// The lines of a TCP or UDP table add only records such as the tables can
/// give.
pub proof fn lemma_absorbed_narrow(
    pool: Seq<SockInfo>,
    family: Family,
    protocol: Protocol,
    entries: Seq<TableEntry>,
    known: Set<u32>,
    routes: Seq<Route>,
)
    requires
        all_narrow(pool),
        protocol == Protocol::TCP || protocol == Protocol::UDP,
    ensures
        all_narrow(absorbed(pool, family, protocol, entries, known, routes)),
    decreases entries.len(),
{
    if entries.len() > 0 {
        lemma_absorbed_narrow(pool, family, protocol, entries.drop_last(), known, routes);
        let before = absorbed(pool, family, protocol, entries.drop_last(), known, routes);
        let s = fallback_record(family, protocol, entries.last(), known, routes);
        crate::registry::lemma_find(before, s.ino);
    }
}

/// The fallback is narrower than the protocol path: whatever the tables
/// hold, every record that it gives is of TCP or UDP, and none is
/// attributed to an interface directly.
pub proof fn lemma_fallback_is_narrow(t: Tables, known: Set<u32>, routes: Seq<Route>)
    ensures
        all_narrow(sockets(t, known, routes)),
{
    let p0 = Seq::<SockInfo>::empty();
    let p1 = with_table(p0, Family::V6, Protocol::UDP, t.udp6, known, routes);
    let p2 = with_table(p1, Family::V6, Protocol::TCP, t.tcp6, known, routes);
    let p3 = with_table(p2, Family::V4, Protocol::UDP, t.udp, known, routes);
    if t.udp6 is Ok {
        lemma_absorbed_narrow(p0, Family::V6, Protocol::UDP, t.udp6->Ok_0@, known, routes);
    }
    if t.tcp6 is Ok {
        lemma_absorbed_narrow(p1, Family::V6, Protocol::TCP, t.tcp6->Ok_0@, known, routes);
    }
    if t.udp is Ok {
        lemma_absorbed_narrow(p2, Family::V4, Protocol::UDP, t.udp->Ok_0@, known, routes);
    }
    if t.tcp is Ok {
        lemma_absorbed_narrow(p3, Family::V4, Protocol::TCP, t.tcp->Ok_0@, known, routes);
    }
}

/// `s` is the record of a line without remote port of `table`, read as a
/// table of `family` and `protocol`.
pub open spec fn from_table(
    family: Family,
    protocol: Protocol,
    table: Table,
    known: Set<u32>,
    routes: Seq<Route>,
    s: SockInfo,
) -> bool {
    table matches Ok(entries) && exists|i: int|
        0 <= i < entries@.len() && (#[trigger] entries@[i]).remote_port == 0 && s
            == fallback_record(family, protocol, entries@[i], known, routes)
}

/// `s` is the record of a line without remote port of one of the four
/// tables.
pub open spec fn of_listening_line(t: Tables, known: Set<u32>, routes: Seq<Route>, s: SockInfo)
    -> bool {
    ||| from_table(Family::V6, Protocol::UDP, t.udp6, known, routes, s)
    ||| from_table(Family::V6, Protocol::TCP, t.tcp6, known, routes, s)
    ||| from_table(Family::V4, Protocol::UDP, t.udp, known, routes, s)
    ||| from_table(Family::V4, Protocol::TCP, t.tcp, known, routes, s)
}

/// What holds of the records of a pool and of the record of every line
/// without remote port holds of every record after the lines went in.
pub proof fn lemma_absorbed_keeps(
    pool: Seq<SockInfo>,
    family: Family,
    protocol: Protocol,
    entries: Seq<TableEntry>,
    known: Set<u32>,
    routes: Seq<Route>,
    holds: spec_fn(SockInfo) -> bool,
)
    requires
        forall|k: int| 0 <= k < pool.len() ==> holds(#[trigger] pool[k]),
        forall|i: int|
            0 <= i < entries.len() && (#[trigger] entries[i]).remote_port == 0 ==> holds(
                fallback_record(family, protocol, entries[i], known, routes),
            ),
    ensures
        forall|k: int|
            0 <= k < absorbed(pool, family, protocol, entries, known, routes).len() ==> holds(
                #[trigger] absorbed(pool, family, protocol, entries, known, routes)[k],
            ),
    decreases entries.len(),
{
    if entries.len() > 0 {
        let earlier = entries.drop_last();
        assert forall|i: int|
            0 <= i < earlier.len() && (#[trigger] earlier[i]).remote_port == 0 implies holds(
            fallback_record(family, protocol, earlier[i], known, routes),
        ) by {
            assert(earlier[i] == entries[i]);
        }
        lemma_absorbed_keeps(pool, family, protocol, earlier, known, routes, holds);
        let before = absorbed(pool, family, protocol, earlier, known, routes);
        let s = fallback_record(family, protocol, entries.last(), known, routes);
        crate::registry::lemma_find(before, s.ino);
        if entries.last().remote_port == 0 {
            assert(entries[entries.len() - 1] == entries.last());
        }
    }
}

/// The lines of a table leave the inodes of a pool distinct.
pub proof fn lemma_absorbed_distinct(
    pool: Seq<SockInfo>,
    family: Family,
    protocol: Protocol,
    entries: Seq<TableEntry>,
    known: Set<u32>,
    routes: Seq<Route>,
)
    requires
        distinct_inodes(pool),
    ensures
        distinct_inodes(absorbed(pool, family, protocol, entries, known, routes)),
    decreases entries.len(),
{
    if entries.len() > 0 {
        lemma_absorbed_distinct(pool, family, protocol, entries.drop_last(), known, routes);
        let before = absorbed(pool, family, protocol, entries.drop_last(), known, routes);
        let s = fallback_record(family, protocol, entries.last(), known, routes);
        crate::registry::lemma_insert_keeps_distinct(before, s);
    }
}

/// Every record of the fallback is the record of a line without remote
/// port of one of the tables, is of the family of its table and never
/// dual-stack, and no two records have the same inode.
pub proof fn lemma_fallback_records(t: Tables, known: Set<u32>, routes: Seq<Route>)
    ensures
        forall|k: int|
            0 <= k < sockets(t, known, routes).len() ==> of_listening_line(
                t,
                known,
                routes,
                #[trigger] sockets(t, known, routes)[k],
            ) && sockets(t, known, routes)[k].family != Family::Both,
        distinct_inodes(sockets(t, known, routes)),
{
    let holds = |s: SockInfo| of_listening_line(t, known, routes, s) && s.family != Family::Both;
    let p0 = Seq::<SockInfo>::empty();
    let p1 = with_table(p0, Family::V6, Protocol::UDP, t.udp6, known, routes);
    let p2 = with_table(p1, Family::V6, Protocol::TCP, t.tcp6, known, routes);
    let p3 = with_table(p2, Family::V4, Protocol::UDP, t.udp, known, routes);
    if t.udp6 is Ok {
        lemma_absorbed_keeps(p0, Family::V6, Protocol::UDP, t.udp6->Ok_0@, known, routes, holds);
        lemma_absorbed_distinct(p0, Family::V6, Protocol::UDP, t.udp6->Ok_0@, known, routes);
    }
    if t.tcp6 is Ok {
        lemma_absorbed_keeps(p1, Family::V6, Protocol::TCP, t.tcp6->Ok_0@, known, routes, holds);
        lemma_absorbed_distinct(p1, Family::V6, Protocol::TCP, t.tcp6->Ok_0@, known, routes);
    }
    if t.udp is Ok {
        lemma_absorbed_keeps(p2, Family::V4, Protocol::UDP, t.udp->Ok_0@, known, routes, holds);
        lemma_absorbed_distinct(p2, Family::V4, Protocol::UDP, t.udp->Ok_0@, known, routes);
    }
    if t.tcp is Ok {
        lemma_absorbed_keeps(p3, Family::V4, Protocol::TCP, t.tcp->Ok_0@, known, routes, holds);
        lemma_absorbed_distinct(p3, Family::V4, Protocol::TCP, t.tcp->Ok_0@, known, routes);
    }
}

/// Partial fallback success. If `udp6`, `tcp6` and `udp` cannot be read and
/// `tcp` can, the records are those of the listening lines of `tcp`, and the
/// three failures are the warnings; likewise for each other single table.
pub proof fn lemma_single_table(t: Tables, known: Set<u32>, routes: Seq<Route>)
    requires
        failures(t).len() == 3,
    ensures
        t.udp6 is Ok ==> sockets(t, known, routes) == absorbed(
            Seq::empty(),
            Family::V6,
            Protocol::UDP,
            t.udp6->Ok_0@,
            known,
            routes,
        ) && failures(t) == seq![t.tcp6->Err_0, t.udp->Err_0, t.tcp->Err_0],
        t.tcp6 is Ok ==> sockets(t, known, routes) == absorbed(
            Seq::empty(),
            Family::V6,
            Protocol::TCP,
            t.tcp6->Ok_0@,
            known,
            routes,
        ) && failures(t) == seq![t.udp6->Err_0, t.udp->Err_0, t.tcp->Err_0],
        t.udp is Ok ==> sockets(t, known, routes) == absorbed(
            Seq::empty(),
            Family::V4,
            Protocol::UDP,
            t.udp->Ok_0@,
            known,
            routes,
        ) && failures(t) == seq![t.udp6->Err_0, t.tcp6->Err_0, t.tcp->Err_0],
        t.tcp is Ok ==> sockets(t, known, routes) == absorbed(
            Seq::empty(),
            Family::V4,
            Protocol::TCP,
            t.tcp->Ok_0@,
            known,
            routes,
        ) && failures(t) == seq![t.udp6->Err_0, t.tcp6->Err_0, t.udp->Err_0],
        t.udp6 is Ok || t.tcp6 is Ok || t.udp is Ok || t.tcp is Ok,
{
    assert(failure(t.udp6).len() + failure(t.tcp6).len() + failure(t.udp).len() + failure(
        t.tcp,
    ).len() == 3);
    if t.udp6 is Ok {
        assert(failures(t) =~= seq![t.tcp6->Err_0, t.udp->Err_0, t.tcp->Err_0]);
    }
    if t.tcp6 is Ok {
        assert(failures(t) =~= seq![t.udp6->Err_0, t.udp->Err_0, t.tcp->Err_0]);
    }
    if t.udp is Ok {
        assert(failures(t) =~= seq![t.udp6->Err_0, t.tcp6->Err_0, t.tcp->Err_0]);
    }
    if t.tcp is Ok {
        assert(failures(t) =~= seq![t.udp6->Err_0, t.tcp6->Err_0, t.udp->Err_0]);
    }
}

/// `procfs::net::TcpNetEntry`: one line of a TCP connection table.
#[verifier::external_type_specification]
#[verifier::external_body]
pub struct ExTcpNetEntry(TcpNetEntry);

/// `procfs::net::UdpNetEntry`: one line of a UDP connection table.
#[verifier::external_type_specification]
#[verifier::external_body]
pub struct ExUdpNetEntry(UdpNetEntry);

/// What a line of a TCP table holds of what the discovery reads: the local
/// address and port, the remote port, `uid` and `inode` of the
/// `TcpNetEntry`; the address as the number that `u32::from` or
/// `u128::from` gives for it.
pub uninterp spec fn tcp_line(entry: TcpNetEntry) -> TableEntry;

/// What `TcpNetEntries::from_read` makes of the text of a TCP connection
/// table, with the system information of a host of the given byte order, on
/// which the addresses depend: what its lines hold, in order, or the
/// message of the failure.
pub uninterp spec fn tcp_parsed(text: Seq<u8>, big_endian: bool) -> Result<
    Seq<TableEntry>,
    Seq<char>,
>;

/// Parses the text of a TCP connection table, with
/// `TcpNetEntries::from_read` and the system information of this host, on
/// whose byte order the addresses depend; a failure comes back as its
/// message. The result is what the parser makes of the text on a host of
/// one byte order or the other.
#[verifier::external_body]
pub(crate) fn parse_tcp_table(text: &[u8]) -> (r: Result<Vec<TcpNetEntry>, String>)
    ensures
        exists|big_endian: bool|
            match r {
                Ok(entries) => #[trigger] tcp_parsed(text@, big_endian) == Ok::<
                    Seq<TableEntry>,
                    Seq<char>,
                >(entries@.map_values(|e: TcpNetEntry| tcp_line(e))),
                Err(message) => tcp_parsed(text@, big_endian) == Err::<Seq<TableEntry>, Seq<char>>(
                    message@,
                ),
            },
{
    match TcpNetEntries::from_read(text, procfs::current_system_info()) {
        Ok(entries) => Ok(entries.0),
        Err(e) => Err(format!("{}", e)),
    }
}

/// What a line of a UDP table holds of what the discovery reads: the local
/// address and port, the remote port, `uid` and `inode` of the
/// `UdpNetEntry`; the address as the number that `u32::from` or
/// `u128::from` gives for it.
pub uninterp spec fn udp_line(entry: UdpNetEntry) -> TableEntry;

/// What `UdpNetEntries::from_read` makes of the text of a UDP connection
/// table, with the system information of a host of the given byte order, on
/// which the addresses depend: what its lines hold, in order, or the
/// message of the failure.
pub uninterp spec fn udp_parsed(text: Seq<u8>, big_endian: bool) -> Result<
    Seq<TableEntry>,
    Seq<char>,
>;

/// Parses the text of a UDP connection table, with
/// `UdpNetEntries::from_read` and the system information of this host, on
/// whose byte order the addresses depend; a failure comes back as its
/// message. The result is what the parser makes of the text on a host of
/// one byte order or the other.
#[verifier::external_body]
pub(crate) fn parse_udp_table(text: &[u8]) -> (r: Result<Vec<UdpNetEntry>, String>)
    ensures
        exists|big_endian: bool|
            match r {
                Ok(entries) => #[trigger] udp_parsed(text@, big_endian) == Ok::<
                    Seq<TableEntry>,
                    Seq<char>,
                >(entries@.map_values(|e: UdpNetEntry| udp_line(e))),
                Err(message) => udp_parsed(text@, big_endian) == Err::<Seq<TableEntry>, Seq<char>>(
                    message@,
                ),
            },
{
    match UdpNetEntries::from_read(text, procfs::current_system_info()) {
        Ok(entries) => Ok(entries.0),
        Err(e) => Err(format!("{}", e)),
    }
}

/// The fields of a line of a TCP table that the discovery reads: the local
/// address and port, the remote port, `uid` and `inode`; the address as the
/// number that `u32::from` or `u128::from` gives for it.
#[verifier::external_body]
pub(crate) fn tcp_entry(entry: &TcpNetEntry) -> (r: TableEntry)
    ensures
        r == tcp_line(*entry),
{
    TableEntry {
        local_address: match entry.local_address.ip() {
            core::net::IpAddr::V4(a) => IpAddr::V4(u32::from(a)),
            core::net::IpAddr::V6(a) => IpAddr::V6(u128::from(a)),
        },
        local_port: entry.local_address.port(),
        remote_port: entry.remote_address.port(),
        uid: entry.uid,
        inode: entry.inode,
    }
}

/// The fields of a line of a UDP table that the discovery reads: the local
/// address and port, the remote port, `uid` and `inode`; the address as the
/// number that `u32::from` or `u128::from` gives for it.
#[verifier::external_body]
pub(crate) fn udp_entry(entry: &UdpNetEntry) -> (r: TableEntry)
    ensures
        r == udp_line(*entry),
{
    TableEntry {
        local_address: match entry.local_address.ip() {
            core::net::IpAddr::V4(a) => IpAddr::V4(u32::from(a)),
            core::net::IpAddr::V6(a) => IpAddr::V6(u128::from(a)),
        },
        local_port: entry.local_address.port(),
        remote_port: entry.remote_address.port(),
        uid: entry.uid,
        inode: entry.inode,
    }
}

/// What a parser makes of a text: the lines, or the message of the
/// failure, as plain values.
pub open spec fn table_view(table: Table) -> Result<Seq<TableEntry>, Seq<char>> {
    match table {
        Ok(lines) => Ok(lines@),
        Err(message) => Err(message@),
    }
}

/// The lines of a TCP connection table, given its text, or why it could not
/// be parsed: what the parser makes of the text on this host, whose byte
/// order decides how the addresses are read.
pub fn tcp_table(text: &[u8]) -> (r: Table)
    ensures
        exists|big_endian: bool| table_view(r) == #[trigger] tcp_parsed(text@, big_endian),
{
    match parse_tcp_table(text) {
        Ok(entries) => {
            let ghost order = choose|big_endian: bool|
                #[trigger] tcp_parsed(text@, big_endian) == Ok::<Seq<TableEntry>, Seq<char>>(
                    entries@.map_values(|e: TcpNetEntry| tcp_line(e)),
                );
            let mut out: Vec<TableEntry> = Vec::new();
            let mut i: usize = 0;
            assert(out@ =~= entries@.take(0).map_values(|e: TcpNetEntry| tcp_line(e)));
            while i < entries.len()
                invariant
                    i <= entries.len(),
                    out@ == entries@.take(i as int).map_values(|e: TcpNetEntry| tcp_line(e)),
                decreases entries.len() - i,
            {
                out.push(tcp_entry(&entries[i]));
                i = i + 1;
                assert(out@ =~= entries@.take(i as int).map_values(|e: TcpNetEntry| tcp_line(e)));
            }
            assert(entries@.take(entries.len() as int) =~= entries@);
            let r: Table = Ok(out);
            assert(table_view(r) == tcp_parsed(text@, order));
            r
        },
        Err(e) => {
            let ghost order = choose|big_endian: bool|
                #[trigger] tcp_parsed(text@, big_endian) == Err::<Seq<TableEntry>, Seq<char>>(e@);
            let r: Table = Err(e);
            assert(table_view(r) == tcp_parsed(text@, order));
            r
        },
    }
}

/// The lines of a UDP connection table, given its text, or why it could not
/// be parsed: what the parser makes of the text on this host, whose byte
/// order decides how the addresses are read.
pub fn udp_table(text: &[u8]) -> (r: Table)
    ensures
        exists|big_endian: bool| table_view(r) == #[trigger] udp_parsed(text@, big_endian),
{
    match parse_udp_table(text) {
        Ok(entries) => {
            let ghost order = choose|big_endian: bool|
                #[trigger] udp_parsed(text@, big_endian) == Ok::<Seq<TableEntry>, Seq<char>>(
                    entries@.map_values(|e: UdpNetEntry| udp_line(e)),
                );
            let mut out: Vec<TableEntry> = Vec::new();
            let mut i: usize = 0;
            assert(out@ =~= entries@.take(0).map_values(|e: UdpNetEntry| udp_line(e)));
            while i < entries.len()
                invariant
                    i <= entries.len(),
                    out@ == entries@.take(i as int).map_values(|e: UdpNetEntry| udp_line(e)),
                decreases entries.len() - i,
            {
                out.push(udp_entry(&entries[i]));
                i = i + 1;
                assert(out@ =~= entries@.take(i as int).map_values(|e: UdpNetEntry| udp_line(e)));
            }
            assert(entries@.take(entries.len() as int) =~= entries@);
            let r: Table = Ok(out);
            assert(table_view(r) == udp_parsed(text@, order));
            r
        },
        Err(e) => {
            let ghost order = choose|big_endian: bool|
                #[trigger] udp_parsed(text@, big_endian) == Err::<Seq<TableEntry>, Seq<char>>(e@);
            let r: Table = Err(e);
            assert(table_view(r) == udp_parsed(text@, order));
            r
        },
    }
}

} // verus!
