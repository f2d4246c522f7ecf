//! The two ways to read one state of the kernel, side by side: what the
//! connection tables give is among what the socket dumps give.

use vstd::prelude::*;
use crate::diag::{all_queries, with_report, with_reports};
use crate::fallback::{
    fallback_record, from_table, lemma_fallback_records, of_listening_line, sockets, Table,
    TableEntry, Tables,
};
use crate::query::Record;
use crate::registry::{find, inserted, lemma_find};
use crate::route::Route;
use crate::sock::{all_protocols, record_of, Family, InetRecord, Protocol, SockInfo};

verus! {

/// A socket as the kernel holds it: its family, its protocol and what the
/// kernel reports of it.
pub struct KernelSocket {
    pub family: Family,
    pub protocol: Protocol,
    pub report: InetRecord,
}

/// The state of the kernel is sound: every socket is of IPv4 or of IPv6,
/// and no two sockets have the same inode.
pub open spec fn sound(k: Seq<KernelSocket>) -> bool {
    &&& forall|i: int| 0 <= i < k.len() ==> (#[trigger] k[i]).family != Family::Both
    &&& forall|i: int, j: int|
        0 <= i < j < k.len() ==> (#[trigger] k[i]).report.inode != (#[trigger] k[j]).report.inode
}

/// The line of a connection table that shows a socket.
pub open spec fn line_of(s: KernelSocket) -> TableEntry {
    TableEntry {
        local_address: s.report.source_address,
        local_port: s.report.source_port,
        remote_port: s.report.destination_port,
        uid: s.report.uid,
        inode: s.report.inode as u64,
    }
}

/// The lines of the connection table of one family and protocol: one for
/// each socket of that family and protocol, in order.
pub open spec fn table_of(k: Seq<KernelSocket>, family: Family, protocol: Protocol) -> Seq<
    TableEntry,
>
    decreases k.len(),
{
    if k.len() == 0 {
        Seq::empty()
    } else if k.last().family == family && k.last().protocol == protocol {
        table_of(k.drop_last(), family, protocol).push(line_of(k.last()))
    } else {
        table_of(k.drop_last(), family, protocol)
    }
}

/// The records of the socket dump for one family and protocol: one for
/// each socket of that family and protocol, in order.
pub open spec fn dump_of(k: Seq<KernelSocket>, family: Family, protocol: Protocol) -> Seq<Record>
    decreases k.len(),
{
    if k.len() == 0 {
        Seq::empty()
    } else if k.last().family == family && k.last().protocol == protocol {
        dump_of(k.drop_last(), family, protocol).push(Record::Inet(k.last().report))
    } else {
        dump_of(k.drop_last(), family, protocol)
    }
}

/// The tables show the state of the kernel: all four can be read, and each
/// holds the lines of its family and protocol.
pub open spec fn shows(t: Tables, k: Seq<KernelSocket>) -> bool {
    &&& t.udp6 matches Ok(lines) && lines@ == table_of(k, Family::V6, Protocol::UDP)
    &&& t.tcp6 matches Ok(lines) && lines@ == table_of(k, Family::V6, Protocol::TCP)
    &&& t.udp matches Ok(lines) && lines@ == table_of(k, Family::V4, Protocol::UDP)
    &&& t.tcp matches Ok(lines) && lines@ == table_of(k, Family::V4, Protocol::TCP)
}

/// The pool after the socket dumps of the first `n` queries went in.
pub open spec fn dumped(k: Seq<KernelSocket>, known: Set<u32>, routes: Seq<Route>, n: nat) -> Seq<
    SockInfo,
>
    decreases n,
{
    if n == 0 || n > all_queries().len() {
        Seq::empty()
    } else {
        let query = all_queries()[n - 1];
        with_reports(
            dumped(k, known, routes, (n - 1) as nat),
            query.0,
            query.1,
            dump_of(k, query.0, query.1),
            known,
            routes,
        )
    }
}

/// The record that the socket dumps give of a socket.
pub open spec fn dumped_record(s: KernelSocket, known: Set<u32>, routes: Seq<Route>) -> SockInfo {
    record_of(s.family, s.protocol, s.report, known, routes)
}

/// Every record of the pool is the record of a socket of the kernel.
pub open spec fn genuine(
    pool: Seq<SockInfo>,
    k: Seq<KernelSocket>,
    known: Set<u32>,
    routes: Seq<Route>,
) -> bool {
    forall|i: int| 0 <= i < pool.len() ==> is_record(k, known, routes, #[trigger] pool[i])
}

/// `r` is the record of a socket of the kernel.
pub open spec fn is_record(k: Seq<KernelSocket>, known: Set<u32>, routes: Seq<Route>, r: SockInfo)
    -> bool {
    exists|j: int| 0 <= j < k.len() && r == dumped_record(#[trigger] k[j], known, routes)
}

/// The record reports a listening socket with inode `x`.
pub open spec fn reports_listening(record: Record, x: u64) -> bool {
    match record {
        Record::Inet(ir) => ir.destination_port == 0 && ir.inode as u64 == x,
        _ => false,
    }
}

/// The pool holds a record with inode `x`.
pub open spec fn has_inode(pool: Seq<SockInfo>, x: u64) -> bool {
    exists|i: int| 0 <= i < pool.len() && (#[trigger] pool[i]).ino == x
}

/// A record that goes into a pool is in it afterwards, and the inodes that
/// the pool held stay in it.
proof fn lemma_inserted_inodes(pool: Seq<SockInfo>, s: SockInfo, x: u64)
    ensures
        has_inode(inserted(pool, s), s.ino),
        has_inode(pool, x) ==> has_inode(inserted(pool, s), x),
{
    lemma_find(pool, s.ino);
    let after = inserted(pool, s);
    match find(pool, s.ino) {
        Some(i) => {
            assert(after[i].ino == s.ino);
            if has_inode(pool, x) {
                let m = choose|m: int| 0 <= m < pool.len() && (#[trigger] pool[m]).ino == x;
                assert(after[m].ino == x);
            }
        },
        None => {
            assert(after[pool.len() as int].ino == s.ino);
            if has_inode(pool, x) {
                let m = choose|m: int| 0 <= m < pool.len() && (#[trigger] pool[m]).ino == x;
                assert(after[m].ino == x);
            }
        },
    }
}

/// A record of a socket that goes into a genuine pool leaves it genuine.
proof fn lemma_inserted_genuine(
    pool: Seq<SockInfo>,
    s: SockInfo,
    k: Seq<KernelSocket>,
    known: Set<u32>,
    routes: Seq<Route>,
)
    requires
        genuine(pool, k, known, routes),
        is_record(k, known, routes, s),
    ensures
        genuine(inserted(pool, s), k, known, routes),
{
    lemma_find(pool, s.ino);
    let after = inserted(pool, s);
    assert forall|i: int| 0 <= i < after.len() implies is_record(
        k,
        known,
        routes,
        #[trigger] after[i],
    ) by {
        if i < pool.len() && after[i] != s {
            assert(after[i] == pool[i]);
        }
    }
}

/// Every record of the dump for a family and protocol reports a socket of
/// that family and protocol, and every such socket is reported.
proof fn lemma_dump_of(k: Seq<KernelSocket>, family: Family, protocol: Protocol)
    ensures
        forall|m: int|
            0 <= m < dump_of(k, family, protocol).len() ==> exists|j: int|
                0 <= j < k.len() && (#[trigger] k[j]).family == family && k[j].protocol == protocol
                    && #[trigger] dump_of(k, family, protocol)[m] == Record::Inet(k[j].report),
        forall|j: int|
            0 <= j < k.len() && (#[trigger] k[j]).family == family && k[j].protocol == protocol
                ==> dump_of(k, family, protocol).contains(Record::Inet(k[j].report)),
    decreases k.len(),
{
    if k.len() > 0 {
        let earlier = k.drop_last();
        let before = dump_of(earlier, family, protocol);
        let all = dump_of(k, family, protocol);
        lemma_dump_of(earlier, family, protocol);
        assert forall|m: int| 0 <= m < all.len() implies exists|j: int|
            0 <= j < k.len() && (#[trigger] k[j]).family == family && k[j].protocol == protocol
                && #[trigger] all[m] == Record::Inet(k[j].report) by {
            if m < before.len() {
                let j = choose|j: int|
                    0 <= j < earlier.len() && (#[trigger] earlier[j]).family == family
                        && earlier[j].protocol == protocol && #[trigger] before[m] == Record::Inet(
                        earlier[j].report,
                    );
                assert(k[j] == earlier[j]);
                assert(all[m] == before[m]);
            } else {
                assert(k[k.len() - 1] == k.last());
            }
        }
        assert forall|j: int|
            0 <= j < k.len() && (#[trigger] k[j]).family == family && k[j].protocol
                == protocol implies all.contains(Record::Inet(k[j].report)) by {
            if j < k.len() - 1 {
                assert(earlier[j] == k[j]);
                assert(before.contains(Record::Inet(earlier[j].report)));
                let m = choose|m: int|
                    0 <= m < before.len() && before[m] == Record::Inet(earlier[j].report);
                assert(all[m] == before[m]);
            } else {
                assert(all[all.len() - 1] == Record::Inet(k[j].report));
            }
        }
    }
}

/// Every line of the table of a family and protocol shows a socket of that
/// family and protocol.
proof fn lemma_table_of(k: Seq<KernelSocket>, family: Family, protocol: Protocol)
    ensures
        forall|m: int|
            0 <= m < table_of(k, family, protocol).len() ==> exists|j: int|
                0 <= j < k.len() && (#[trigger] k[j]).family == family && k[j].protocol == protocol
                    && #[trigger] table_of(k, family, protocol)[m] == line_of(k[j]),
    decreases k.len(),
{
    if k.len() > 0 {
        let earlier = k.drop_last();
        let before = table_of(earlier, family, protocol);
        let all = table_of(k, family, protocol);
        lemma_table_of(earlier, family, protocol);
        assert forall|m: int| 0 <= m < all.len() implies exists|j: int|
            0 <= j < k.len() && (#[trigger] k[j]).family == family && k[j].protocol == protocol
                && #[trigger] all[m] == line_of(k[j]) by {
            if m < before.len() {
                let j = choose|j: int|
                    0 <= j < earlier.len() && (#[trigger] earlier[j]).family == family
                        && earlier[j].protocol == protocol && #[trigger] before[m] == line_of(
                        earlier[j],
                    );
                assert(k[j] == earlier[j]);
                assert(all[m] == before[m]);
            } else {
                assert(k[k.len() - 1] == k.last());
            }
        }
    }
}

/// The records of a dump that report sockets of the kernel leave a genuine
/// pool genuine and keep its inodes; the inode of every listening socket
/// that they report is in the pool afterwards.
proof fn lemma_with_reports(
    pool: Seq<SockInfo>,
    family: Family,
    protocol: Protocol,
    records: Seq<Record>,
    k: Seq<KernelSocket>,
    known: Set<u32>,
    routes: Seq<Route>,
    x: u64,
)
    requires
        genuine(pool, k, known, routes),
        forall|m: int|
            0 <= m < records.len() ==> exists|j: int|
                0 <= j < k.len() && (#[trigger] k[j]).family == family && k[j].protocol == protocol
                    && #[trigger] records[m] == Record::Inet(k[j].report),
    ensures
        genuine(with_reports(pool, family, protocol, records, known, routes), k, known, routes),
        has_inode(pool, x) ==> has_inode(
            with_reports(pool, family, protocol, records, known, routes),
            x,
        ),
        (exists|m: int|
            0 <= m < records.len() && reports_listening(#[trigger] records[m], x)) ==> has_inode(
            with_reports(pool, family, protocol, records, known, routes),
            x,
        ),
    decreases records.len(),
{
    if records.len() > 0 {
        let earlier = records.drop_last();
        assert forall|m: int| 0 <= m < earlier.len() implies exists|j: int|
            0 <= j < k.len() && (#[trigger] k[j]).family == family && k[j].protocol == protocol
                && #[trigger] earlier[m] == Record::Inet(k[j].report) by {
            assert(earlier[m] == records[m]);
            let j = choose|j: int|
                0 <= j < k.len() && (#[trigger] k[j]).family == family && k[j].protocol == protocol
                    && #[trigger] records[m] == Record::Inet(k[j].report);
            assert(earlier[m] == Record::Inet(k[j].report));
        }
        lemma_with_reports(pool, family, protocol, earlier, k, known, routes, x);
        let before = with_reports(pool, family, protocol, earlier, known, routes);
        let last = records[records.len() - 1];
        assert(last == records.last());
        let j = choose|j: int|
            0 <= j < k.len() && (#[trigger] k[j]).family == family && k[j].protocol == protocol
                && #[trigger] records[records.len() - 1] == Record::Inet(k[j].report);
        let ir = k[j].report;
        let s = record_of(family, protocol, ir, known, routes);
        assert(s == dumped_record(k[j], known, routes));
        assert(is_record(k, known, routes, s));
        if ir.destination_port == 0 {
            lemma_inserted_genuine(before, s, k, known, routes);
            lemma_inserted_inodes(before, s, x);
        }
        if exists|m: int|
            0 <= m < records.len() && reports_listening(#[trigger] records[m], x) {
            let m = choose|m: int|
                0 <= m < records.len() && reports_listening(#[trigger] records[m], x);
            if m < earlier.len() {
                assert(earlier[m] == records[m]);
            }
        }
    }
}

/// The pool after any number of dumps is genuine, and holds the inode of
/// every listening socket whose query is among them.
proof fn lemma_dumped(
    k: Seq<KernelSocket>,
    known: Set<u32>,
    routes: Seq<Route>,
    n: nat,
    j: int,
    q: int,
)
    requires
        n <= all_queries().len(),
        0 <= j < k.len(),
        0 <= q < all_queries().len(),
        all_queries()[q] == (k[j].family, k[j].protocol),
        k[j].report.destination_port == 0,
    ensures
        genuine(dumped(k, known, routes, n), k, known, routes),
        q < n ==> has_inode(dumped(k, known, routes, n), k[j].report.inode as u64),
    decreases n,
{
    if n > 0 {
        lemma_dumped(k, known, routes, (n - 1) as nat, j, q);
        let query = all_queries()[n - 1];
        lemma_dump_of(k, query.0, query.1);
        let dump = dump_of(k, query.0, query.1);
        let x = k[j].report.inode as u64;
        lemma_with_reports(
            dumped(k, known, routes, (n - 1) as nat),
            query.0,
            query.1,
            dump,
            k,
            known,
            routes,
            x,
        );
        if q == n - 1 {
            assert(dump.contains(Record::Inet(k[j].report)));
            let m = choose|m: int| 0 <= m < dump.len() && dump[m] == Record::Inet(k[j].report);
            assert(reports_listening(dump[m], x));
        }
    }
}

/// Every pair of IPv4 or IPv6 with a protocol is among the queries.
proof fn lemma_query_exists(family: Family, protocol: Protocol)
    requires
        family != Family::Both,
    ensures
        exists|q: int| 0 <= q < all_queries().len() && #[trigger] all_queries()[q] == (family, protocol),
{
    let base: int = if family == Family::V4 {
        0
    } else {
        6
    };
    let q = base + protocol.spec_rank() as int;
    assert(all_protocols()[protocol.spec_rank() as int] == protocol);
    assert(all_queries()[q] == (family, protocol));
}

/// Fallback equivalence over one state of the kernel. If the state is
/// sound and the four tables show it, then for every record that the
/// fallback gives, the socket dumps of the same state give a record of the
/// same port, address and protocol; it is the record of the same socket,
/// with its inode and user.
pub proof fn lemma_fallback_within_dumps(
    k: Seq<KernelSocket>,
    t: Tables,
    known: Set<u32>,
    routes: Seq<Route>,
)
    requires
        sound(k),
        shows(t, k),
    ensures
        forall|a: int|
            0 <= a < sockets(t, known, routes).len() ==> found_in(
                dumped(k, known, routes, 12),
                #[trigger] sockets(t, known, routes)[a],
            ),
{
    lemma_fallback_records(t, known, routes);
    let from_tables = sockets(t, known, routes);
    let from_dumps = dumped(k, known, routes, 12);
    assert forall|a: int| 0 <= a < from_tables.len() implies found_in(
        from_dumps,
        #[trigger] from_tables[a],
    ) by {
        let f = from_tables[a];
        assert(of_listening_line(t, known, routes, f));
        let (family, protocol, table): (Family, Protocol, Table) = if from_table(
            Family::V6,
            Protocol::UDP,
            t.udp6,
            known,
            routes,
            f,
        ) {
            (Family::V6, Protocol::UDP, t.udp6)
        } else if from_table(Family::V6, Protocol::TCP, t.tcp6, known, routes, f) {
            (Family::V6, Protocol::TCP, t.tcp6)
        } else if from_table(Family::V4, Protocol::UDP, t.udp, known, routes, f) {
            (Family::V4, Protocol::UDP, t.udp)
        } else {
            (Family::V4, Protocol::TCP, t.tcp)
        };
        assert(from_table(family, protocol, table, known, routes, f));
        let lines = table->Ok_0@;
        assert(lines == table_of(k, family, protocol));
        let i = choose|i: int|
            0 <= i < lines.len() && (#[trigger] lines[i]).remote_port == 0 && f == fallback_record(
                family,
                protocol,
                lines[i],
                known,
                routes,
            );
        lemma_table_of(k, family, protocol);
        let j = choose|j: int|
            0 <= j < k.len() && (#[trigger] k[j]).family == family && k[j].protocol == protocol
                && #[trigger] table_of(k, family, protocol)[i] == line_of(k[j]);
        lemma_query_exists(family, protocol);
        let q = choose|q: int|
            0 <= q < all_queries().len() && #[trigger] all_queries()[q] == (family, protocol);
        lemma_dumped(k, known, routes, 12, j, q);
        let x = k[j].report.inode as u64;
        assert(has_inode(from_dumps, x));
        let b = choose|b: int| 0 <= b < from_dumps.len() && (#[trigger] from_dumps[b]).ino == x;
        assert(is_record(k, known, routes, from_dumps[b]));
        let j2 = choose|j2: int|
            0 <= j2 < k.len() && from_dumps[b] == dumped_record(#[trigger] k[j2], known, routes);
        assert(k[j2].report.inode as u64 == x);
        if j2 != j {
            if j2 < j {
                assert(k[j2].report.inode != k[j].report.inode);
            } else {
                assert(k[j].report.inode != k[j2].report.inode);
            }
        }
        assert(matching(f, from_dumps[b]));
    }
}

/// The pool holds a record that shows the same socket as `f`.
pub open spec fn found_in(pool: Seq<SockInfo>, f: SockInfo) -> bool {
    exists|b: int| 0 <= b < pool.len() && matching(f, #[trigger] pool[b])
}

/// Two records show the same socket: they agree in port, address,
/// protocol, inode and user.
pub open spec fn matching(f: SockInfo, n: SockInfo) -> bool {
    f.port == n.port && f.addr == n.addr && f.protocol == n.protocol && f.ino == n.ino && f.uid
        == n.uid
}

} // verus!
