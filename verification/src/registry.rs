//! The pool of socket records: claiming by inode, and the records that
//! belong to tunnel interfaces.

use vstd::prelude::*;
use crate::sock::{Ino, SockInfo};
use crate::tunnel::{owner_of, TunnelPort, TunnelPorts};

verus! {

/// The place of the record with inode `ino` in `s`; of several, the last.
pub open spec fn find(s: Seq<SockInfo>, ino: Ino) -> Option<int>
    decreases s.len(),
{
    if s.len() == 0 {
        None
    } else if s.last().ino == ino {
        Some(s.len() - 1)
    } else {
        find(s.drop_last(), ino)
    }
}

/// No two records of `s` have the same inode.
pub open spec fn distinct_inodes(s: Seq<SockInfo>) -> bool {
    forall|i: int, j: int| 0 <= i < j < s.len() ==> s[i].ino != s[j].ino
}

/// What `find` finds has the inode asked for, and no later record has it;
/// it finds nothing only if no record has it.
pub proof fn lemma_find(s: Seq<SockInfo>, ino: Ino)
    ensures
        match find(s, ino) {
            Some(i) => 0 <= i < s.len() && s[i].ino == ino && forall|j: int|
                i < j < s.len() ==> (#[trigger] s[j]).ino != ino,
            None => forall|j: int| 0 <= j < s.len() ==> (#[trigger] s[j]).ino != ino,
        },
    decreases s.len(),
{
    if s.len() > 0 && s.last().ino != ino {
        lemma_find(s.drop_last(), ino);
        match find(s, ino) {
            Some(i) => {
                assert(s.drop_last()[i] == s[i]);
                assert forall|j: int| i < j < s.len() implies (#[trigger] s[j]).ino != ino by {
                    if j < s.len() - 1 {
                        assert(s.drop_last()[j] == s[j]);
                    }
                }
            },
            None => {
                assert forall|j: int| 0 <= j < s.len() implies (#[trigger] s[j]).ino != ino by {
                    if j < s.len() - 1 {
                        assert(s.drop_last()[j] == s[j]);
                    }
                }
            },
        }
    }
}

/// The pool after record `s` went in: it replaces the record of its inode,
/// or comes last.
pub open spec fn inserted(pool: Seq<SockInfo>, s: SockInfo) -> Seq<SockInfo> {
    match find(pool, s.ino) {
        Some(i) => pool.update(i, s),
        None => pool.push(s),
    }
}

/// The listening sockets that nobody has claimed yet, by inode.
pub struct SocketPool {
    records: Vec<SockInfo>,
}

impl View for SocketPool {
    type V = Seq<SockInfo>;

    closed spec fn view(&self) -> Seq<SockInfo> {
        self.records@
    }
}

impl SocketPool {
    /// The empty pool.
    pub fn new() -> (p: SocketPool)
        ensures
            p@ == Seq::<SockInfo>::empty(),
    {
        SocketPool { records: Vec::new() }
    }

    /// The place of the record with inode `ino`.
    pub fn position(&self, ino: Ino) -> (r: Option<usize>)
        ensures
            match r {
                Some(i) => find(self@, ino) == Some(i as int),
                None => find(self@, ino) is None,
            },
    {
        let mut i: usize = self.records.len();
        assert(self.records@.take(i as int) =~= self.records@);
        while i > 0
            invariant
                i <= self.records.len(),
                find(self.records@, ino) == find(self.records@.take(i as int), ino),
            decreases i,
        {
            i = i - 1;
            assert(self.records@.take(i + 1).last() == self.records@[i as int]);
            assert(self.records@.take(i + 1).drop_last() =~= self.records@.take(i as int));
            if self.records[i].ino == ino {
                return Some(i);
            }
        }
        None
    }

    /// Puts a record into the pool. A record with the same inode is replaced.
    pub fn insert(&mut self, s: SockInfo)
        ensures
            final(self)@ == inserted(old(self)@, s),
    {
        proof {
            lemma_find(self@, s.ino);
        }
        match self.position(s.ino) {
            Some(i) => {
                self.records.set(i, s);
            },
            None => {
                self.records.push(s);
            },
        }
    }

    /// Takes the record with inode `ino` out of the pool, for the one
    /// consumer that claims it.
    pub fn remove(&mut self, ino: Ino) -> (r: Option<SockInfo>)
        ensures
            match find(old(self)@, ino) {
                Some(i) => r == Some(old(self)@[i]) && final(self)@ == old(self)@.remove(i),
                None => r is None && final(self)@ == old(self)@,
            },
    {
        proof {
            lemma_find(self@, ino);
        }
        match self.position(ino) {
            Some(i) => Some(self.records.remove(i)),
            None => None,
        }
    }

    /// The record with inode `ino`.
    pub fn get(&self, ino: Ino) -> (r: Option<SockInfo>)
        ensures
            r == (match find(self@, ino) {
                Some(i) => Some(self@[i]),
                None => None,
            }),
    {
        proof {
            lemma_find(self@, ino);
        }
        match self.position(ino) {
            Some(i) => Some(self.records[i]),
            None => None,
        }
    }

    /// Number of records in the pool.
    pub fn len(&self) -> (n: usize)
        ensures
            n == self@.len(),
    {
        self.records.len()
    }

    /// The records in the order in which their inodes first came in.
    pub fn records(&self) -> (r: Vec<SockInfo>)
        ensures
            r@ == self@,
    {
        self.records.clone()
    }
}

/// Inserting into a pool of distinct inodes leaves the inodes distinct.
pub proof fn lemma_insert_keeps_distinct(s: Seq<SockInfo>, x: SockInfo)
    requires
        distinct_inodes(s),
    ensures
        distinct_inodes(inserted(s, x)),
{
    lemma_find(s, x.ino);
}

/// A record can be claimed once: after it was taken out of a pool of
/// distinct inodes, its inode is not found again.
pub proof fn lemma_claim_once(s: Seq<SockInfo>, ino: Ino)
    requires
        distinct_inodes(s),
        find(s, ino) is Some,
    ensures
        find(s.remove(find(s, ino)->0), ino) is None,
        distinct_inodes(s.remove(find(s, ino)->0)),
{
    lemma_find(s, ino);
    let i = find(s, ino)->0;
    let t = s.remove(i);
    lemma_find(t, ino);
    if find(t, ino) is Some {
        let j = find(t, ino)->0;
        if j < i {
            assert(t[j] == s[j]);
        } else {
            assert(t[j] == s[j + 1]);
        }
    }
}

/// The records of `records` whose key in `keys` is `k`, in order. The two
/// sequences run side by side.
pub open spec fn members(records: Seq<SockInfo>, keys: Seq<Option<u32>>, k: Option<u32>) -> Seq<
    SockInfo,
>
    decreases records.len(),
{
    if records.len() == 0 || keys.len() != records.len() {
        Seq::empty()
    } else {
        let before = members(records.drop_last(), keys.drop_last(), k);
        if keys.last() == k {
            before.push(records.last())
        } else {
            before
        }
    }
}

/// The first place at which the key `k` stands in `keys`; their number if
/// it stands nowhere.
pub open spec fn first_place(keys: Seq<Option<u32>>, k: Option<u32>) -> int
    decreases keys.len(),
{
    if keys.len() == 0 {
        0
    } else if keys[0] == k {
        0
    } else {
        1 + first_place(keys.drop_first(), k)
    }
}

/// The first place of a key is the place that holds it and has no place
/// before it that holds it.
pub proof fn lemma_first_place(keys: Seq<Option<u32>>, k: Option<u32>, j: int)
    requires
        0 <= j < keys.len(),
        keys[j] == k,
        forall|m: int| 0 <= m < j ==> keys[m] != k,
    ensures
        first_place(keys, k) == j,
    decreases keys.len(),
{
    if j > 0 {
        let t = keys.drop_first();
        assert(t[j - 1] == keys[j]);
        assert forall|m: int| 0 <= m < j - 1 implies t[m] != k by {
            assert(t[m] == keys[m + 1]);
        }
        lemma_first_place(t, k, j - 1);
    }
}

/// The records that share one key.
pub struct Group {
    pub key: u32,
    pub sockets: Vec<SockInfo>,
}

/// `groups` sorts the keyed records by key: each group holds the records of
/// its key, in order, and is not empty; no key has two groups; every key
/// that has members has a group; and the groups stand in the order in which
/// their keys first occur.
pub open spec fn grouped(records: Seq<SockInfo>, keys: Seq<Option<u32>>, groups: Seq<Group>)
    -> bool {
    &&& forall|g: int|
        0 <= g < groups.len() ==> (#[trigger] groups[g]).sockets@ == members(
            records,
            keys,
            Some(groups[g].key),
        ) && groups[g].sockets@.len() > 0
    &&& forall|g: int, h: int|
        0 <= g < h < groups.len() ==> (#[trigger] groups[g]).key != (#[trigger] groups[h]).key
    &&& forall|k: u32|
        (#[trigger] members(records, keys, Some(k))).len() > 0 ==> has_group(groups, k)
    &&& forall|g: int, h: int|
        0 <= g < h < groups.len() ==> first_place(keys, Some((#[trigger] groups[g]).key))
            < first_place(keys, Some((#[trigger] groups[h]).key))
}

/// Some group of `groups` has the key `k`.
pub open spec fn has_group(groups: Seq<Group>, k: u32) -> bool {
    exists|g: int| 0 <= g < groups.len() && (#[trigger] groups[g]).key == k
}

/// One more record: the members of a key grow by it if it has the key.
proof fn lemma_members_step(records: Seq<SockInfo>, keys: Seq<Option<u32>>, k: Option<u32>, i: int)
    requires
        records.len() == keys.len(),
        0 <= i < records.len(),
    ensures
        members(records.take(i + 1), keys.take(i + 1), k) == if keys[i] == k {
            members(records.take(i), keys.take(i), k).push(records[i])
        } else {
            members(records.take(i), keys.take(i), k)
        },
{
    assert(records.take(i + 1).drop_last() =~= records.take(i));
    assert(keys.take(i + 1).drop_last() =~= keys.take(i));
}

/// A key has members exactly if some record has the key.
pub proof fn lemma_members_nonempty(records: Seq<SockInfo>, keys: Seq<Option<u32>>, k: Option<u32>)
    requires
        records.len() == keys.len(),
    ensures
        members(records, keys, k).len() > 0 <==> exists|j: int|
            0 <= j < keys.len() && #[trigger] keys[j] == k,
    decreases records.len(),
{
    if records.len() > 0 {
        lemma_members_nonempty(records.drop_last(), keys.drop_last(), k);
        if keys.last() != k {
            if members(records, keys, k).len() > 0 {
                let j = choose|j: int|
                    0 <= j < keys.drop_last().len() && #[trigger] keys.drop_last()[j] == k;
                assert(keys[j] == k);
            }
            if exists|j: int| 0 <= j < keys.len() && #[trigger] keys[j] == k {
                let j = choose|j: int| 0 <= j < keys.len() && #[trigger] keys[j] == k;
                assert(keys.drop_last()[j] == k);
            }
        } else {
            assert(keys[keys.len() - 1] == k);
        }
    }
}

/// The records whose key is `k`, in order. Keys that do not run side by
/// side with the records key nothing.
pub fn collect(records: &Vec<SockInfo>, keys: &Vec<Option<u32>>, k: Option<u32>) -> (r: Vec<
    SockInfo,
>)
    ensures
        r@ == members(records@, keys@, k),
{
    let mut out: Vec<SockInfo> = Vec::new();
    if records.len() != keys.len() {
        return out;
    }
    let mut i: usize = 0;
    assert(records@.take(0) =~= Seq::<SockInfo>::empty());
    while i < records.len()
        invariant
            i <= records.len(),
            records.len() == keys.len(),
            out@ == members(records@.take(i as int), keys@.take(i as int), k),
        decreases records.len() - i,
    {
        proof {
            lemma_members_step(records@, keys@, k, i as int);
        }
        let same = match (keys[i], k) {
            (Some(a), Some(b)) => a == b,
            (None, None) => true,
            _ => false,
        };
        if same {
            out.push(records[i]);
        }
        i = i + 1;
    }
    assert(records@.take(records.len() as int) =~= records@);
    assert(keys@.take(keys.len() as int) =~= keys@);
    out
}

/// The keys that occur, each once, in the order in which they first occur.
pub fn distinct_keys(keys: &Vec<Option<u32>>) -> (r: Vec<u32>)
    ensures
        forall|g: int, h: int| 0 <= g < h < r.len() ==> r[g] != r[h],
        forall|g: int| 0 <= g < r.len() ==> keys@.contains(Some(#[trigger] r[g])),
        forall|j: int|
            0 <= j < keys.len() && (#[trigger] keys[j]) is Some ==> r@.contains(keys[j]->0),
        forall|g: int, h: int|
            0 <= g < h < r.len() ==> first_place(keys@, Some(#[trigger] r[g])) < first_place(
                keys@,
                Some(#[trigger] r[h]),
            ),
{
    let mut out: Vec<u32> = Vec::new();
    let mut i: usize = 0;
    while i < keys.len()
        invariant
            i <= keys.len(),
            forall|g: int, h: int| 0 <= g < h < out.len() ==> out[g] != out[h],
            forall|g: int| 0 <= g < out.len() ==> keys@.contains(Some(#[trigger] out[g])),
            forall|j: int| 0 <= j < i && (#[trigger] keys[j]) is Some ==> out@.contains(keys[j]->0),
            forall|g: int|
                0 <= g < out.len() ==> first_place(keys@, Some(#[trigger] out[g])) < i,
            forall|g: int, h: int|
                0 <= g < h < out.len() ==> first_place(keys@, Some(#[trigger] out[g]))
                    < first_place(keys@, Some(#[trigger] out[h])),
        decreases keys.len() - i,
    {
        match keys[i] {
            Some(k) => {
                let mut seen = false;
                let mut g: usize = 0;
                while g < out.len()
                    invariant
                        g <= out.len(),
                        seen <==> exists|h: int| 0 <= h < g && out[h] == k,
                    decreases out.len() - g,
                {
                    if out[g] == k {
                        seen = true;
                    }
                    g = g + 1;
                }
                if !seen {
                    let ghost before = out@;
                    proof {
                        assert forall|m: int| 0 <= m < i implies keys@[m] != Some(k) by {
                            if keys@[m] == Some(k) {
                                assert(before.contains(keys@[m]->0));
                                let h = choose|h: int| 0 <= h < before.len() && before[h] == k;
                                assert(out[h] == k);
                            }
                        }
                        lemma_first_place(keys@, Some(k), i as int);
                    }
                    out.push(k);
                    assert(keys@[i as int] == Some(k));
                    assert(out@[out.len() - 1] == k);
                    assert forall|j: int|
                        0 <= j < i + 1 && (#[trigger] keys[j]) is Some implies out@.contains(
                        keys[j]->0,
                    ) by {
                        if j < i {
                            let h = choose|h: int| 0 <= h < before.len() && before[h] == keys[j]->0;
                            assert(out@[h] == keys[j]->0);
                        }
                    }
                    assert forall|g: int, h: int| 0 <= g < h < out.len() implies first_place(
                        keys@,
                        Some(#[trigger] out[g]),
                    ) < first_place(keys@, Some(#[trigger] out[h])) by {
                        assert(out[g] == before[g]);
                        if h < before.len() {
                            assert(out[h] == before[h]);
                        }
                    }
                    assert forall|g: int| 0 <= g < out.len() implies first_place(
                        keys@,
                        Some(#[trigger] out[g]),
                    ) < i + 1 by {
                        if g < before.len() {
                            assert(out[g] == before[g]);
                        }
                    }
                } else {
                    let ghost h = choose|h: int| 0 <= h < out.len() && out[h] == k;
                    assert(out@[h] == k);
                }
            },
            None => {},
        }
        i = i + 1;
    }
    out
}

/// Sorts keyed records by key. The records without a key come back first,
/// in order; the others come back as one group for each key, the groups in
/// the order in which their keys first occur.
pub fn partition(records: &Vec<SockInfo>, keys: &Vec<Option<u32>>) -> (r: (
    Vec<SockInfo>,
    Vec<Group>,
))
    ensures
        r.0@ == members(records@, keys@, None),
        grouped(records@, keys@, r.1@),
{
    let rest = collect(records, keys, None);
    let mut groups: Vec<Group> = Vec::new();
    if records.len() != keys.len() {
        return (rest, groups);
    }
    let ks = distinct_keys(keys);
    let mut g: usize = 0;
    while g < ks.len()
        invariant
            g <= ks.len(),
            groups.len() == g,
            records.len() == keys.len(),
            forall|a: int, b: int| 0 <= a < b < ks.len() ==> ks[a] != ks[b],
            forall|a: int| 0 <= a < ks.len() ==> keys@.contains(Some(#[trigger] ks[a])),
            forall|a: int, b: int|
                0 <= a < b < ks.len() ==> first_place(keys@, Some(#[trigger] ks[a])) < first_place(
                    keys@,
                    Some(#[trigger] ks[b]),
                ),
            forall|a: int|
                0 <= a < g ==> (#[trigger] groups[a]).key == ks[a] && groups[a].sockets@
                    == members(records@, keys@, Some(ks[a])) && groups[a].sockets@.len() > 0,
        decreases ks.len() - g,
    {
        let sockets = collect(records, keys, Some(ks[g]));
        proof {
            lemma_members_nonempty(records@, keys@, Some(ks[g as int]));
            let j = choose|j: int| 0 <= j < keys@.len() && keys@[j] == Some(ks[g as int]);
            assert(keys@[j] == Some(ks[g as int]));
        }
        groups.push(Group { key: ks[g], sockets });
        g = g + 1;
    }
    proof {
        assert forall|k: u32| (#[trigger] members(records@, keys@, Some(k))).len() > 0 implies has_group(
            groups@,
            k,
        ) by {
            lemma_members_nonempty(records@, keys@, Some(k));
            let j = choose|j: int| 0 <= j < keys@.len() && #[trigger] keys@[j] == Some(k);
            assert(ks@.contains(keys@[j]->0));
            let a = choose|a: int| 0 <= a < ks.len() && ks[a] == k;
            assert(groups[a].key == k);
        }
    }
    (rest, groups)
}

/// Some record of `records` equals `x` and has the key `k`.
pub open spec fn keyed(records: Seq<SockInfo>, keys: Seq<Option<u32>>, k: Option<u32>, x: SockInfo)
    -> bool {
    exists|j: int| 0 <= j < records.len() && #[trigger] keys[j] == k && records[j] == x
}

/// Every member of a key is a record that has the key, and every record
/// that has the key is among its members.
pub proof fn lemma_members(records: Seq<SockInfo>, keys: Seq<Option<u32>>, k: Option<u32>)
    requires
        records.len() == keys.len(),
    ensures
        forall|m: int|
            0 <= m < members(records, keys, k).len() ==> keyed(
                records,
                keys,
                k,
                #[trigger] members(records, keys, k)[m],
            ),
        forall|j: int|
            0 <= j < records.len() && #[trigger] keys[j] == k ==> members(
                records,
                keys,
                k,
            ).contains(records[j]),
    decreases records.len(),
{
    let all = members(records, keys, k);
    if records.len() > 0 {
        let r0 = records.drop_last();
        let k0 = keys.drop_last();
        let before = members(r0, k0, k);
        lemma_members(r0, k0, k);
        assert forall|m: int| 0 <= m < all.len() implies keyed(records, keys, k, #[trigger] all[m]) by {
            if m < before.len() {
                assert(keyed(r0, k0, k, before[m]));
                let j = choose|j: int|
                    0 <= j < r0.len() && #[trigger] k0[j] == k && r0[j] == before[m];
                assert(keys[j] == k && records[j] == all[m]);
            } else {
                assert(keys[records.len() - 1] == k);
            }
        }
        assert forall|j: int| 0 <= j < records.len() && #[trigger] keys[j] == k implies all.contains(
            records[j],
        ) by {
            if j < records.len() - 1 {
                assert(k0[j] == k);
                assert(before.contains(r0[j]));
                let m = choose|m: int| 0 <= m < before.len() && before[m] == r0[j];
                assert(all[m] == records[j]);
            } else {
                assert(all[all.len() - 1] == records[j]);
            }
        }
    } else {
        assert(all.len() == 0);
    }
}

/// Sorting by key keeps inodes distinct: the members of a key among
/// records of distinct inodes have distinct inodes.
pub proof fn lemma_members_keep_distinct(
    records: Seq<SockInfo>,
    keys: Seq<Option<u32>>,
    k: Option<u32>,
)
    requires
        distinct_inodes(records),
    ensures
        distinct_inodes(members(records, keys, k)),
    decreases records.len(),
{
    if records.len() > 0 && keys.len() == records.len() {
        let r0 = records.drop_last();
        let k0 = keys.drop_last();
        assert forall|i: int, j: int| 0 <= i < j < r0.len() implies r0[i].ino != r0[j].ino by {
            assert(r0[i] == records[i] && r0[j] == records[j]);
        }
        lemma_members_keep_distinct(r0, k0, k);
        lemma_members(r0, k0, k);
        let before = members(r0, k0, k);
        let all = members(records, keys, k);
        if keys.last() == k {
            assert forall|i: int, j: int| 0 <= i < j < all.len() implies all[i].ino
                != all[j].ino by {
                if j < before.len() {
                    assert(all[i] == before[i] && all[j] == before[j]);
                } else {
                    assert(all[i] == before[i]);
                    assert(keyed(r0, k0, k, before[i]));
                    let m = choose|m: int|
                        0 <= m < r0.len() && #[trigger] k0[m] == k && r0[m] == before[i];
                    assert(records[m] == before[i]);
                    assert(records[records.len() - 1] == all[j]);
                }
            }
        }
    }
}

/// For each record the tunnel interface that owns its port, if one does.
pub open spec fn tunnel_keys(records: Seq<SockInfo>, ports: Seq<TunnelPort>) -> Seq<Option<u32>> {
    records.map_values(|s: SockInfo| owner_of(ports, s.port))
}

/// For each record the user that owns it.
pub open spec fn user_keys(records: Seq<SockInfo>) -> Seq<Option<u32>> {
    records.map_values(|s: SockInfo| Some(s.uid))
}

/// Tunnel precedence. A record is left in the general pool only if no tunnel
/// interface owns its port; the records in the bucket of an interface are
/// records whose port that interface owns; and every record whose port a
/// tunnel interface owns is in the bucket of that interface.
pub proof fn lemma_tunnel_precedence(records: Seq<SockInfo>, ports: Seq<TunnelPort>)
    ensures
        forall|m: int|
            0 <= m < members(records, tunnel_keys(records, ports), None).len() ==> owner_of(
                ports,
                (#[trigger] members(records, tunnel_keys(records, ports), None)[m]).port,
            ) is None,
        forall|f: u32, m: int|
            0 <= m < members(records, tunnel_keys(records, ports), Some(f)).len() ==> owner_of(
                ports,
                (#[trigger] members(records, tunnel_keys(records, ports), Some(f))[m]).port,
            ) == Some(f),
        forall|j: int|
            0 <= j < records.len() && owner_of(ports, (#[trigger] records[j]).port) is Some
                ==> members(
                records,
                tunnel_keys(records, ports),
                owner_of(ports, records[j].port),
            ).contains(records[j]),
{
    let keys = tunnel_keys(records, ports);
    assert forall|k: Option<u32>, m: int| 0 <= m < members(records, keys, k).len() implies owner_of(
        ports,
        (#[trigger] members(records, keys, k)[m]).port,
    ) == k by {
        lemma_members(records, keys, k);
        let x = members(records, keys, k)[m];
        assert(keyed(records, keys, k, x));
        let j = choose|j: int| 0 <= j < records.len() && #[trigger] keys[j] == k && records[j] == x;
    }
    assert forall|j: int|
        0 <= j < records.len() && owner_of(ports, (#[trigger] records[j]).port) is Some implies members(
        records,
        keys,
        owner_of(ports, records[j].port),
    ).contains(records[j]) by {
        lemma_members(records, keys, owner_of(ports, records[j].port));
        assert(keys[j] == owner_of(ports, records[j].port));
    }
}

/// The socket records after the tunnel interfaces have taken theirs: the
/// general pool, from which processes claim records by inode, and one bucket
/// for each tunnel interface that owns the port of some record.
pub struct Registry {
    pool: SocketPool,
    buckets: Vec<Group>,
}

impl Registry {
    /// The records of the general pool.
    pub closed spec fn pool(&self) -> Seq<SockInfo> {
        self.pool@
    }

    /// The buckets of the tunnel interfaces; the key of a bucket is the
    /// interface.
    pub closed spec fn buckets(&self) -> Seq<Group> {
        self.buckets@
    }

    /// Hands the records whose port a tunnel interface owns to that
    /// interface and keeps the others in the general pool.
    pub fn new(sockets: SocketPool, ports: &TunnelPorts) -> (r: Registry)
        ensures
            r.pool() == members(sockets@, tunnel_keys(sockets@, ports@), None),
            grouped(sockets@, tunnel_keys(sockets@, ports@), r.buckets()),
    {
        let records = sockets.records();
        let mut keys: Vec<Option<u32>> = Vec::new();
        let mut i: usize = 0;
        while i < records.len()
            invariant
                i <= records.len(),
                keys.len() == i,
                forall|j: int| 0 <= j < i ==> keys[j] == owner_of(ports@, records[j].port),
            decreases records.len() - i,
        {
            keys.push(ports.owner(records[i].port));
            i = i + 1;
        }
        assert(keys@ =~= tunnel_keys(records@, ports@));
        let (rest, buckets) = partition(&records, &keys);
        Registry { pool: SocketPool { records: rest }, buckets }
    }

    /// Takes the record with inode `ino` out of the general pool, for the
    /// one consumer that claims it. The buckets stay as they are.
    pub fn claim(&mut self, ino: Ino) -> (r: Option<SockInfo>)
        ensures
            final(self).buckets() == old(self).buckets(),
            match find(old(self).pool(), ino) {
                Some(i) => r == Some(old(self).pool()[i]) && final(self).pool() == old(
                    self,
                ).pool().remove(i),
                None => r is None && final(self).pool() == old(self).pool(),
            },
    {
        self.pool.remove(ino)
    }

    /// The records that nobody has claimed, one group for each user that
    /// owns some; the key of a group is the user.
    pub fn unassigned(&self) -> (r: Vec<Group>)
        ensures
            grouped(self.pool(), user_keys(self.pool()), r@),
    {
        let records = self.pool.records();
        let mut keys: Vec<Option<u32>> = Vec::new();
        let mut i: usize = 0;
        while i < records.len()
            invariant
                i <= records.len(),
                keys.len() == i,
                forall|j: int| 0 <= j < i ==> keys[j] == Some(records[j].uid),
            decreases records.len() - i,
        {
            keys.push(Some(records[i].uid));
            i = i + 1;
        }
        assert(keys@ =~= user_keys(records@));
        let (rest, groups) = partition(&records, &keys);
        groups
    }

    /// Number of records in the general pool.
    pub fn pool_len(&self) -> (n: usize)
        ensures
            n == self.pool().len(),
    {
        self.pool.len()
    }

    /// The general pool and the buckets of the tunnel interfaces.
    pub fn into_parts(self) -> (r: (SocketPool, Vec<Group>))
        ensures
            r.0@ == self.pool(),
            r.1@ == self.buckets(),
    {
        (self.pool, self.buckets)
    }
}

} // verus!
