//! The sockets of one owner as a tree: one entry for each port and
//! protocol, with the addresses below it.

use vstd::prelude::*;
use std::collections::HashMap;
use crate::addr::IpAddr;
use crate::filters::Filters;
use crate::procs::{text_of, ProcDesc};
use crate::sock::{Family, IfaceName, Protocol, SockInfo};
use crate::termtree::{Entry, Tree};
use crate::text::{decimal, decimal_text, join3};
use vstd::string::StringExecFns;

verus! {

broadcast use vstd::std_specs::hash::group_hash_axioms;

/// An IPv4 address as text: its four octets in decimal digits, most
/// significant first, with dots between them.
pub open spec fn v4_text(a: u32) -> Seq<char> {
    decimal_text((a / 0x100_0000) as nat) + "."@ + decimal_text(((a / 0x1_0000) % 0x100) as nat)
        + "."@ + decimal_text(((a / 0x100) % 0x100) as nat) + "."@ + decimal_text(
        (a % 0x100) as nat,
    )
}

/// An IPv6 address as text: what the `Display` of `core::net::Ipv6Addr`
/// writes for the address with this number.
pub uninterp spec fn v6_text(a: u128) -> Seq<char>;

/// The IPv4 address with number `a` as text.
pub fn show_v4(a: u32) -> (r: String)
    ensures
        r@ == v4_text(a),
{
    let first = decimal((a / 0x100_0000) as u64);
    let second = decimal(((a / 0x1_0000) % 0x100) as u64);
    let third = decimal(((a / 0x100) % 0x100) as u64);
    let fourth = decimal((a % 0x100) as u64);
    let mut out = join3(first.as_str(), ".", second.as_str());
    out.append(".");
    out.append(third.as_str());
    out.append(".");
    out.append(fourth.as_str());
    out
}

/// The IPv6 address with number `a` as text, by `Ipv6Addr::from` and its
/// `to_string`.
#[verifier::external_body]
pub(crate) fn show_v6(a: u128) -> (r: String)
    ensures
        r@ == v6_text(a),
{
    core::net::Ipv6Addr::from(a).to_string()
}

/// An address as text.
pub open spec fn address_text(addr: IpAddr) -> Seq<char> {
    match addr {
        IpAddr::V4(a) => v4_text(a),
        IpAddr::V6(a) => v6_text(a),
    }
}

/// An address as text.
pub fn show_address(addr: IpAddr) -> (r: String)
    ensures
        r@ == address_text(addr),
{
    match addr {
        IpAddr::V4(a) => show_v4(a),
        IpAddr::V6(a) => show_v6(a),
    }
}

/// Three numbers by which things are put in order: by the first, then by
/// the second, then by the third.
#[derive(Debug, Clone, Copy, PartialEq, Eq, Structural)]
pub struct Key {
    pub a: u64,
    pub b: u128,
    pub c: u64,
}

/// Whether `x` comes before `y`.
pub open spec fn before(x: Key, y: Key) -> bool {
    x.a < y.a || (x.a == y.a && (x.b < y.b || (x.b == y.b && x.c < y.c)))
}

/// Whether `x` comes before `y`.
pub fn is_before(x: Key, y: Key) -> (r: bool)
    ensures
        r == before(x, y),
{
    x.a < y.a || (x.a == y.a && (x.b < y.b || (x.b == y.b && x.c < y.c)))
}

/// The keys of `s` ascend strictly.
pub open spec fn ascending(s: Seq<Key>) -> bool {
    forall|k: int, m: int| 0 <= k < m < s.len() ==> before(s[k], s[m])
}

/// `sorted` holds the keys that occur in `keys`, each once, in ascending
/// order.
pub open spec fn sorted_keys(keys: Seq<Key>, sorted: Seq<Key>) -> bool {
    &&& ascending(sorted)
    &&& forall|i: int| 0 <= i < keys.len() ==> sorted.contains(#[trigger] keys[i])
    &&& forall|k: int| 0 <= k < sorted.len() ==> keys.contains(#[trigger] sorted[k])
}

/// A key put between the keys before it and the keys behind it keeps them
/// ascending.
proof fn lemma_insert_ascending(s: Seq<Key>, j: int, x: Key)
    requires
        ascending(s),
        0 <= j <= s.len(),
        forall|k: int| 0 <= k < j ==> before(s[k], x),
        j < s.len() ==> before(x, s[j]),
    ensures
        ascending(s.insert(j, x)),
{
    let t = s.insert(j, x);
    assert forall|k: int, m: int| 0 <= k < m < t.len() implies before(t[k], t[m]) by {
        if m == j {
            assert(t[k] == s[k]);
        } else if k == j {
            assert(t[m] == s[m - 1]);
            if m - 1 > j {
                assert(before(s[j], s[m - 1]));
            }
        } else {
            let a = if k < j {
                k
            } else {
                k - 1
            };
            let b = if m < j {
                m
            } else {
                m - 1
            };
            assert(t[k] == s[a] && t[m] == s[b]);
            assert(before(s[a], s[b]));
        }
    }
}

/// One key more: a list that holds the keys so far, with the new key put
/// in unless it is there, holds the keys with the new one.
proof fn lemma_sorted_step(keys: Seq<Key>, i: int, s: Seq<Key>, t: Seq<Key>)
    requires
        0 <= i < keys.len(),
        sorted_keys(keys.take(i), s),
        ascending(t),
        t.contains(keys[i]),
        forall|k: int| 0 <= k < s.len() ==> t.contains(#[trigger] s[k]),
        forall|k: int| 0 <= k < t.len() ==> s.contains(#[trigger] t[k]) || t[k] == keys[i],
    ensures
        sorted_keys(keys.take(i + 1), t),
{
    let shorter = keys.take(i);
    let longer = keys.take(i + 1);
    assert forall|p: int| 0 <= p < longer.len() implies t.contains(#[trigger] longer[p]) by {
        if p < i {
            assert(longer[p] == shorter[p]);
            assert(s.contains(shorter[p]));
            let k = choose|k: int| 0 <= k < s.len() && s[k] == shorter[p];
            assert(t.contains(s[k]));
        }
    }
    assert forall|k: int| 0 <= k < t.len() implies longer.contains(#[trigger] t[k]) by {
        if t[k] == keys[i] {
            assert(longer[i] == keys[i]);
        } else {
            assert(s.contains(t[k]));
            let m = choose|m: int| 0 <= m < s.len() && s[m] == t[k];
            assert(shorter.contains(s[m]));
            let p = choose|p: int| 0 <= p < shorter.len() && shorter[p] == s[m];
            assert(longer[p] == t[k]);
        }
    }
}

/// Two lists that hold the keys of `keys`, each once, in ascending order
/// are the same list.
pub proof fn lemma_sorted_keys_unique(keys: Seq<Key>, a: Seq<Key>, b: Seq<Key>)
    requires
        sorted_keys(keys, a),
        sorted_keys(keys, b),
    ensures
        a == b,
{
    lemma_same_ascending(a, b);
}

/// Two ascending lists that hold the same keys are the same list.
proof fn lemma_same_ascending(a: Seq<Key>, b: Seq<Key>)
    requires
        ascending(a),
        ascending(b),
        forall|i: int| 0 <= i < a.len() ==> b.contains(#[trigger] a[i]),
        forall|i: int| 0 <= i < b.len() ==> a.contains(#[trigger] b[i]),
    ensures
        a == b,
    decreases a.len(),
{
    if a.len() == 0 {
        if b.len() > 0 {
            assert(a.contains(b[0]));
        }
        assert(a =~= b);
    } else {
        assert(b.contains(a[0]));
        let ib = choose|i: int| 0 <= i < b.len() && b[i] == a[0];
        assert(a.contains(b[0]));
        let ia = choose|i: int| 0 <= i < a.len() && a[i] == b[0];
        if ib > 0 && ia > 0 {
            assert(before(b[0], b[ib]));
            assert(before(a[0], a[ia]));
        }
        if ib > 0 && ia == 0 {
            assert(before(b[0], b[ib]));
        }
        if ia > 0 && ib == 0 {
            assert(before(a[0], a[ia]));
        }
        assert(a[0] == b[0]);
        let ta = a.drop_first();
        let tb = b.drop_first();
        assert forall|i: int| 0 <= i < ta.len() implies tb.contains(#[trigger] ta[i]) by {
            assert(ta[i] == a[i + 1]);
            assert(b.contains(a[i + 1]));
            let j = choose|j: int| 0 <= j < b.len() && b[j] == a[i + 1];
            assert(before(a[0], a[i + 1]));
            assert(j > 0);
            assert(tb[j - 1] == b[j]);
        }
        assert forall|i: int| 0 <= i < tb.len() implies ta.contains(#[trigger] tb[i]) by {
            assert(tb[i] == b[i + 1]);
            assert(a.contains(b[i + 1]));
            let j = choose|j: int| 0 <= j < a.len() && a[j] == b[i + 1];
            assert(before(b[0], b[i + 1]));
            assert(j > 0);
            assert(ta[j - 1] == a[j]);
        }
        assert(ascending(ta)) by {
            assert forall|k: int, m: int| 0 <= k < m < ta.len() implies before(ta[k], ta[m]) by {
                assert(before(a[k + 1], a[m + 1]));
            }
        }
        assert(ascending(tb)) by {
            assert forall|k: int, m: int| 0 <= k < m < tb.len() implies before(tb[k], tb[m]) by {
                assert(before(b[k + 1], b[m + 1]));
            }
        }
        lemma_same_ascending(ta, tb);
        assert(a =~= seq![a[0]] + ta);
        assert(b =~= seq![b[0]] + tb);
    }
}

/// The keys that occur in `keys`, each once, in ascending order.
pub open spec fn in_order(keys: Seq<Key>) -> Seq<Key> {
    choose|s: Seq<Key>| sorted_keys(keys, s)
}

/// The keys that occur in `keys`, each once, in ascending order.
pub fn order(keys: &Vec<Key>) -> (r: Vec<Key>)
    ensures
        sorted_keys(keys@, r@),
        r@ == in_order(keys@),
{
    let mut out: Vec<Key> = Vec::new();
    let mut i: usize = 0;
    while i < keys.len()
        invariant
            i <= keys.len(),
            sorted_keys(keys@.take(i as int), out@),
        decreases keys.len() - i,
    {
        let key = keys[i];
        let mut j: usize = 0;
        while j < out.len() && is_before(out[j], key)
            invariant
                j <= out.len(),
                forall|k: int| 0 <= k < j ==> before(#[trigger] out@[k], key),
            decreases out.len() - j,
        {
            j = j + 1;
        }
        let ghost old_out = out@;
        let present = j < out.len() && out[j] == key;
        if !present {
            out.insert(j, key);
            proof {
                lemma_insert_ascending(old_out, j as int, key);
                assert(out@[j as int] == key);
                assert forall|k: int| 0 <= k < old_out.len() implies out@.contains(
                    #[trigger] old_out[k],
                ) by {
                    let m = if k < j {
                        k
                    } else {
                        k + 1
                    };
                    assert(out@[m] == old_out[k]);
                }
                assert forall|k: int| 0 <= k < out@.len() implies old_out.contains(
                    #[trigger] out@[k],
                ) || out@[k] == key by {
                    if k < j {
                        assert(out@[k] == old_out[k]);
                    } else if k > j {
                        assert(out@[k] == old_out[k - 1]);
                    }
                }
            }
        } else {
            assert(out@[j as int] == key);
        }
        proof {
            lemma_sorted_step(keys@, i as int, old_out, out@);
        }
        i = i + 1;
    }
    assert(keys@.take(keys.len() as int) =~= keys@);
    proof {
        lemma_sorted_keys_unique(keys@, out@, in_order(keys@));
    }
    out
}

/// The key by which the sockets of one owner are grouped: port, then
/// protocol.
pub open spec fn group_key_of(s: SockInfo) -> Key {
    Key { a: s.port as u64, b: s.protocol.spec_rank() as u128, c: 0 }
}

/// The key by which the sockets of one owner are grouped.
pub fn group_key(s: &SockInfo) -> (k: Key)
    ensures
        k == group_key_of(*s),
{
    Key { a: s.port as u64, b: s.protocol.rank() as u128, c: 0 }
}

/// The number of an address, and 0 for IPv4 or 1 for IPv6.
pub open spec fn address_number(addr: IpAddr) -> (u64, u128) {
    match addr {
        IpAddr::V4(a) => (0, a as u128),
        IpAddr::V6(a) => (1, a),
    }
}

/// The number by which interfaces are put in order: unknown ones first,
/// then those that a socket is bound to, then those that the routes give,
/// each by the number of the interface.
pub open spec fn iface_number(iface: IfaceName) -> u64 {
    match iface {
        IfaceName::Unknown => 0,
        IfaceName::Associated(id) => (0x1_0000_0000 + id) as u64,
        IfaceName::LocalRoute(id) => (0x2_0000_0000 + id) as u64,
    }
}

/// The key by which the addresses of one port are put in order and told
/// apart: family of the socket, then address, then interface.
pub open spec fn leaf_key_of(s: SockInfo) -> Key {
    Key {
        a: (match s.family {
            Family::V4 => 0u64,
            Family::V6 => 2u64,
            Family::Both => 4u64,
        } + address_number(s.addr).0) as u64,
        b: address_number(s.addr).1,
        c: iface_number(s.iface),
    }
}

/// The key by which the addresses of one port are put in order.
pub fn leaf_key(s: &SockInfo) -> (k: Key)
    ensures
        k == leaf_key_of(*s),
{
    let family: u64 = match s.family {
        Family::V4 => 0,
        Family::V6 => 2,
        Family::Both => 4,
    };
    let (side, bits): (u64, u128) = match s.addr {
        IpAddr::V4(a) => (0, a as u128),
        IpAddr::V6(a) => (1, a),
    };
    let iface: u64 = match s.iface {
        IfaceName::Unknown => 0,
        IfaceName::Associated(id) => 0x1_0000_0000 + id as u64,
        IfaceName::LocalRoute(id) => 0x2_0000_0000 + id as u64,
    };
    Key { a: family + side, b: bits, c: iface }
}

/// Sockets with the same key show the same family, address and interface.
pub proof fn lemma_leaf_key_tells_apart(x: SockInfo, y: SockInfo)
    requires
        leaf_key_of(x) == leaf_key_of(y),
    ensures
        x.family == y.family,
        x.addr == y.addr,
        x.iface == y.iface,
{
}

/// The name of an interface: the name that is known for its number, else
/// its number behind a number sign.
pub open spec fn iface_text(names: Map<u32, String>, id: u32) -> Seq<char> {
    if names.contains_key(id) {
        names[id]@
    } else {
        "#"@ + decimal_text(id as nat)
    }
}

/// The name of an interface.
pub fn interface_name(interfaces: &HashMap<u32, String>, id: u32) -> (r: String)
    ensures
        r@ == iface_text(interfaces@, id),
{
    match interfaces.get(&id) {
        Some(name) => name.clone(),
        None => {
            let number = decimal(id as u64);
            crate::text::join("#", number.as_str())
        },
    }
}

/// How the address of a socket is shown. A dual-stack socket on the IPv6
/// wildcard address shows as a star. An interface that the socket is bound
/// to follows behind a percent sign, one that the routes give in brackets.
pub open spec fn leaf_text_of(s: SockInfo, names: Map<u32, String>) -> Seq<char> {
    let star = s.family == Family::Both && s.addr == IpAddr::V6(0);
    match s.iface {
        IfaceName::Unknown => if star {
            "*"@
        } else {
            address_text(s.addr)
        },
        IfaceName::Associated(id) => if star {
            "*%"@ + iface_text(names, id)
        } else {
            address_text(s.addr) + "%"@ + iface_text(names, id)
        },
        IfaceName::LocalRoute(id) => address_text(s.addr) + " ("@ + iface_text(names, id) + ")"@,
    }
}

/// How the address of a socket is shown.
pub fn leaf_text(s: &SockInfo, interfaces: &HashMap<u32, String>) -> (r: String)
    ensures
        r@ == leaf_text_of(*s, interfaces@),
{
    let star = match (s.family, s.addr) {
        (Family::Both, IpAddr::V6(a)) => a == 0,
        _ => false,
    };
    match s.iface {
        IfaceName::Unknown => if star {
            String::from_str("*")
        } else {
            show_address(s.addr)
        },
        IfaceName::Associated(id) => {
            let name = interface_name(interfaces, id);
            if star {
                crate::text::join("*%", name.as_str())
            } else {
                let addr = show_address(s.addr);
                join3(addr.as_str(), "%", name.as_str())
            }
        },
        IfaceName::LocalRoute(id) => {
            let name = interface_name(interfaces, id);
            let addr = show_address(s.addr);
            let mut out = join3(addr.as_str(), " (", name.as_str());
            out.append(")");
            out
        },
    }
}

/// The label of the sockets of one port and protocol.
pub open spec fn group_label_of(port: u16, protocol: Protocol) -> Seq<char> {
    ":"@ + decimal_text(port as nat) + " "@ + protocol.spec_name()
}

/// The label of the sockets of one port and protocol.
pub fn group_label(port: u16, protocol: Protocol) -> (r: String)
    ensures
        r@ == group_label_of(port, protocol),
{
    let number = decimal(port as u64);
    let mut out = join3(":", number.as_str(), " ");
    out.append(protocol.name());
    out
}

/// Whether the sockets of one port cover both wildcard addresses and
/// nothing else: there are two of them, one on `0.0.0.0` and one on `::`.
pub open spec fn both_wildcards(group: Seq<SockInfo>) -> bool {
    group.len() == 2 && ((group[0].addr == IpAddr::V4(0) && group[1].addr == IpAddr::V6(0)) || (
    group[0].addr == IpAddr::V6(0) && group[1].addr == IpAddr::V4(0)))
}

/// Whether the sockets of one port cover both wildcard addresses and
/// nothing else.
pub fn covers_both_wildcards(group: &Vec<SockInfo>) -> (r: bool)
    ensures
        r == both_wildcards(group@),
{
    if group.len() != 2 {
        return false;
    }
    match (group[0].addr, group[1].addr) {
        (IpAddr::V4(a), IpAddr::V6(b)) => a == 0 && b == 0,
        (IpAddr::V6(a), IpAddr::V4(b)) => a == 0 && b == 0,
        _ => false,
    }
}

/// The sockets of `sockets` that belong to the group with key `key`, in
/// order.
pub open spec fn in_group(sockets: Seq<SockInfo>, key: Key) -> Seq<SockInfo> {
    sockets.filter(|s: SockInfo| group_key_of(s) == key)
}

/// The sockets that belong to the group with key `key`, in order.
pub fn group_members(sockets: &Vec<SockInfo>, key: Key) -> (r: Vec<SockInfo>)
    ensures
        r@ == in_group(sockets@, key),
{
    let mut out: Vec<SockInfo> = Vec::new();
    let ghost pred = |s: SockInfo| group_key_of(s) == key;
    let mut i: usize = 0;
    proof {
        crate::seqs::lemma_filter_empty(pred);
        assert(sockets@.take(0) =~= Seq::<SockInfo>::empty());
    }
    while i < sockets.len()
        invariant
            i <= sockets.len(),
            pred == (|s: SockInfo| group_key_of(s) == key),
            out@ == sockets@.take(i as int).filter(pred),
        decreases sockets.len() - i,
    {
        proof {
            crate::seqs::lemma_filter_take_step(sockets@, pred, i as int);
        }
        if group_key(&sockets[i]) == key {
            out.push(sockets[i]);
        }
        i = i + 1;
    }
    assert(sockets@.take(sockets.len() as int) =~= sockets@);
    out
}

/// Whether the filter on addresses lets a socket through.
pub open spec fn passes_addr(filter: Filters, s: SockInfo) -> bool {
    filter.pfxs@.len() == 0 || crate::filters::in_prefixes(filter.pfxs@, s.addr)
        || s.addr.spec_is_unspecified()
}

/// The sockets of `group` that the filter on addresses lets through, in
/// order.
pub open spec fn accepted(group: Seq<SockInfo>, filter: Filters) -> Seq<SockInfo> {
    group.filter(|s: SockInfo| passes_addr(filter, s))
}

/// The keys of the addresses of some sockets.
pub open spec fn leaf_keys(sockets: Seq<SockInfo>) -> Seq<Key> {
    sockets.map_values(|s: SockInfo| leaf_key_of(s))
}

/// How the address with key `key` is shown: as that of a socket of
/// `sockets` with this key. All of them show alike.
pub open spec fn text_for(sockets: Seq<SockInfo>, names: Map<u32, String>, key: Key) -> Seq<char> {
    leaf_text_of(choose|s: SockInfo| sockets.contains(s) && leaf_key_of(s) == key, names)
}

/// The texts below the label of one port: one text for the two wildcard
/// addresses together, if the sockets cover just these; else one text for
/// each distinct address that the filters let through, in ascending order
/// of family, address and interface.
pub open spec fn leaves_of(group: Seq<SockInfo>, filter: Filters, names: Map<u32, String>) -> Seq<
    Seq<char>,
> {
    if both_wildcards(group) {
        seq!["0.0.0.0 + ::"@]
    } else {
        in_order(leaf_keys(accepted(group, filter))).map_values(
            |key: Key| text_for(accepted(group, filter), names, key),
        )
    }
}

/// The texts below the label of one port.
pub fn group_leaves(group: &Vec<SockInfo>, filter: &Filters, interfaces: &HashMap<u32, String>) -> (r:
    Vec<String>)
    ensures
        crate::text::texts(r@) == leaves_of(group@, *filter, interfaces@),
{
    let mut out: Vec<String> = Vec::new();
    if covers_both_wildcards(group) {
        out.push(String::from_str("0.0.0.0 + ::"));
        assert(crate::text::texts(out@) =~= seq!["0.0.0.0 + ::"@]);
        return out;
    }
    let mut shown: Vec<SockInfo> = Vec::new();
    let mut keys: Vec<Key> = Vec::new();
    let ghost pred = |s: SockInfo| passes_addr(*filter, s);
    let mut i: usize = 0;
    proof {
        crate::seqs::lemma_filter_empty(pred);
        assert(group@.take(0) =~= Seq::<SockInfo>::empty());
        assert(keys@ =~= leaf_keys(shown@));
    }
    while i < group.len()
        invariant
            i <= group.len(),
            pred == (|s: SockInfo| passes_addr(*filter, s)),
            shown@ == group@.take(i as int).filter(pred),
            keys@ == leaf_keys(shown@),
        decreases group.len() - i,
    {
        proof {
            crate::seqs::lemma_filter_take_step(group@, pred, i as int);
        }
        if filter.accept_addr(group[i].addr) {
            shown.push(group[i]);
            keys.push(leaf_key(&group[i]));
            assert(keys@ =~= leaf_keys(shown@));
        }
        i = i + 1;
    }
    assert(group@.take(group.len() as int) =~= group@);
    let sorted = order(&keys);
    let ghost wanted = leaves_of(group@, *filter, interfaces@);
    let mut k: usize = 0;
    assert(crate::text::texts(out@) =~= wanted.take(0));
    while k < sorted.len()
        invariant
            k <= sorted.len(),
            !both_wildcards(group@),
            shown@ == accepted(group@, *filter),
            keys@ == leaf_keys(shown@),
            sorted@ == in_order(keys@),
            sorted_keys(keys@, sorted@),
            wanted == leaves_of(group@, *filter, interfaces@),
            crate::text::texts(out@) == wanted.take(k as int),
        decreases sorted.len() - k,
    {
        let key = sorted[k];
        assert(keys@.contains(sorted@[k as int]));
        let mut j: usize = 0;
        while j < keys.len() && keys[j] != key
            invariant
                j <= keys.len(),
                forall|m: int| 0 <= m < j ==> keys@[m] != key,
            decreases keys.len() - j,
        {
            j = j + 1;
        }
        assert(j < keys.len());
        let text = leaf_text(&shown[j], interfaces);
        proof {
            let found = shown@[j as int];
            assert(shown@.contains(found));
            assert(leaf_key_of(found) == key);
            let chosen = choose|s: SockInfo| shown@.contains(s) && leaf_key_of(s) == key;
            lemma_leaf_key_tells_apart(found, chosen);
            assert(text@ == text_for(shown@, interfaces@, key));
            assert(wanted[k as int] == text_for(shown@, interfaces@, key));
        }
        let ghost before = out@;
        out.push(text);
        k = k + 1;
        proof {
            assert(wanted.len() == sorted@.len());
            assert(crate::text::texts(out@) =~= crate::text::texts(before).push(text@));
            assert(wanted.take(k as int) =~= wanted.take(k - 1).push(wanted[k - 1]));
        }
    }
    assert(wanted.take(sorted.len() as int) =~= wanted);
    out
}

/// What an entry shows: its own text, and the texts of the entries below it.
pub struct Shown {
    pub label: Seq<char>,
    pub leaves: Seq<Seq<char>>,
}

/// What an entry shows.
pub open spec fn entry_view(e: Entry) -> Shown {
    Shown { label: e.data@, leaves: e.children@.map_values(|c: Entry| c.data@) }
}

/// The keys of the groups of some sockets.
pub open spec fn group_keys(sockets: Seq<SockInfo>) -> Seq<Key> {
    sockets.map_values(|s: SockInfo| group_key_of(s))
}

/// What the group with key `key` shows, if it shows at all: it does if it
/// has sockets, the filters on ports and protocols let it through, and it
/// has addresses to show. It is labelled with its port and protocol.
pub open spec fn shown_group(
    sockets: Seq<SockInfo>,
    filter: Filters,
    names: Map<u32, String>,
    key: Key,
) -> Option<Shown> {
    let group = in_group(sockets, key);
    if group.len() > 0 && (filter.port@.len() == 0 || crate::filters::in_ranges(
        filter.port@,
        group[0].port,
    )) && (filter.proto@.len() == 0 || filter.proto@.contains(group[0].protocol)) && leaves_of(
        group,
        filter,
        names,
    ).len() > 0 {
        Some(
            Shown {
                label: group_label_of(group[0].port, group[0].protocol),
                leaves: leaves_of(group, filter, names),
            },
        )
    } else {
        None
    }
}

/// What the groups with the first `n` of the keys show, in order.
pub open spec fn shown_groups(
    sockets: Seq<SockInfo>,
    filter: Filters,
    names: Map<u32, String>,
    keys: Seq<Key>,
    n: nat,
) -> Seq<Shown>
    decreases n,
{
    if n == 0 || n > keys.len() {
        Seq::empty()
    } else {
        let before = shown_groups(sockets, filter, names, keys, (n - 1) as nat);
        match shown_group(sockets, filter, names, keys[n - 1]) {
            Some(shown) => before.push(shown),
            None => before,
        }
    }
}

/// What the entries at the top of a tree show.
pub open spec fn tree_view(t: Seq<Entry>) -> Seq<Shown> {
    t.map_values(|e: Entry| entry_view(e))
}

/// No entry of `t` has anything below it.
pub open spec fn all_leaves(t: Seq<Entry>) -> bool {
    forall|c: int| 0 <= c < t.len() ==> (#[trigger] t[c]).children@.len() == 0
}

/// The tree is two levels deep: the entries below each entry at the top
/// have nothing below them.
pub open spec fn two_levels(t: Seq<Entry>) -> bool {
    forall|g: int| 0 <= g < t.len() ==> all_leaves((#[trigger] t[g]).children@)
}

/// The sockets of one owner as a tree. The sockets are grouped by port and
/// protocol, in ascending order. Each group that the filters let through
/// and that has something to show becomes an entry, labelled with port and
/// protocol, with the texts of its addresses below it; below an address
/// stands nothing.
pub fn sockets_tree(sockets: &Vec<SockInfo>, filter: &Filters, interfaces: &HashMap<u32, String>) -> (r:
    Tree)
    ensures
        tree_view(r@) == shown_groups(
            sockets@,
            *filter,
            interfaces@,
            in_order(group_keys(sockets@)),
            in_order(group_keys(sockets@)).len(),
        ),
        two_levels(r@),
{
    let mut keys: Vec<Key> = Vec::new();
    let mut i: usize = 0;
    assert(keys@ =~= group_keys(sockets@.take(0)));
    while i < sockets.len()
        invariant
            i <= sockets.len(),
            keys@ == group_keys(sockets@.take(i as int)),
        decreases sockets.len() - i,
    {
        keys.push(group_key(&sockets[i]));
        i = i + 1;
        assert(keys@ =~= group_keys(sockets@.take(i as int)));
    }
    assert(sockets@.take(sockets.len() as int) =~= sockets@);
    let sorted = order(&keys);
    let mut out = Tree::new();
    let mut g: usize = 0;
    assert(tree_view(out@) =~= Seq::<Shown>::empty());
    while g < sorted.len()
        invariant
            g <= sorted.len(),
            sorted@ == in_order(group_keys(sockets@)),
            tree_view(out@) == shown_groups(sockets@, *filter, interfaces@, sorted@, g as nat),
            two_levels(out@),
        decreases sorted.len() - g,
    {
        let group = group_members(sockets, sorted[g]);
        let ghost before = out@;
        let mut added = false;
        if group.len() > 0 {
            let port = group[0].port;
            let protocol = group[0].protocol;
            if filter.accept_port(port) && filter.accept_proto(protocol) {
                let leaves = group_leaves(&group, filter, interfaces);
                if leaves.len() > 0 {
                    let mut below = Tree::new();
                    let mut l: usize = 0;
                    assert(below@.map_values(|c: Entry| c.data@) =~= crate::text::texts(
                        leaves@,
                    ).take(0));
                    while l < leaves.len()
                        invariant
                            l <= leaves.len(),
                            below@.len() == l,
                            all_leaves(below@),
                            below@.map_values(|c: Entry| c.data@) == crate::text::texts(
                                leaves@,
                            ).take(l as int),
                        decreases leaves.len() - l,
                    {
                        let ghost under = below@;
                        below.leaf(leaves[l].clone());
                        l = l + 1;
                        proof {
                            assert(below@.drop_last() == under);
                            assert forall|c: int| 0 <= c < below@.len() implies (
                            #[trigger] below@[c]).children@.len() == 0 by {
                                if c < l - 1 {
                                    assert(below@[c] == under[c]);
                                } else {
                                    assert(below@[c] == below@.last());
                                }
                            }
                            assert forall|m: int| 0 <= m < l implies below@.map_values(
                                |c: Entry| c.data@,
                            )[m] == crate::text::texts(leaves@).take(l as int)[m] by {
                                if m < l - 1 {
                                    assert(below@[m] == under[m]);
                                    assert(under.map_values(|c: Entry| c.data@)[m]
                                        == crate::text::texts(leaves@).take(l - 1)[m]);
                                } else {
                                    assert(below@[m] == below@.last());
                                }
                            }
                            assert(below@.map_values(|c: Entry| c.data@) =~= crate::text::texts(
                                leaves@,
                            ).take(l as int));
                        }
                    }
                    assert(crate::text::texts(leaves@).take(leaves.len() as int)
                        =~= crate::text::texts(leaves@));
                    let label = group_label(port, protocol);
                    out.node(label, below);
                    proof {
                        assert(out@.drop_last() == before);
                        assert(entry_view(out@.last()) == shown_group(
                            sockets@,
                            *filter,
                            interfaces@,
                            sorted@[g as int],
                        )->0);
                        assert forall|m: int| 0 <= m < out@.len() implies tree_view(out@)[m]
                            == tree_view(before).push(entry_view(out@.last()))[m] by {
                            if m < before.len() {
                                assert(out@[m] == before[m]);
                            } else {
                                assert(out@[m] == out@.last());
                            }
                        }
                        assert(tree_view(out@) =~= tree_view(before).push(entry_view(out@.last())));
                        assert forall|k: int| 0 <= k < out@.len() implies all_leaves(
                            (#[trigger] out@[k]).children@,
                        ) by {
                            if k < before.len() {
                                assert(out@[k] == before[k]);
                            } else {
                                assert(out@[k] == out@.last());
                            }
                        }
                    }
                    added = true;
                }
            }
        }
        proof {
            if !added {
                assert(shown_group(sockets@, *filter, interfaces@, sorted@[g as int]) is None);
            }
        }
        g = g + 1;
    }
    out
}

/// The number of a process as text: its digits, behind a minus sign if it
/// is negative.
pub open spec fn pid_text(pid: i32) -> Seq<char> {
    if pid < 0 {
        "-"@ + decimal_text((-(pid as int)) as nat)
    } else {
        decimal_text(pid as nat)
    }
}

/// The label of a process: its name, if it has one, with its number and
/// its user.
pub open spec fn process_label_of(name: Option<Seq<char>>, pid: i32, user: Seq<char>) -> Seq<char> {
    match name {
        Some(n) => n + " (pid "@ + pid_text(pid) + " user "@ + user + ")"@,
        None => "pid "@ + pid_text(pid) + " user "@ + user,
    }
}

/// The label of a process.
pub fn process_label(pd: &ProcDesc) -> (r: String)
    ensures
        r@ == process_label_of(text_of(pd.name), pd.pid, pd.user@),
{
    let pid = if pd.pid < 0 {
        let digits = decimal((-(pd.pid as i64)) as u64);
        crate::text::join("-", digits.as_str())
    } else {
        decimal(pd.pid as u64)
    };
    match &pd.name {
        Some(name) => {
            let mut out = join3(name.as_str(), " (pid ", pid.as_str());
            out.append(" user ");
            out.append(pd.user.as_str());
            out.append(")");
            out
        },
        None => {
            let mut out = join3("pid ", pid.as_str(), " user ");
            out.append(pd.user.as_str());
            out
        },
    }
}

/// The label of the sockets of a tunnel interface.
pub open spec fn interface_label_of(names: Map<u32, String>, id: u32) -> Seq<char> {
    "[network interface "@ + iface_text(names, id) + "]"@
}

/// The label of the sockets of a tunnel interface.
pub fn interface_label(interfaces: &HashMap<u32, String>, id: u32) -> (r: String)
    ensures
        r@ == interface_label_of(interfaces@, id),
{
    let name = interface_name(interfaces, id);
    join3("[network interface ", name.as_str(), "]")
}

/// The label of the sockets of a user that no process could be found for.
/// The name of the user is a guess, since the namespace of the sockets is
/// not known; it is shown only to observers without the rights of root, who
/// often have nothing else to go by.
pub open spec fn unassigned_label_of(uid: u32, name: Option<Seq<char>>, effective_uid: u32) -> Seq<
    char,
> {
    if effective_uid != 0 && name is Some {
        "??? (user "@ + decimal_text(uid as nat) + "/"@ + name->0 + "?)"@
    } else {
        "??? (user "@ + decimal_text(uid as nat) + ")"@
    }
}

/// The label of the sockets of a user that no process could be found for.
pub fn unassigned_label(uid: u32, name: &Option<String>, effective_uid: u32) -> (r: String)
    ensures
        r@ == unassigned_label_of(uid, text_of(*name), effective_uid),
{
    let number = decimal(uid as u64);
    match name {
        Some(n) => {
            if effective_uid != 0 {
                let mut out = join3("??? (user ", number.as_str(), "/");
                out.append(n.as_str());
                out.append("?)");
                return out;
            }
        },
        None => {},
    }
    join3("??? (user ", number.as_str(), ")")
}

/// Whether the sockets that no process could be found for are hidden and
/// the user is to be warned of it: if there are such sockets, but a filter
/// on processes is set, which they cannot pass.
pub fn hides_unassigned(filter: &Filters, unassigned: usize) -> (r: bool)
    ensures
        r == (unassigned > 0 && !(filter.cmd@.len() == 0 && filter.pid@.len() == 0)),
{
    unassigned > 0 && !filter.accept_wg()
}

} // verus!
