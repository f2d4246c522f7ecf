//! Address prefixes and the longest-prefix-match routing table.

use vstd::prelude::*;
use crate::addr::IpAddr;

verus! {

/// A network: the leading `bits` bits of `dst`.
#[derive(Clone, Copy, Debug, PartialEq, Eq, Structural)]
pub struct Prefix {
    pub dst: IpAddr,
    pub bits: u8,
}

/// Whether two 32-bit addresses agree in their leading `n` bits.
/// More than 32 bits count as 32.
pub open spec fn same_leading_bits_v4(a: u32, b: u32, n: nat) -> bool {
    if n == 0 {
        true
    } else if n >= 32 {
        a == b
    } else {
        a >> ((32 - n) as u32) == b >> ((32 - n) as u32)
    }
}

/// Whether two 128-bit addresses agree in their leading `n` bits.
/// More than 128 bits count as 128.
pub open spec fn same_leading_bits_v6(a: u128, b: u128, n: nat) -> bool {
    if n == 0 {
        true
    } else if n >= 128 {
        a == b
    } else {
        a >> ((128 - n) as u128) == b >> ((128 - n) as u128)
    }
}

impl Prefix {
    /// The prefix that holds exactly `dst`: all bits of its family.
    pub fn host(dst: IpAddr) -> (r: Prefix)
        ensures
            r.dst == dst,
            r.bits == dst.width(),
    {
        Prefix { dst, bits: dst.width() }
    }

    /// The prefix of `dst` with the given length; without a length, the
    /// prefix that holds exactly `dst`.
    pub fn new(dst: IpAddr, bits: Option<u8>) -> (r: Prefix)
        ensures
            r.dst == dst,
            r.bits == (match bits {
                Some(b) => b,
                None => dst.width(),
            }),
    {
        match bits {
            Some(b) => Prefix { dst, bits: b },
            None => Prefix::host(dst),
        }
    }

    /// Whether `addr` lies in this network: same family, and the leading
    /// `bits` bits agree. Addresses of the other family never match.
    pub open spec fn spec_matches(&self, addr: IpAddr) -> bool {
        match (self.dst, addr) {
            (IpAddr::V4(d), IpAddr::V4(a)) => same_leading_bits_v4(d, a, self.bits as nat),
            (IpAddr::V6(d), IpAddr::V6(a)) => same_leading_bits_v6(d, a, self.bits as nat),
            _ => false,
        }
    }

    /// Whether `addr` lies in this network.
    #[verifier::when_used_as_spec(spec_matches)]
    pub fn matches(&self, addr: IpAddr) -> (r: bool)
        ensures
            r == self.spec_matches(addr),
    {
        match (self.dst, addr) {
            (IpAddr::V4(d), IpAddr::V4(a)) => {
                if self.bits == 0 {
                    true
                } else if self.bits >= 32 {
                    d == a
                } else {
                    let shift: u32 = (32 - self.bits) as u32;
                    d >> shift == a >> shift
                }
            },
            (IpAddr::V6(d), IpAddr::V6(a)) => {
                if self.bits == 0 {
                    true
                } else if self.bits >= 128 {
                    d == a
                } else {
                    let shift: u128 = (128 - self.bits) as u128;
                    d >> shift == a >> shift
                }
            },
            _ => false,
        }
    }
}

/// An address of a network matches the network, whatever its length.
pub proof fn lemma_prefix_matches_own_address(p: Prefix)
    ensures
        p.spec_matches(p.dst),
{
}

/// The empty prefix matches every address of its family and none of the other.
pub proof fn lemma_empty_prefix_matches_family(p: Prefix, addr: IpAddr)
    requires
        p.bits == 0,
    ensures
        p.spec_matches(addr) == (p.dst.is_v4() == addr.is_v4()),
{
}

} // verus!

verus! {

/// A network and the interface that owns it.
#[derive(Clone, Copy, Debug, PartialEq, Eq, Structural)]
pub struct Route {
    pub pfx: Prefix,
    pub iface: u32,
}

/// The routes of `s` whose prefix has exactly `len` bits, in the order of `s`.
pub open spec fn with_length(s: Seq<Route>, len: int) -> Seq<Route> {
    s.filter(|r: Route| r.pfx.bits == len)
}

/// The routes of `s` whose prefix has at least `from` bits, longest first;
/// routes of one length stand in the order of `s`.
pub open spec fn longest_first(s: Seq<Route>, from: int) -> Seq<Route>
    decreases 256 - from,
{
    if from >= 256 {
        Seq::empty()
    } else {
        longest_first(s, from + 1) + with_length(s, from)
    }
}

/// No route stands before a longer one.
pub open spec fn descending(s: Seq<Route>) -> bool {
    forall|i: int, j: int| 0 <= i <= j < s.len() ==> s[i].pfx.bits >= s[j].pfx.bits
}

/// The interface of the first route of `s` that matches `addr`.
pub open spec fn lookup(s: Seq<Route>, addr: IpAddr) -> Option<u32>
    decreases s.len(),
{
    if s.len() == 0 {
        None
    } else if s[0].pfx.spec_matches(addr) {
        Some(s[0].iface)
    } else {
        lookup(s.drop_first(), addr)
    }
}

/// Route `i` of `s` matches `addr`, no matching route of `s` is longer, and
/// of the matching routes of its length it is the first.
pub open spec fn preferred(s: Seq<Route>, addr: IpAddr, i: int) -> bool {
    &&& 0 <= i < s.len()
    &&& s[i].pfx.spec_matches(addr)
    &&& forall|j: int|
        0 <= j < s.len() && #[trigger] s[j].pfx.spec_matches(addr) ==> s[j].pfx.bits
            < s[i].pfx.bits || (s[j].pfx.bits == s[i].pfx.bits && i <= j)
}

/// The routing table: routes ordered by descending prefix length.
pub struct Rtbl {
    routes: Vec<Route>,
}

impl View for Rtbl {
    type V = Seq<Route>;

    closed spec fn view(&self) -> Seq<Route> {
        self.routes@
    }
}

impl Rtbl {
    #[verifier::type_invariant]
    spec fn ordered(&self) -> bool {
        descending(self.routes@)
    }

    /// The table of the given routes. Longer prefixes come first; routes of
    /// one length keep the order in which they were given.
    pub fn new(routes: Vec<Route>) -> (t: Rtbl)
        ensures
            t@ == longest_first(routes@, 0),
            descending(t@),
    {
        let mut out: Vec<Route> = Vec::new();
        let mut len: u16 = 256;
        while len > 0
            invariant
                len <= 256,
                out@ == longest_first(routes@, len as int),
            decreases len,
        {
            len = len - 1;
            let mut i: usize = 0;
            proof {
                crate::seqs::lemma_filter_empty(|r: Route| r.pfx.bits == len as int);
                assert(routes@.take(0) =~= Seq::<Route>::empty());
            }
            while i < routes.len()
                invariant
                    i <= routes.len(),
                    len < 256,
                    out@ == longest_first(routes@, len + 1) + with_length(
                        routes@.take(i as int),
                        len as int,
                    ),
                decreases routes.len() - i,
            {
                proof {
                    crate::seqs::lemma_filter_take_step(
                        routes@,
                        |r: Route| r.pfx.bits == len as int,
                        i as int,
                    );
                }
                if routes[i].pfx.bits as u16 == len {
                    out.push(routes[i]);
                }
                i = i + 1;
            }
            assert(routes@.take(routes.len() as int) =~= routes@);
        }
        proof {
            lemma_longest_first_descending(routes@, 0);
        }
        Rtbl { routes: out }
    }

    /// The interface that owns `addr`: that of the first route in the table
    /// that matches. Since the table is ordered, no matching route is longer.
    pub fn route(&self, addr: IpAddr) -> (r: Option<u32>)
        ensures
            r == lookup(self@, addr),
            descending(self@),
    {
        proof {
            use_type_invariant(self);
        }
        let mut i: usize = 0;
        assert(self.routes@.skip(0) =~= self.routes@);
        while i < self.routes.len()
            invariant
                i <= self.routes.len(),
                descending(self.routes@),
                lookup(self.routes@, addr) == lookup(self.routes@.skip(i as int), addr),
            decreases self.routes.len() - i,
        {
            let ghost rest = self.routes@.skip(i as int);
            assert(rest[0] == self.routes@[i as int]);
            assert(rest.drop_first() =~= self.routes@.skip(i + 1));
            if self.routes[i].pfx.matches(addr) {
                return Some(self.routes[i].iface);
            }
            i = i + 1;
        }
        None
    }

    /// The prefixes that `iface` owns, in table order.
    pub fn for_iface(&self, iface: u32) -> (r: Vec<Prefix>)
        ensures
            r@ == self@.filter(|x: Route| x.iface == iface).map_values(|x: Route| x.pfx),
    {
        let mut out: Vec<Prefix> = Vec::new();
        let mut i: usize = 0;
        let ghost pred = |x: Route| x.iface == iface;
        let ghost pick = |x: Route| x.pfx;
        proof {
            crate::seqs::lemma_filter_empty(pred);
            assert(self.routes@.take(0) =~= Seq::<Route>::empty());
        }
        while i < self.routes.len()
            invariant
                i <= self.routes.len(),
                pred == (|x: Route| x.iface == iface),
                pick == (|x: Route| x.pfx),
                out@ =~= self.routes@.take(i as int).filter(pred).map_values(pick),
            decreases self.routes.len() - i,
        {
            proof {
                crate::seqs::lemma_filter_take_step(self.routes@, pred, i as int);
            }
            if self.routes[i].iface == iface {
                out.push(self.routes[i].pfx);
            }
            i = i + 1;
        }
        assert(self.routes@.take(self.routes.len() as int) =~= self.routes@);
        out
    }

    /// Number of routes in the table.
    pub fn len(&self) -> (n: usize)
        ensures
            n == self@.len(),
    {
        self.routes.len()
    }
}

impl Default for Rtbl {
    /// The table without routes, in which no address has an owner.
    fn default() -> (t: Rtbl)
        ensures
            t@ == Seq::<Route>::empty(),
    {
        Rtbl { routes: Vec::new() }
    }
}

/// Every route of `longest_first(s, from)` is a route of `s` with at least
/// `from` bits, and the sequence is descending.
pub proof fn lemma_longest_first_descending(s: Seq<Route>, from: int)
    requires
        0 <= from <= 256,
    ensures
        descending(longest_first(s, from)),
        forall|k: int|
            0 <= k < longest_first(s, from).len() ==> (#[trigger] longest_first(
                s,
                from,
            )[k]).pfx.bits >= from && s.contains(longest_first(s, from)[k]),
    decreases 256 - from,
{
    if from < 256 {
        lemma_longest_first_descending(s, from + 1);
        crate::seqs::lemma_filter_members(s, |r: Route| r.pfx.bits == from);
    }
}

/// Looking an address up in two sequences in turn: the first answers if it
/// can, else the second.
pub proof fn lemma_lookup_concat(a: Seq<Route>, b: Seq<Route>, addr: IpAddr)
    ensures
        lookup(a + b, addr) == (match lookup(a, addr) {
            Some(x) => Some(x),
            None => lookup(b, addr),
        }),
    decreases a.len(),
{
    if a.len() == 0 {
        assert(a + b =~= b);
    } else {
        assert((a + b)[0] == a[0]);
        assert((a + b).drop_first() =~= a.drop_first() + b);
        lemma_lookup_concat(a.drop_first(), b, addr);
    }
}

/// A lookup finds nothing exactly if no route matches; what it finds is the
/// interface of a matching route before which none matches.
pub proof fn lemma_lookup_first_match(s: Seq<Route>, addr: IpAddr)
    ensures
        lookup(s, addr) is None <==> forall|j: int|
            0 <= j < s.len() ==> !(#[trigger] s[j]).pfx.spec_matches(addr),
        lookup(s, addr) is Some ==> exists|i: int|
            0 <= i < s.len() && (#[trigger] s[i]).pfx.spec_matches(addr) && lookup(s, addr) == Some(
                s[i].iface,
            ) && forall|j: int| 0 <= j < i ==> !(#[trigger] s[j]).pfx.spec_matches(addr),
    decreases s.len(),
{
    if s.len() > 0 {
        if s[0].pfx.spec_matches(addr) {
            assert(forall|j: int| 0 <= j < 0 ==> !(#[trigger] s[j]).pfx.spec_matches(addr));
        } else {
            let t = s.drop_first();
            lemma_lookup_first_match(t, addr);
            assert(forall|j: int| 0 <= j < t.len() ==> t[j] == s[j + 1]);
            if lookup(t, addr) is Some {
                let i = choose|i: int|
                    0 <= i < t.len() && (#[trigger] t[i]).pfx.spec_matches(addr) && lookup(t, addr)
                        == Some(t[i].iface) && forall|j: int|
                        0 <= j < i ==> !(#[trigger] t[j]).pfx.spec_matches(addr);
                assert(s[i + 1] == t[i]);
                assert forall|j: int| 0 <= j < i + 1 implies !(#[trigger] s[j]).pfx.spec_matches(
                    addr,
                ) by {
                    if j > 0 {
                        assert(s[j] == t[j - 1]);
                    }
                }
            } else {
                assert forall|j: int| 0 <= j < s.len() implies !(#[trigger] s[j]).pfx.spec_matches(
                    addr,
                ) by {
                    if j > 0 {
                        assert(s[j] == t[j - 1]);
                    }
                }
            }
        }
    }
}

/// Route `i` of `s` has at least `from` bits and matches `addr`; of the
/// matching routes with at least `from` bits none is longer, and of those of
/// its length it is the first.
pub open spec fn preferred_from(s: Seq<Route>, addr: IpAddr, i: int, from: int) -> bool {
    &&& 0 <= i < s.len()
    &&& s[i].pfx.spec_matches(addr)
    &&& s[i].pfx.bits >= from
    &&& forall|j: int|
        0 <= j < s.len() && #[trigger] s[j].pfx.spec_matches(addr) && s[j].pfx.bits >= from
            ==> s[j].pfx.bits < s[i].pfx.bits || (s[j].pfx.bits == s[i].pfx.bits && i <= j)
}

/// Among the first `n` routes of `s`, a lookup in those of length `len`
/// finds the first of them that matches.
proof fn lemma_lookup_with_length(s: Seq<Route>, len: int, addr: IpAddr, n: int)
    requires
        0 <= n <= s.len(),
    ensures
        lookup(with_length(s.take(n), len), addr) is None ==> forall|j: int|
            0 <= j < n && (#[trigger] s[j]).pfx.bits == len ==> !s[j].pfx.spec_matches(addr),
        lookup(with_length(s.take(n), len), addr) is Some ==> exists|i: int|
            0 <= i < n && (#[trigger] s[i]).pfx.bits == len && s[i].pfx.spec_matches(addr)
                && lookup(with_length(s.take(n), len), addr) == Some(s[i].iface) && forall|j: int|
                0 <= j < i && (#[trigger] s[j]).pfx.bits == len ==> !s[j].pfx.spec_matches(addr),
    decreases n,
{
    let pred = |r: Route| r.pfx.bits == len;
    if n == 0 {
        crate::seqs::lemma_filter_empty(pred);
        assert(s.take(0) =~= Seq::<Route>::empty());
    } else {
        lemma_lookup_with_length(s, len, addr, n - 1);
        crate::seqs::lemma_filter_take_step(s, pred, n - 1);
        let before = with_length(s.take(n - 1), len);
        let r = s[n - 1];
        if r.pfx.bits == len {
            assert(before.push(r) =~= before + seq![r]);
            lemma_lookup_concat(before, seq![r], addr);
            assert(seq![r].drop_first() =~= Seq::<Route>::empty());
            assert(lookup(seq![r], addr) == if r.pfx.spec_matches(addr) {
                Some(r.iface)
            } else {
                None::<u32>
            }) by {
                reveal_with_fuel(lookup, 2);
            }
            if lookup(before, addr) is None && r.pfx.spec_matches(addr) {
                assert(s[n - 1].pfx.bits == len);
            }
        }
    }
}

/// What a lookup in `longest_first(s, from)` finds is the interface of a
/// route that `preferred_from` singles out; it finds nothing only if no
/// route with at least `from` bits matches.
proof fn lemma_lookup_longest_first(s: Seq<Route>, addr: IpAddr, from: int)
    requires
        0 <= from <= 256,
    ensures
        lookup(longest_first(s, from), addr) is None ==> forall|j: int|
            0 <= j < s.len() && (#[trigger] s[j]).pfx.bits >= from ==> !s[j].pfx.spec_matches(addr),
        lookup(longest_first(s, from), addr) is Some ==> exists|i: int|
            #[trigger] preferred_from(s, addr, i, from) && lookup(longest_first(s, from), addr)
                == Some(s[i].iface),
    decreases 256 - from,
{
    if from < 256 {
        let longer = longest_first(s, from + 1);
        let same = with_length(s, from);
        lemma_lookup_longest_first(s, addr, from + 1);
        lemma_lookup_concat(longer, same, addr);
        lemma_lookup_with_length(s, from, addr, s.len() as int);
        assert(s.take(s.len() as int) =~= s);
        if lookup(longer, addr) is Some {
            let i = choose|i: int|
                #[trigger] preferred_from(s, addr, i, from + 1) && lookup(longer, addr) == Some(
                    s[i].iface,
                );
            assert(preferred_from(s, addr, i, from));
        } else if lookup(same, addr) is Some {
            let i = choose|i: int|
                0 <= i < s.len() && (#[trigger] s[i]).pfx.bits == from && s[i].pfx.spec_matches(
                    addr,
                ) && lookup(same, addr) == Some(s[i].iface) && forall|j: int|
                    0 <= j < i && (#[trigger] s[j]).pfx.bits == from ==> !s[j].pfx.spec_matches(
                        addr,
                    );
            assert(preferred_from(s, addr, i, from));
        }
    }
}

/// Longest-prefix match. In the table built from `routes`, a lookup answers
/// with the interface of a matching route than which no matching route is
/// longer and which, among the matching routes of its length, was given
/// first. It answers nothing exactly if no route matches.
pub proof fn lemma_longest_prefix_match(routes: Seq<Route>, addr: IpAddr)
    ensures
        lookup(longest_first(routes, 0), addr) is None <==> forall|j: int|
            0 <= j < routes.len() ==> !(#[trigger] routes[j]).pfx.spec_matches(addr),
        lookup(longest_first(routes, 0), addr) is Some ==> exists|i: int|
            #[trigger] preferred(routes, addr, i) && lookup(longest_first(routes, 0), addr)
                == Some(routes[i].iface),
{
    lemma_lookup_longest_first(routes, addr, 0);
    if lookup(longest_first(routes, 0), addr) is Some {
        let i = choose|i: int|
            #[trigger] preferred_from(routes, addr, i, 0) && lookup(
                longest_first(routes, 0),
                addr,
            ) == Some(routes[i].iface);
        assert(preferred(routes, addr, i));
    }
}

} // verus!
