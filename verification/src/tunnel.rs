//! Listen ports of tunnel interfaces.

use vstd::prelude::*;

verus! {

/// A tunnel interface and the port on which it listens.
#[derive(Clone, Copy, Debug, PartialEq, Eq, Structural)]
pub struct TunnelPort {
    pub iface: u32,
    pub port: u16,
}

/// The interface of the first entry of `entries` that listens on `port`.
pub open spec fn owner_of(entries: Seq<TunnelPort>, port: u16) -> Option<u32>
    decreases entries.len(),
{
    if entries.len() == 0 {
        None
    } else if entries[0].port == port {
        Some(entries[0].iface)
    } else {
        owner_of(entries.drop_first(), port)
    }
}

/// Which tunnel interface owns which port. Where two interfaces report one
/// port, the port stays with the interface that reported it first.
pub struct TunnelPorts {
    entries: Vec<TunnelPort>,
}

impl View for TunnelPorts {
    type V = Seq<TunnelPort>;

    closed spec fn view(&self) -> Seq<TunnelPort> {
        self.entries@
    }
}

impl TunnelPorts {
    /// No port is owned.
    pub fn new() -> (t: TunnelPorts)
        ensures
            t@ == Seq::<TunnelPort>::empty(),
    {
        TunnelPorts { entries: Vec::new() }
    }

    /// The interface that owns `port`.
    pub fn owner(&self, port: u16) -> (r: Option<u32>)
        ensures
            r == owner_of(self@, port),
    {
        let mut i: usize = 0;
        assert(self.entries@.skip(0) =~= self.entries@);
        while i < self.entries.len()
            invariant
                i <= self.entries.len(),
                owner_of(self.entries@, port) == owner_of(self.entries@.skip(i as int), port),
            decreases self.entries.len() - i,
        {
            assert(self.entries@.skip(i as int)[0] == self.entries@[i as int]);
            assert(self.entries@.skip(i as int).drop_first() =~= self.entries@.skip(i + 1));
            if self.entries[i].port == port {
                return Some(self.entries[i].iface);
            }
            i = i + 1;
        }
        None
    }

    /// Records that `iface` listens on `port`. A port that has an owner keeps
    /// it; if that owner is another interface, it is returned, so that the
    /// caller can warn of the collision.
    pub fn claim(&mut self, iface: u32, port: u16) -> (collision: Option<u32>)
        ensures
            match owner_of(old(self)@, port) {
                Some(first) => final(self)@ == old(self)@ && collision == if first != iface {
                    Some(first)
                } else {
                    None
                },
                None => final(self)@ == old(self)@.push(TunnelPort { iface, port })
                    && collision is None,
            },
    {
        match self.owner(port) {
            Some(first) => if first != iface {
                Some(first)
            } else {
                None
            },
            None => {
                self.entries.push(TunnelPort { iface, port });
                None
            },
        }
    }

    /// The entries in the order in which they were recorded.
    pub fn entries(&self) -> (r: Vec<TunnelPort>)
        ensures
            r@ == self@,
    {
        self.entries.clone()
    }

    /// Number of ports that have an owner.
    pub fn len(&self) -> (n: usize)
        ensures
            n == self@.len(),
    {
        self.entries.len()
    }
}

/// The owner of a port after one more entry: the owner so far, or, if there
/// was none and the entry names the port, the entry's interface.
pub proof fn lemma_owner_after_push(entries: Seq<TunnelPort>, e: TunnelPort, port: u16)
    ensures
        owner_of(entries.push(e), port) == (match owner_of(entries, port) {
            Some(first) => Some(first),
            None => if e.port == port {
                Some(e.iface)
            } else {
                None
            },
        }),
    decreases entries.len(),
{
    if entries.len() == 0 {
        assert(entries.push(e).drop_first() =~= Seq::<TunnelPort>::empty());
        assert(owner_of(Seq::<TunnelPort>::empty(), port) is None);
    } else {
        assert(entries.push(e)[0] == entries[0]);
        assert(entries.push(e).drop_first() =~= entries.drop_first().push(e));
        lemma_owner_after_push(entries.drop_first(), e, port);
    }
}

/// First claim wins. After `iface` claims `port`, the port belongs to the
/// interface that had it before, or to `iface` if none had; every other port
/// belongs to whom it belonged.
pub proof fn lemma_first_claim_wins(before: Seq<TunnelPort>, iface: u32, port: u16, other: u16)
    requires
        other != port,
    ensures
        ({
            let after = match owner_of(before, port) {
                Some(_) => before,
                None => before.push(TunnelPort { iface, port }),
            };
            &&& owner_of(after, port) == (match owner_of(before, port) {
                Some(first) => Some(first),
                None => Some(iface),
            })
            &&& owner_of(after, other) == owner_of(before, other)
        }),
{
    lemma_owner_after_push(before, TunnelPort { iface, port }, port);
    lemma_owner_after_push(before, TunnelPort { iface, port }, other);
}

} // verus!
