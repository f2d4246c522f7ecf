//! Framing of kernel dump responses: reassembly of framed messages from
//! received buffers, and what each kind of message means for a dump.

use vstd::prelude::*;

verus! {

/// Number of bytes in the header that starts every framed message.
pub const HEADER_LEN: usize = 16;

/// Size of the buffer that a caller hands to each receive call.
pub const RECEIVE_BUFFER_LEN: usize = 4096;

/// Header flag: the message is a request.
pub const FLAG_REQUEST: u16 = 1;

/// Header flag: the sender asks for an acknowledgement.
pub const FLAG_ACK: u16 = 4;

/// Header flags: the request asks for all matching records.
pub const FLAG_DUMP: u16 = 0x300;

/// The number that four bytes denote, least significant byte first.
pub open spec fn le_u32(b0: u8, b1: u8, b2: u8, b3: u8) -> int {
    b0 as int + b1 as int * 0x100 + b2 as int * 0x1_0000 + b3 as int * 0x100_0000
}

/// The length that the first four bytes of a framed message declare, in the
/// given byte order. The kernel writes it in the byte order of the host.
pub open spec fn declared_len(bytes: Seq<u8>, big_endian: bool) -> int
    recommends
        bytes.len() >= 4,
{
    if big_endian {
        le_u32(bytes[3], bytes[2], bytes[1], bytes[0])
    } else {
        le_u32(bytes[0], bytes[1], bytes[2], bytes[3])
    }
}

/// What walking over buffered bytes finds: the complete frames at their
/// start, in order, and the bytes that are left for a later walk.
///
/// A frame spans as many bytes as its first four bytes declare, and the next
/// frame starts right behind it. Bytes that do not yet hold a whole frame are
/// left. A frame that declares no length at all ends the walk and leaves
/// nothing: whatever was buffered behind it is dropped.
pub open spec fn walk(bytes: Seq<u8>, big_endian: bool) -> (Seq<Seq<u8>>, Seq<u8>)
    decreases bytes.len(),
{
    if bytes.len() < 4 {
        (Seq::empty(), bytes)
    } else {
        let n = declared_len(bytes, big_endian);
        if n == 0 {
            (Seq::empty(), Seq::empty())
        } else if n > bytes.len() {
            (Seq::empty(), bytes)
        } else {
            let later = walk(bytes.skip(n), big_endian);
            (seq![bytes.take(n)] + later.0, later.1)
        }
    }
}

/// Whether a walk over `bytes` comes upon a frame that declares no length.
pub open spec fn meets_empty_frame(bytes: Seq<u8>, big_endian: bool) -> bool
    decreases bytes.len(),
{
    if bytes.len() < 4 {
        false
    } else {
        let n = declared_len(bytes, big_endian);
        if n == 0 {
            true
        } else if n > bytes.len() {
            false
        } else {
            meets_empty_frame(bytes.skip(n), big_endian)
        }
    }
}

/// The contents of each buffer of a list.
pub open spec fn contents(frames: Seq<Vec<u8>>) -> Seq<Seq<u8>> {
    frames.map_values(|f: Vec<u8>| f@)
}

/// The two-byte number 1 as the host lays it out, read least significant byte
/// first: 1 on a little-endian host, 256 on a big-endian one.
///
/// Wraps `u16::to_le`, of which the standard library documents that it is
/// the identity on little-endian hosts and swaps the bytes on others.
#[verifier::external_body]
fn one_in_host_order() -> (r: u16)
    ensures
        r == 1 || r == 256,
{
    1u16.to_le()
}

/// Whether this host stores numbers most significant byte first.
pub fn host_is_big_endian() -> bool {
    one_in_host_order() != 1
}

/// Reads the four bytes at `at` as a number in the given byte order.
fn read_u32(bytes: &Vec<u8>, at: usize, big_endian: bool) -> (r: u32)
    requires
        at + 4 <= bytes.len(),
    ensures
        r == declared_len(bytes@.skip(at as int), big_endian),
{
    let b0: u32 = bytes[at] as u32;
    let b1: u32 = bytes[at + 1] as u32;
    let b2: u32 = bytes[at + 2] as u32;
    let b3: u32 = bytes[at + 3] as u32;
    if big_endian {
        b3 + b2 * 0x100 + b1 * 0x1_0000 + b0 * 0x100_0000
    } else {
        b0 + b1 * 0x100 + b2 * 0x1_0000 + b3 * 0x100_0000
    }
}

/// A copy of the bytes `from..to` of `bytes`.
fn copy_range(bytes: &Vec<u8>, from: usize, to: usize) -> (r: Vec<u8>)
    requires
        from <= to <= bytes.len(),
    ensures
        r@ == bytes@.subrange(from as int, to as int),
{
    let mut out: Vec<u8> = Vec::new();
    let mut i: usize = from;
    while i < to
        invariant
            from <= i <= to <= bytes.len(),
            out@ == bytes@.subrange(from as int, i as int),
        decreases to - i,
    {
        out.push(bytes[i]);
        i = i + 1;
    }
    out
}

/// Collects received bytes and hands out the framed messages they hold,
/// however the bytes were cut into receive calls.
pub struct Reassembler {
    pending: Vec<u8>,
    big_endian: bool,
}

impl Reassembler {
    /// The bytes received so far that belong to no complete frame yet.
    pub closed spec fn pending(&self) -> Seq<u8> {
        self.pending@
    }

    /// Whether length fields are read most significant byte first.
    pub closed spec fn big_endian(&self) -> bool {
        self.big_endian
    }

    /// A reassembler that reads length fields in the given byte order.
    pub fn with_byte_order(big_endian: bool) -> (r: Reassembler)
        ensures
            r.pending() == Seq::<u8>::empty(),
            r.big_endian() == big_endian,
    {
        Reassembler { pending: Vec::new(), big_endian }
    }

    /// A reassembler that reads length fields in the byte order of this host.
    pub fn new() -> (r: Reassembler)
        ensures
            r.pending() == Seq::<u8>::empty(),
    {
        Reassembler::with_byte_order(host_is_big_endian())
    }

    /// Number of bytes that wait for the rest of their frame.
    pub fn pending_len(&self) -> (n: usize)
        ensures
            n == self.pending().len(),
    {
        self.pending.len()
    }

    /// Takes the bytes of one receive call and returns the frames that are
    /// now complete, in order: those that a walk over the bytes left by
    /// earlier calls followed by `chunk` finds. What the walk leaves waits
    /// for the next call.
    pub fn feed(&mut self, chunk: &[u8]) -> (frames: Vec<Vec<u8>>)
        ensures
            final(self).big_endian() == old(self).big_endian(),
            contents(frames@) == walk(old(self).pending() + chunk@, old(self).big_endian()).0,
            final(self).pending() == walk(old(self).pending() + chunk@, old(self).big_endian()).1,
    {
        let mut all: Vec<u8> = Vec::new();
        let mut k: usize = 0;
        while k < self.pending.len()
            invariant
                k <= self.pending.len(),
                all@ == self.pending@.take(k as int),
            decreases self.pending.len() - k,
        {
            all.push(self.pending[k]);
            k = k + 1;
        }
        assert(self.pending@.take(self.pending.len() as int) =~= self.pending@);
        let mut c: usize = 0;
        while c < chunk.len()
            invariant
                c <= chunk.len(),
                all@ == self.pending@ + chunk@.take(c as int),
            decreases chunk.len() - c,
        {
            all.push(chunk[c]);
            c = c + 1;
        }
        assert(chunk@.take(chunk.len() as int) =~= chunk@);
        let ghost whole = all@;
        let big_endian = self.big_endian;
        let mut frames: Vec<Vec<u8>> = Vec::new();
        let mut offset: usize = 0;
        let mut reset = false;
        assert(whole.skip(0) =~= whole);
        assert(contents(frames@) =~= Seq::<Seq<u8>>::empty());
        loop
            invariant_except_break
                !reset,
            invariant
                all@ == whole,
                offset <= all.len(),
                walk(whole, big_endian).0 =~= contents(frames@) + walk(
                    whole.skip(offset as int),
                    big_endian,
                ).0,
                walk(whole, big_endian).1 == walk(whole.skip(offset as int), big_endian).1,
            ensures
                walk(whole.skip(offset as int), big_endian).0 == Seq::<Seq<u8>>::empty(),
                walk(whole.skip(offset as int), big_endian).1 == if reset {
                    Seq::<u8>::empty()
                } else {
                    whole.skip(offset as int)
                },
            decreases all.len() - offset,
        {
            if all.len() - offset < 4 {
                break ;
            }
            let n = read_u32(&all, offset, big_endian) as usize;
            if n == 0 {
                reset = true;
                break ;
            }
            if n > all.len() - offset {
                break ;
            }
            let frame = copy_range(&all, offset, offset + n);
            proof {
                let here = whole.skip(offset as int);
                assert(here.take(n as int) =~= whole.subrange(offset as int, offset + n));
                assert(here.skip(n as int) =~= whole.skip(offset + n));
                assert(contents(frames@.push(frame)) =~= contents(frames@) + seq![frame@]);
            }
            frames.push(frame);
            offset = offset + n;
        }
        if reset {
            self.pending = Vec::new();
        } else {
            self.pending = copy_range(&all, offset, all.len());
            assert(whole.subrange(offset as int, whole.len() as int) =~= whole.skip(offset as int));
        }
        frames
    }
}

/// Reassembly across receive calls. Bytes delivered in two calls yield the
/// frames, and leave the bytes, that the same bytes yield when delivered in
/// one call, unless the first part already holds a frame that declares no
/// length (which drops what was buffered with it).
pub proof fn lemma_split_delivery(a: Seq<u8>, b: Seq<u8>, big_endian: bool)
    requires
        !meets_empty_frame(a, big_endian),
    ensures
        walk(a + b, big_endian).0 == walk(a, big_endian).0 + walk(
            walk(a, big_endian).1 + b,
            big_endian,
        ).0,
        walk(a + b, big_endian).1 == walk(walk(a, big_endian).1 + b, big_endian).1,
    decreases a.len(),
{
    let found = walk(a, big_endian).0;
    let left = walk(a, big_endian).1;
    if a.len() >= 4 {
        let n = declared_len(a, big_endian);
        assert(declared_len(a + b, big_endian) == n);
        if 0 < n <= a.len() {
            lemma_split_delivery(a.skip(n), b, big_endian);
            assert((a + b).take(n) =~= a.take(n));
            assert((a + b).skip(n) =~= a.skip(n) + b);
            assert(walk(a + b, big_endian).0 =~= found + walk(left + b, big_endian).0);
        } else {
            assert(found + walk(left + b, big_endian).0 =~= walk(a + b, big_endian).0);
        }
    } else {
        assert(found + walk(left + b, big_endian).0 =~= walk(a + b, big_endian).0);
    }
}

/// One framed message cut in two at any place: the first part yields no
/// frame, and the second part then yields exactly the message, as the whole
/// message does when it arrives in one call. Nothing is left either way.
pub proof fn lemma_split_message(m: Seq<u8>, cut: int, big_endian: bool)
    requires
        m.len() >= 4,
        declared_len(m, big_endian) == m.len(),
        0 <= cut < m.len(),
    ensures
        walk(m, big_endian) == (seq![m], Seq::<u8>::empty()),
        walk(m.take(cut), big_endian) == (Seq::<Seq<u8>>::empty(), m.take(cut)),
        walk(walk(m.take(cut), big_endian).1 + m.skip(cut), big_endian) == walk(m, big_endian),
{
    let a = m.take(cut);
    assert(a + m.skip(cut) =~= m);
    assert(m.take(m.len() as int) =~= m);
    assert(m.skip(m.len() as int) =~= Seq::<u8>::empty());
    assert(walk(Seq::<u8>::empty(), big_endian) == (Seq::<Seq<u8>>::empty(), Seq::<u8>::empty()));
    assert(walk(m, big_endian).0 =~= seq![m]);
    if cut >= 4 {
        assert(declared_len(a, big_endian) == declared_len(m, big_endian));
    }
}

/// What the payload of one framed message turns out to be.
#[derive(Clone, Copy, Debug, PartialEq, Eq, Structural)]
pub enum Signal {
    /// The frame could not be decoded.
    Garbled,
    /// A message without content.
    Noop,
    /// An error reply with its code; code 0 acknowledges the request.
    Error(i32),
    /// The end of a dump.
    Done,
    /// The kernel lost data.
    Overrun,
    /// A message of the protocol that was asked.
    Inner,
}

/// Why a dump failed.
#[derive(Clone, Copy, Debug, PartialEq, Eq, Structural)]
pub enum TransportError {
    /// A frame could not be decoded.
    Undecodable,
    /// The kernel answered the request with this error code.
    Rejected(i32),
    /// A message of a type that no dump should hold, with that type.
    Unexpected(u16),
}

/// Where a dump stands.
#[derive(Clone, Copy, Debug, PartialEq, Eq, Structural)]
pub enum DumpState {
    /// More messages are awaited.
    Receiving,
    /// The kernel has ended the dump.
    Finished,
    /// The dump was given up.
    Failed(TransportError),
}

/// Message type of a report of lost data.
pub const TYPE_OVERRUN: u16 = 4;

/// The state after a message in state `state`, and whether the message is
/// handed to the consumer of the dump.
///
/// While receiving: a message of the protocol is handed on, one without
/// content is passed over; the end mark and an acknowledgement finish the
/// dump; an error code, a report of lost data and a frame that cannot be
/// decoded fail it. After the end or a failure nothing changes any more.
pub open spec fn step(state: DumpState, signal: Signal) -> (DumpState, bool) {
    match state {
        DumpState::Receiving => match signal {
            Signal::Inner => (DumpState::Receiving, true),
            Signal::Noop => (DumpState::Receiving, false),
            Signal::Done => (DumpState::Finished, false),
            Signal::Error(code) => if code == 0 {
                (DumpState::Finished, false)
            } else {
                (DumpState::Failed(TransportError::Rejected(code)), false)
            },
            Signal::Overrun => (DumpState::Failed(TransportError::Unexpected(TYPE_OVERRUN)), false),
            Signal::Garbled => (DumpState::Failed(TransportError::Undecodable), false),
        },
        _ => (state, false),
    }
}

/// The state after a sequence of messages, starting in `state`.
pub open spec fn run(state: DumpState, signals: Seq<Signal>) -> DumpState
    decreases signals.len(),
{
    if signals.len() == 0 {
        state
    } else {
        run(step(state, signals[0]).0, signals.drop_first())
    }
}

/// The receive side of one dump: a reassembler and the state of the dump.
pub struct Dump {
    frames: Reassembler,
    state: DumpState,
}

impl Dump {
    /// Where the dump stands.
    pub closed spec fn spec_state(&self) -> DumpState {
        self.state
    }

    /// The reassembler of the dump.
    pub closed spec fn reassembler(&self) -> Reassembler {
        self.frames
    }

    /// A dump that awaits its first message and reads length fields in the
    /// byte order of this host.
    pub fn new() -> (d: Dump)
        ensures
            d.spec_state() == DumpState::Receiving,
            d.reassembler().pending() == Seq::<u8>::empty(),
    {
        Dump { frames: Reassembler::new(), state: DumpState::Receiving }
    }

    /// A dump that awaits its first message and reads length fields in the
    /// given byte order.
    pub fn with_byte_order(big_endian: bool) -> (d: Dump)
        ensures
            d.spec_state() == DumpState::Receiving,
            d.reassembler().pending() == Seq::<u8>::empty(),
            d.reassembler().big_endian() == big_endian,
    {
        Dump { frames: Reassembler::with_byte_order(big_endian), state: DumpState::Receiving }
    }

    /// Where the dump stands.
    #[verifier::when_used_as_spec(spec_state)]
    pub fn state(&self) -> (s: DumpState)
        ensures
            s == self.spec_state(),
    {
        self.state
    }

    /// Whether more bytes are to be received.
    pub fn is_receiving(&self) -> (r: bool)
        ensures
            r == (self.spec_state() == DumpState::Receiving),
    {
        match self.state {
            DumpState::Receiving => true,
            _ => false,
        }
    }

    /// Takes the bytes of one receive call and returns the frames that are
    /// now complete. The state of the dump stays as it is.
    pub fn feed(&mut self, chunk: &[u8]) -> (frames: Vec<Vec<u8>>)
        ensures
            final(self).spec_state() == old(self).spec_state(),
            final(self).reassembler().big_endian() == old(self).reassembler().big_endian(),
            contents(frames@) == walk(
                old(self).reassembler().pending() + chunk@,
                old(self).reassembler().big_endian(),
            ).0,
            final(self).reassembler().pending() == walk(
                old(self).reassembler().pending() + chunk@,
                old(self).reassembler().big_endian(),
            ).1,
    {
        self.frames.feed(chunk)
    }

    /// Takes note of the next message of the dump and says whether it is to
    /// be handed to the consumer.
    pub fn note(&mut self, signal: Signal) -> (deliver: bool)
        ensures
            final(self).spec_state() == step(old(self).spec_state(), signal).0,
            deliver == step(old(self).spec_state(), signal).1,
            final(self).reassembler() == old(self).reassembler(),
    {
        match self.state {
            DumpState::Receiving => match signal {
                Signal::Inner => true,
                Signal::Noop => false,
                Signal::Done => {
                    self.state = DumpState::Finished;
                    false
                },
                Signal::Error(code) => {
                    if code == 0 {
                        self.state = DumpState::Finished;
                    } else {
                        self.state = DumpState::Failed(TransportError::Rejected(code));
                    }
                    false
                },
                Signal::Overrun => {
                    self.state = DumpState::Failed(TransportError::Unexpected(TYPE_OVERRUN));
                    false
                },
                Signal::Garbled => {
                    self.state = DumpState::Failed(TransportError::Undecodable);
                    false
                },
            },
            _ => false,
        }
    }
}

/// A dump that has finished or failed stays so.
pub proof fn lemma_terminal_state_absorbs(state: DumpState, signals: Seq<Signal>)
    requires
        state != DumpState::Receiving,
    ensures
        run(state, signals) == state,
    decreases signals.len(),
{
    if signals.len() > 0 {
        lemma_terminal_state_absorbs(state, signals.drop_first());
    }
}

/// Dump termination. If all messages before position `i` are messages of
/// the protocol or without content, then an end mark or an acknowledgement
/// at `i` finishes the dump without error, and an error code at `i` fails it
/// with that code; whatever follows changes nothing.
pub proof fn lemma_dump_termination(signals: Seq<Signal>, i: int)
    requires
        0 <= i < signals.len(),
        forall|j: int| 0 <= j < i ==> signals[j] == Signal::Inner || signals[j] == Signal::Noop,
    ensures
        signals[i] == Signal::Done || signals[i] == Signal::Error(0) ==> run(
            DumpState::Receiving,
            signals,
        ) == DumpState::Finished,
        forall|code: i32|
            code != 0 && signals[i] == Signal::Error(code) ==> run(DumpState::Receiving, signals)
                == DumpState::Failed(TransportError::Rejected(code)),
    decreases i,
{
    let rest = signals.drop_first();
    if i == 0 {
        let next = step(DumpState::Receiving, signals[0]).0;
        if next != DumpState::Receiving {
            lemma_terminal_state_absorbs(next, rest);
        }
    } else {
        assert(signals[0] == Signal::Inner || signals[0] == Signal::Noop);
        assert(rest[i - 1] == signals[i]);
        assert forall|j: int| 0 <= j < i - 1 implies rest[j] == Signal::Inner || rest[j]
            == Signal::Noop by {
            assert(rest[j] == signals[j + 1]);
        }
        lemma_dump_termination(rest, i - 1);
    }
}

} // verus!
