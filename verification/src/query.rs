//! The records that the dumps deliver.

use vstd::prelude::*;
use crate::links::{link_record, reads_link, LinkRecord, LinkReport};
use crate::routes::{reads_route, route_record, RouteRecord, RouteReport};
use crate::seqs::present;
use crate::sock::InetRecord;
use crate::transport::{step, run, Dump, DumpState, Signal};
use crate::wg::{family_ids, listen_ports};

verus! {

/// One message of a dump, read into the values that the discovery needs.
pub enum Record {
    /// A reported interface.
    Link(LinkRecord),
    /// A reported route.
    Route(RouteRecord),
    /// A reported socket.
    Inet(InetRecord),
    /// The family identifiers in an answer of the control family, in order.
    Family(Vec<u16>),
    /// The listen ports in a report of a tunnel device, in order.
    Device(Vec<u16>),
    /// A message that the discovery has no use for.
    Other,
}

/// What one decoded message of the link and route protocol or of the
/// generic protocol holds, attribute by attribute.
pub enum Report {
    /// A reported interface.
    Link(LinkReport),
    /// A reported route.
    Route(RouteReport),
    /// What each attribute of an answer of the control family holds: its
    /// family identifier, if it is one.
    Family(Vec<Option<u16>>),
    /// What each attribute of a report of a tunnel device holds: its listen
    /// port, if it is one.
    Device(Vec<Option<u16>>),
    /// A message that the discovery has no use for.
    Other,
}

/// `record` is what the discovery reads of `report`.
pub open spec fn reads(record: Record, report: Report) -> bool {
    match report {
        Report::Link(link) => record matches Record::Link(r) && reads_link(
            r,
            link.index,
            link.attributes@,
        ),
        Report::Route(route) => record matches Record::Route(r) && reads_route(
            r,
            (route.table, route.kind, route.prefix_len),
            route.attributes@,
        ),
        Report::Family(items) => record matches Record::Family(ids) && ids@ == present(items@),
        Report::Device(items) => record matches Record::Device(ports) && ports@ == present(items@),
        Report::Other => record is Other,
    }
}

/// Reads out of a decoded message what the discovery needs.
pub fn record(report: &Report) -> (r: Record)
    ensures
        reads(r, *report),
{
    match report {
        Report::Link(link) => Record::Link(link_record(link)),
        Report::Route(route) => Record::Route(route_record(route)),
        Report::Family(items) => Record::Family(family_ids(items)),
        Report::Device(items) => Record::Device(listen_ports(items)),
        Report::Other => Record::Other,
    }
}

/// What each of the decoded messages turned out to be.
pub open spec fn signals_of(decoded: Seq<(Signal, Record)>) -> Seq<Signal> {
    decoded.map_values(|d: (Signal, Record)| d.0)
}

/// The records of the decoded messages that a dump in state `state` hands
/// on to its consumer, in order.
pub open spec fn handed_on(state: DumpState, decoded: Seq<(Signal, Record)>) -> Seq<Record>
    decreases decoded.len(),
{
    if decoded.len() == 0 {
        Seq::empty()
    } else {
        let rest = handed_on(step(state, decoded[0].0).0, decoded.drop_first());
        if step(state, decoded[0].0).1 {
            seq![decoded[0].1] + rest
        } else {
            rest
        }
    }
}

/// A dump that has finished or failed hands nothing on.
pub proof fn lemma_nothing_after_the_end(state: DumpState, decoded: Seq<(Signal, Record)>)
    requires
        state != DumpState::Receiving,
    ensures
        handed_on(state, decoded) == Seq::<Record>::empty(),
    decreases decoded.len(),
{
    if decoded.len() > 0 {
        lemma_nothing_after_the_end(state, decoded.drop_first());
    }
}

/// One more decoded message at the end: the state moves on by one step
/// from where the messages before it led, and its record is handed on last
/// if that step hands it on.
pub proof fn lemma_handed_on_push(
    state: DumpState,
    decoded: Seq<(Signal, Record)>,
    next: (Signal, Record),
)
    ensures
        run(state, signals_of(decoded.push(next))) == step(
            run(state, signals_of(decoded)),
            next.0,
        ).0,
        handed_on(state, decoded.push(next)) == if step(run(state, signals_of(decoded)), next.0).1 {
            handed_on(state, decoded).push(next.1)
        } else {
            handed_on(state, decoded)
        },
    decreases decoded.len(),
{
    if decoded.len() == 0 {
        assert(decoded.push(next).drop_first() =~= Seq::<(Signal, Record)>::empty());
        assert(signals_of(decoded) =~= Seq::<Signal>::empty());
        assert(signals_of(decoded.push(next)) =~= seq![next.0]);
        assert(seq![next.0].drop_first() =~= Seq::<Signal>::empty());
        assert(run(step(state, next.0).0, Seq::<Signal>::empty()) == step(state, next.0).0);
        assert(handed_on(step(state, next.0).0, Seq::<(Signal, Record)>::empty())
            =~= Seq::<Record>::empty());
        assert(seq![next.1] + Seq::<Record>::empty() =~= Seq::<Record>::empty().push(next.1));
    } else {
        let after = step(state, decoded[0].0).0;
        assert(decoded.push(next)[0] == decoded[0]);
        assert(decoded.push(next).drop_first() =~= decoded.drop_first().push(next));
        assert(signals_of(decoded.push(next)).drop_first() =~= signals_of(
            decoded.drop_first().push(next),
        ));
        assert(signals_of(decoded).drop_first() =~= signals_of(decoded.drop_first()));
        assert(signals_of(decoded.push(next))[0] == decoded[0].0);
        assert(signals_of(decoded)[0] == decoded[0].0);
        lemma_handed_on_push(after, decoded.drop_first(), next);
        if step(run(state, signals_of(decoded)), next.0).1 {
            assert(seq![decoded[0].1] + handed_on(after, decoded.drop_first()).push(next.1) =~= (
            seq![decoded[0].1] + handed_on(after, decoded.drop_first())).push(next.1));
        }
    }
}

/// Moves a dump on by the decoded messages of one receive call, in order,
/// and appends the records of those that are handed on to the consumer.
///
/// The dump ends where the steps for what the messages turned out to be
/// lead: it goes on after a message of the protocol, whose record is handed
/// on, and after one without content; it finishes at the end mark or an
/// acknowledgement; it fails at an error code, at a report of lost data and
/// at a frame that could not be decoded. After that nothing is handed on.
pub fn deliver(dump: &mut Dump, decoded: Vec<(Signal, Record)>, records: &mut Vec<Record>)
    ensures
        final(dump).reassembler() == old(dump).reassembler(),
        final(dump).spec_state() == run(old(dump).spec_state(), signals_of(decoded@)),
        final(records)@ == old(records)@ + handed_on(old(dump).spec_state(), decoded@),
{
    let ghost all = decoded@;
    let ghost start = old(dump).spec_state();
    let mut rest = decoded;
    let mut i: usize = 0;
    let n = rest.len();
    proof {
        assert(all.take(0) =~= Seq::<(Signal, Record)>::empty());
        assert(signals_of(all.take(0)) =~= Seq::<Signal>::empty());
        assert(records@ =~= old(records)@ + handed_on(start, all.take(0)));
        assert(all.skip(0) =~= all);
    }
    while i < n
        invariant
            i <= n,
            n == all.len(),
            rest@ == all.skip(i as int),
            dump.reassembler() == old(dump).reassembler(),
            dump.spec_state() == run(start, signals_of(all.take(i as int))),
            records@ == old(records)@ + handed_on(start, all.take(i as int)),
        decreases n - i,
    {
        let (what, record) = rest.remove(0);
        proof {
            assert(all[i as int] == (what, record));
            assert(rest@ =~= all.skip(i + 1));
            assert(all.take(i + 1) =~= all.take(i as int).push((what, record)));
            lemma_handed_on_push(start, all.take(i as int), (what, record));
        }
        let ghost before = records@;
        if dump.note(what) {
            records.push(record);
            assert(records@ =~= old(records)@ + handed_on(start, all.take(i as int)).push(record));
        }
        i = i + 1;
    }
    assert(all.take(n as int) =~= all);
}

} // verus!
