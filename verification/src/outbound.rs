//! Outbound bridge: the per-packet decision of the interface-to-transport
//! pump, and the laws of a whole run of it.
//!
//! The pump reads one packet at a time, classifies it, and either sends it as
//! one unreliable message or writes it, whole, onto the reliable stream of its
//! flow — opening that stream first when none is live. The pump is a single
//! sequential task, so packets of one flow reach their stream in exactly the
//! order they were read.

use vstd::prelude::*;

use crate::classifier::Classification;
use crate::classifier::FlowKey;
use crate::classifier::classify;
use crate::classifier::spec_classify;
use crate::flow_table::FlowTable;
use crate::flow_table::live_of;
use crate::flow_table::table_model_ok;
use crate::frame::concat_of;
use crate::frame::spec_decode_stream;
use crate::frame::wellformed_frame;

verus! {

/// What the pump does with one packet, decided before any transport call.
#[derive(PartialEq, Eq, Structural, Clone, Copy, Debug)]
pub enum OutboundAction {
    /// Send the packet as one unreliable transport message, best effort.
    SendDatagram,
    /// Write the whole packet onto the live stream with this number.
    WriteStream(u64),
    /// Open a new stream for this key, record it, then write the packet.
    OpenStream(FlowKey),
}

/// The decision as a mathematical function of the table model and the packet.
pub open spec fn spec_plan(m: Map<FlowKey, Option<u64>>, p: Seq<u8>) -> OutboundAction {
    match spec_classify(p) {
        Classification::Message => OutboundAction::SendDatagram,
        Classification::Flow(k) => match live_of(m, k) {
            Some(id) => OutboundAction::WriteStream(id),
            None => OutboundAction::OpenStream(k),
        },
    }
}

/// Decide one packet's path: message packets go to the unreliable channel;
/// flow packets go to their flow's live stream, or ask for a fresh one when
/// no stream is live for the key.
pub fn plan_outbound(table: &FlowTable, packet: &Vec<u8>) -> (a: OutboundAction)
    requires
        table.wf(),
    ensures
        a == spec_plan(table@, packet@),
{
    match classify(packet) {
        Classification::Message => OutboundAction::SendDatagram,
        Classification::Flow(k) => match table.lookup_live(&k) {
            Some(id) => OutboundAction::WriteStream(id),
            None => OutboundAction::OpenStream(k),
        },
    }
}

/// After a write failure the flow's entry is cleared, so its next packet asks
/// for exactly one fresh stream; once that open is recorded, further packets
/// of the flow write to it and ask for no more opens.
pub proof fn lemma_failure_then_single_reopen(
    m: Map<FlowKey, Option<u64>>,
    p: Seq<u8>,
    k: FlowKey,
    id: u64,
)
    requires
        spec_classify(p) == Classification::Flow(k),
    ensures
        spec_plan(m.insert(k, None), p) == OutboundAction::OpenStream(k),
        spec_plan(m.insert(k, Some(id)), p) == OutboundAction::WriteStream(id),
{
}

/// The table model after one successful pump step: a message packet and a
/// flow packet on a live stream leave it alone; a flow packet without one
/// records the freshly opened stream under the next number.
pub open spec fn spec_apply(m: Map<FlowKey, Option<u64>>, next: u64, p: Seq<u8>) -> (
    Map<FlowKey, Option<u64>>,
    u64,
) {
    match spec_classify(p) {
        Classification::Message => (m, next),
        Classification::Flow(k) => match live_of(m, k) {
            Some(id) => (m, next),
            None => (m.insert(k, Some(next)), (next + 1) as u64),
        },
    }
}

/// The model's step is exactly what the pump's operations do on success: a
/// planned datagram or stream write leaves the table alone, and a planned
/// open records the fresh stream under the next number — the contract of
/// recording an opened stream.
pub proof fn lemma_apply_follows_plan(m: Map<FlowKey, Option<u64>>, next: u64, p: Seq<u8>)
    ensures
        spec_plan(m, p) == OutboundAction::SendDatagram ==> spec_apply(m, next, p) == (m, next),
        spec_plan(m, p) matches OutboundAction::WriteStream(id) ==> spec_apply(m, next, p) == (
            m,
            next,
        ),
        spec_plan(m, p) matches OutboundAction::OpenStream(k) ==> spec_apply(m, next, p) == (
            m.insert(k, Some(next)),
            (next + 1) as u64,
        ),
{
}

/// The stream writes of a whole pump run over the given packets, in order,
/// when every open and write succeeds: pairs of stream number and the packet
/// written, verbatim.
pub open spec fn spec_run_writes(m: Map<FlowKey, Option<u64>>, next: u64, ps: Seq<Seq<u8>>) -> Seq<
    (u64, Seq<u8>),
>
    decreases ps.len(),
{
    if ps.len() == 0 {
        Seq::empty()
    } else {
        let head = match spec_classify(ps[0]) {
            Classification::Message => Seq::<(u64, Seq<u8>)>::empty(),
            Classification::Flow(k) => match live_of(m, k) {
                Some(id) => seq![(id, ps[0])],
                None => seq![(next, ps[0])],
            },
        };
        head + spec_run_writes(spec_apply(m, next, ps[0]).0, spec_apply(m, next, ps[0]).1, ps.drop_first())
    }
}

/// The packets of one flow among the inputs, in input order.
pub open spec fn packets_for(ps: Seq<Seq<u8>>, k: FlowKey) -> Seq<Seq<u8>>
    decreases ps.len(),
{
    if ps.len() == 0 {
        Seq::empty()
    } else if spec_classify(ps[0]) == Classification::Flow(k) {
        seq![ps[0]] + packets_for(ps.drop_first(), k)
    } else {
        packets_for(ps.drop_first(), k)
    }
}

/// The packets written to one stream, in write order.
pub open spec fn writes_to(ws: Seq<(u64, Seq<u8>)>, id: u64) -> Seq<Seq<u8>>
    decreases ws.len(),
{
    if ws.len() == 0 {
        Seq::empty()
    } else if ws[0].0 == id {
        seq![ws[0].1] + writes_to(ws.drop_first(), id)
    } else {
        writes_to(ws.drop_first(), id)
    }
}

/// Recording a fresh stream preserves the table model's well-formedness.
pub proof fn lemma_model_ok_after_open(m: Map<FlowKey, Option<u64>>, next: u64, k: FlowKey)
    requires
        table_model_ok(m, next),
        live_of(m, k) is None,
        next < u64::MAX,
    ensures
        table_model_ok(m.insert(k, Some(next)), (next + 1) as u64),
{
    let m1 = m.insert(k, Some(next));
    assert forall|k1: FlowKey| #[trigger]
        m1.contains_key(k1) implies (m1[k1] matches Some(id) ==> id < next + 1) by {
        if k1 != k {
            assert(m.contains_key(k1));
        }
    }
    assert forall|k1: FlowKey, k2: FlowKey| #![trigger m1[k1], m1[k2]]
        m1.contains_key(k1) && m1.contains_key(k2) && m1[k1] is Some && m1[k1]
            == m1[k2] implies k1 == k2 by {
        if k1 != k && k2 != k {
            assert(m[k1] == m1[k1] && m[k2] == m1[k2]);
        } else if k1 == k && k2 != k {
            assert(m.contains_key(k2) ==> (m[k2] matches Some(id) ==> id < next));
        } else if k1 != k && k2 == k {
            assert(m.contains_key(k1) ==> (m[k1] matches Some(id) ==> id < next));
        }
    }
}

/// Per-flow order for a flow already on a live stream: a pump run in which
/// every open and write succeeds writes to that stream exactly the flow's
/// packets, verbatim, in input order.
pub proof fn lemma_per_flow_order_live(
    m: Map<FlowKey, Option<u64>>,
    next: u64,
    ps: Seq<Seq<u8>>,
    k: FlowKey,
    id: u64,
)
    requires
        table_model_ok(m, next),
        next + ps.len() <= u64::MAX,
        live_of(m, k) == Some(id),
    ensures
        writes_to(spec_run_writes(m, next, ps), id) == packets_for(ps, k),
    decreases ps.len(),
{
    if ps.len() > 0 {
        let p = ps[0];
        let rest = ps.drop_first();
        match spec_classify(p) {
            Classification::Message => {
                let w = spec_run_writes(m, next, rest);
                assert(Seq::<(u64, Seq<u8>)>::empty() + w =~= w);
                lemma_per_flow_order_live(m, next, rest, k, id);
            },
            Classification::Flow(k2) => {
                if k2 == k {
                    let w = spec_run_writes(m, next, rest);
                    assert((seq![(id, p)] + w).drop_first() =~= w);
                    lemma_per_flow_order_live(m, next, rest, k, id);
                } else {
                    match live_of(m, k2) {
                        Some(id2) => {
                            assert(m[k] == Some(id) && m[k2] == Some(id2));
                            assert(id2 != id);
                            let w = spec_run_writes(m, next, rest);
                            assert((seq![(id2, p)] + w).drop_first() =~= w);
                            lemma_per_flow_order_live(m, next, rest, k, id);
                        },
                        None => {
                            assert(m.contains_key(k) && (m[k] matches Some(x) ==> x < next));
                            assert(id < next);
                            lemma_model_ok_after_open(m, next, k2);
                            let m1 = m.insert(k2, Some(next));
                            let n1 = (next + 1) as u64;
                            assert(live_of(m1, k) == Some(id));
                            let w = spec_run_writes(m1, n1, rest);
                            assert((seq![(next, p)] + w).drop_first() =~= w);
                            lemma_per_flow_order_live(m1, n1, rest, k, id);
                        },
                    }
                }
            },
        }
    }
}

/// Per-flow order for a flow with no live stream: if the run carries any
/// packet of the flow, there is one stream — freshly numbered — that receives
/// exactly the flow's packets, verbatim, in input order.
pub proof fn lemma_per_flow_order_fresh(
    m: Map<FlowKey, Option<u64>>,
    next: u64,
    ps: Seq<Seq<u8>>,
    k: FlowKey,
)
    requires
        table_model_ok(m, next),
        next + ps.len() <= u64::MAX,
        live_of(m, k) is None,
    ensures
        packets_for(ps, k).len() > 0 ==> exists|id: u64|
            next <= id && #[trigger] writes_to(spec_run_writes(m, next, ps), id) == packets_for(
                ps,
                k,
            ),
    decreases ps.len(),
{
    if ps.len() > 0 && packets_for(ps, k).len() > 0 {
        let p = ps[0];
        let rest = ps.drop_first();
        match spec_classify(p) {
            Classification::Message => {
                let w = spec_run_writes(m, next, rest);
                assert(Seq::<(u64, Seq<u8>)>::empty() + w =~= w);
                lemma_per_flow_order_fresh(m, next, rest, k);
                let id = choose|id: u64|
                    next <= id && #[trigger] writes_to(w, id) == packets_for(rest, k);
                assert(writes_to(spec_run_writes(m, next, ps), id) == packets_for(ps, k));
            },
            Classification::Flow(k2) => {
                if k2 == k {
                    lemma_model_ok_after_open(m, next, k);
                    let m1 = m.insert(k, Some(next));
                    let n1 = (next + 1) as u64;
                    let w = spec_run_writes(m1, n1, rest);
                    assert((seq![(next, p)] + w).drop_first() =~= w);
                    lemma_per_flow_order_live(m1, n1, rest, k, next);
                    assert(writes_to(spec_run_writes(m, next, ps), next) == packets_for(ps, k));
                } else {
                    match live_of(m, k2) {
                        Some(id2) => {
                            assert(m.contains_key(k2) && (m[k2] matches Some(x) ==> x < next));
                            let w = spec_run_writes(m, next, rest);
                            assert((seq![(id2, p)] + w).drop_first() =~= w);
                            lemma_per_flow_order_fresh(m, next, rest, k);
                            let id = choose|id: u64|
                                next <= id && #[trigger] writes_to(w, id) == packets_for(rest, k);
                            assert(id2 < next);
                            assert(writes_to(spec_run_writes(m, next, ps), id) == packets_for(
                                ps,
                                k,
                            ));
                        },
                        None => {
                            lemma_model_ok_after_open(m, next, k2);
                            let m1 = m.insert(k2, Some(next));
                            let n1 = (next + 1) as u64;
                            assert(live_of(m1, k) is None);
                            let w = spec_run_writes(m1, n1, rest);
                            assert((seq![(next, p)] + w).drop_first() =~= w);
                            lemma_per_flow_order_fresh(m1, n1, rest, k);
                            let id = choose|id: u64|
                                n1 <= id && #[trigger] writes_to(w, id) == packets_for(rest, k);
                            assert(writes_to(spec_run_writes(m, next, ps), id) == packets_for(
                                ps,
                                k,
                            ));
                        },
                    }
                }
            },
        }
    }
}


/// Every packet of the flow declares its own byte count in its length field.
pub open spec fn flow_frames_wellformed(ps: Seq<Seq<u8>>, k: FlowKey) -> bool {
    forall|i: int|
        0 <= i < ps.len() ==> (spec_classify(#[trigger] ps[i]) == Classification::Flow(k)
            ==> wellformed_frame(ps[i]))
}

proof fn lemma_packets_for_wellformed(ps: Seq<Seq<u8>>, k: FlowKey)
    requires
        flow_frames_wellformed(ps, k),
    ensures
        forall|j: int|
            0 <= j < packets_for(ps, k).len() ==> wellformed_frame(
                #[trigger] packets_for(ps, k)[j],
            ),
    decreases ps.len(),
{
    if ps.len() > 0 {
        let rest = ps.drop_first();
        assert forall|i: int|
            0 <= i < rest.len() implies (spec_classify(#[trigger] rest[i])
            == Classification::Flow(k) ==> wellformed_frame(rest[i])) by {
            assert(rest[i] == ps[i + 1]);
        }
        lemma_packets_for_wellformed(rest, k);
        assert forall|j: int|
            0 <= j < packets_for(ps, k).len() implies wellformed_frame(
            #[trigger] packets_for(ps, k)[j],
        ) by {
            if spec_classify(ps[0]) == Classification::Flow(k) {
                if j == 0 {
                    assert(packets_for(ps, k)[0] == ps[0]);
                } else {
                    assert(packets_for(ps, k)[j] == packets_for(rest, k)[j - 1]);
                }
            } else {
                assert(packets_for(ps, k)[j] == packets_for(rest, k)[j]);
            }
        }
    }
}

/// End to end for one flow on a live stream: when every packet of the flow
/// declares its own length correctly, the peer — decoding the bytes the pump
/// wrote onto that stream — observes exactly the flow's packets, in input
/// order, byte-identical.
pub proof fn lemma_peer_reconstructs_flow(
    m: Map<FlowKey, Option<u64>>,
    next: u64,
    ps: Seq<Seq<u8>>,
    k: FlowKey,
    id: u64,
)
    requires
        table_model_ok(m, next),
        next + ps.len() <= u64::MAX,
        live_of(m, k) == Some(id),
        flow_frames_wellformed(ps, k),
    ensures
        spec_decode_stream(concat_of(writes_to(spec_run_writes(m, next, ps), id))) == packets_for(
            ps,
            k,
        ),
{
    lemma_per_flow_order_live(m, next, ps, k, id);
    lemma_packets_for_wellformed(ps, k);
    crate::frame::lemma_stream_round_trip(packets_for(ps, k));
}

} // verus!
