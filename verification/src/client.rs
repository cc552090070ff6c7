//! The replication client itself: the flow-controlled delivery loop and the
//! terminal resend pass, together with the spec-level model of a whole run.
//!
//! A run is driven by the sequence of inbound events the event source hands
//! to the client. The model below says, for any such sequence, how far the
//! delivered count advances and exactly which operations the client offers
//! to the transport, in order.

use vstd::prelude::*;

use crate::protocol::ack_step;
use crate::protocol::apply_event;
use crate::protocol::Event;
use crate::protocol::NodeId;
use crate::protocol::Record;
use crate::protocol::WireOp;

verus! {

/// The delivered count after the client, holding `delivered` already
/// acknowledged out of `total` records, consumes the given events in order.
/// Consumption stops when every record is acknowledged or the events run out.
pub open spec fn run_delivered(total: nat, events: Seq<Event>, delivered: nat) -> nat
    decreases events.len(),
{
    if delivered >= total || events.len() == 0 {
        delivered
    } else {
        run_delivered(total, events.drop_first(), ack_step(delivered, total, events[0]))
    }
}

/// The wire operations of the primary delivery phase, starting with
/// `delivered` records already acknowledged: each iteration sends the record
/// at the delivered count, then consumes one event; a connection-closed
/// event makes the client open a fresh connection before it carries on. The
/// phase ends when every record is acknowledged; if the events run out
/// first, the phase is left waiting after its last send.
pub open spec fn primary_ops(
    data: Seq<Record>,
    dst: NodeId,
    events: Seq<Event>,
    delivered: nat,
) -> Seq<WireOp>
    decreases events.len(),
{
    if delivered >= data.len() {
        Seq::empty()
    } else if events.len() == 0 {
        seq![WireOp::Send(data[delivered as int])]
    } else {
        let sent = if events[0] is Closed {
            seq![WireOp::Send(data[delivered as int]), WireOp::Open(dst)]
        } else {
            seq![WireOp::Send(data[delivered as int])]
        };
        sent + primary_ops(data, dst, events.drop_first(), ack_step(delivered, data.len(), events[0]))
    }
}

/// The wire operations of the terminal pass: one fresh connection, then
/// every record in order, with no acknowledgment wait.
pub open spec fn flush_ops(data: Seq<Record>, dst: NodeId) -> Seq<WireOp> {
    seq![WireOp::Open(dst)] + data.map_values(|r: Record| WireOp::Send(r))
}

/// Every operation a whole run offers to the transport: the opening
/// connection, the primary phase, and — only when the primary phase
/// acknowledged every record — the terminal pass.
pub open spec fn client_ops(data: Seq<Record>, dst: NodeId, events: Seq<Event>) -> Seq<WireOp> {
    let primary = seq![WireOp::Open(dst)] + primary_ops(data, dst, events, 0);
    if run_delivered(data.len(), events, 0) == data.len() {
        primary + flush_ops(data, dst)
    } else {
        primary
    }
}

/// What a run of the client did.
pub struct RunOutcome {
    /// How many records the destination acknowledged, in prefix order.
    pub delivered: usize,
    /// Every operation offered to the transport, in order.
    pub trace: Vec<WireOp>,
}

/// Deliver every record in `data` to `dst`, consuming inbound events from
/// `events` in order. An acknowledgment for position `delivered + 1`
/// advances the delivered count; a connection-closed event is answered by
/// reopening the connection; anything else is ignored. Once every record is
/// acknowledged, one terminal pass resends the whole sequence over a fresh
/// connection. If the events run out before every record is acknowledged,
/// the run stops where a live client would block waiting for its next event.
pub fn run_client(data: &Vec<Record>, dst: NodeId, events: &Vec<Event>) -> (out: RunOutcome)
    ensures
        out.delivered == run_delivered(data@.len(), events@, 0),
        out.delivered <= data@.len(),
        out.trace@ == client_ops(data@, dst, events@),
{
    let mut trace: Vec<WireOp> = Vec::new();
    trace.push(WireOp::Open(dst));
    let mut delivered: usize = 0;
    let mut next_event: usize = 0;

    proof {
        assert(events@.skip(0) =~= events@);
        assert(trace@ =~= seq![WireOp::Open(dst)]);
    }

    loop
        invariant_except_break
            seq![WireOp::Open(dst)] + primary_ops(data@, dst, events@, 0) == trace@
                + primary_ops(data@, dst, events@.skip(next_event as int), delivered as nat),
        invariant
            delivered <= data@.len(),
            next_event <= events@.len(),
            run_delivered(data@.len(), events@, 0) == run_delivered(
                data@.len(),
                events@.skip(next_event as int),
                delivered as nat,
            ),
        ensures
            delivered <= data@.len(),
            delivered == run_delivered(data@.len(), events@, 0),
            trace@ == seq![WireOp::Open(dst)] + primary_ops(data@, dst, events@, 0),
        decreases events@.len() - next_event,
    {
        let ghost remaining = events@.skip(next_event as int);
        let ghost d0 = delivered as nat;
        let ghost pre = trace@;

        if delivered >= data.len() {
            proof {
                assert(primary_ops(data@, dst, remaining, d0) == Seq::<WireOp>::empty());
                assert(pre + Seq::<WireOp>::empty() =~= pre);
            }
            break;
        }

        let rec = data[delivered];
        trace.push(WireOp::Send(rec));

        if next_event >= events.len() {
            proof {
                assert(remaining.len() == 0);
                assert(primary_ops(data@, dst, remaining, d0) == seq![
                    WireOp::Send(data@[d0 as int]),
                ]);
                assert(trace@ =~= pre + seq![WireOp::Send(data@[d0 as int])]);
                assert(run_delivered(data@.len(), remaining, d0) == d0);
            }
            break;
        }

        let ev = events[next_event];
        next_event = next_event + 1;

        let ghost d1 = ack_step(d0, data@.len(), ev);
        proof {
            assert(remaining[0] == ev);
            assert(remaining.drop_first() =~= events@.skip(next_event as int));
        }

        let ghost sent = (if ev is Closed {
            seq![WireOp::Send(data@[d0 as int]), WireOp::Open(dst)]
        } else {
            seq![WireOp::Send(data@[d0 as int])]
        });

        match ev {
            Event::Closed => trace.push(WireOp::Open(dst)),
            _ => {},
        }
        delivered = apply_event(delivered, data.len(), &ev);

        proof {
            assert(delivered as nat == d1);
            assert(trace@ =~= pre + sent);
            assert(primary_ops(data@, dst, remaining, d0) == sent + primary_ops(
                data@,
                dst,
                remaining.drop_first(),
                d1,
            ));
            assert(pre + (sent + primary_ops(data@, dst, remaining.drop_first(), d1)) =~= (pre
                + sent) + primary_ops(data@, dst, remaining.drop_first(), d1));
        }
    }

    if delivered == data.len() {
        trace.push(WireOp::Open(dst));
        let ghost base = trace@;
        let mut i: usize = 0;
        while i < data.len()
            invariant
                i <= data@.len(),
                trace@.len() == base.len() + i,
                forall|j: int| 0 <= j < base.len() ==> trace@[j] == base[j],
                forall|j: int|
                    base.len() <= j < trace@.len() ==> trace@[j] == WireOp::Send(
                        data@[j - base.len()],
                    ),
            decreases data@.len() - i,
        {
            let rec = data[i];
            trace.push(WireOp::Send(rec));
            i = i + 1;
        }
        proof {
            let primary = seq![WireOp::Open(dst)] + primary_ops(data@, dst, events@, 0);
            let full = primary + flush_ops(data@, dst);
            assert(base == primary.push(WireOp::Open(dst)));
            assert(full.len() == primary.len() + 1 + data@.len());
            assert forall|k: int| 0 <= k < trace@.len() implies trace@[k] == full[k] by {
                if k < primary.len() {
                    assert(trace@[k] == base[k]);
                    assert(base[k] == primary[k]);
                } else if k == primary.len() {
                    assert(trace@[k] == base[k]);
                    assert(full[k] == flush_ops(data@, dst)[0]);
                } else {
                    assert(trace@[k] == WireOp::Send(data@[k - base.len()]));
                    assert(full[k] == flush_ops(data@, dst)[k - primary.len()]);
                    assert(flush_ops(data@, dst)[k - primary.len()] == data@.map_values(
                        |r: Record| WireOp::Send(r),
                    )[k - primary.len() - 1]);
                }
            };
            assert(trace@ =~= full);
        }
    }

    RunOutcome { delivered, trace }
}

} // verus!
