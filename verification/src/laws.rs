//! Properties of the replication client, stated and proved over the spec
//! model in [`crate::protocol`] and [`crate::client`].

use vstd::prelude::*;

use crate::client::client_ops;
use crate::client::flush_ops;
use crate::client::primary_ops;
use crate::client::run_delivered;
use crate::protocol::ack_step;
use crate::protocol::Event;
use crate::protocol::NodeId;
use crate::protocol::Record;
use crate::protocol::WireOp;

verus! {

/// An acknowledgment advances the delivered count by exactly one, and only
/// when its position is exactly one past the current count and delivery is
/// still in progress; every other event leaves the count unchanged.
pub proof fn lemma_prefix_advancement(delivered: nat, total: nat, ev: Event)
    ensures
        ack_step(delivered, total, ev) == delivered || ack_step(delivered, total, ev) == delivered
            + 1,
        ack_step(delivered, total, ev) == delivered + 1 <==> ({
            &&& delivered < total
            &&& ev matches Event::Ack(pos)
            &&& pos == delivered + 1
        }),
{
}

/// Processing one and the same event twice advances the delivered count at
/// most once: the second application changes nothing. In particular a
/// duplicated acknowledgment is absorbed without effect.
pub proof fn lemma_duplicate_ack_idempotent(delivered: nat, total: nat, ev: Event)
    ensures
        ack_step(ack_step(delivered, total, ev), total, ev) == ack_step(delivered, total, ev),
{
}

/// Folding one more event into a run takes exactly one acknowledgment step:
/// the delivered count after `events.push(ev)` is [`ack_step`] applied to
/// the count after `events` alone. Over any event sequence the count thus
/// moves event by event, each time only as [`ack_step`] allows.
pub proof fn lemma_one_step_per_event(total: nat, events: Seq<Event>, delivered: nat, ev: Event)
    ensures
        run_delivered(total, events.push(ev), delivered) == ack_step(
            run_delivered(total, events, delivered),
            total,
            ev,
        ),
    decreases events.len(),
{
    if delivered >= total {
    } else if events.len() == 0 {
        assert(events.push(ev)[0] == ev);
        assert(events.push(ev).drop_first() =~= Seq::<Event>::empty());
        assert(run_delivered(total, events.push(ev).drop_first(), ack_step(delivered, total, ev))
            == ack_step(delivered, total, ev));
    } else {
        assert(events.push(ev)[0] == events[0]);
        assert(events.push(ev).drop_first() =~= events.drop_first().push(ev));
        lemma_one_step_per_event(
            total,
            events.drop_first(),
            ack_step(delivered, total, events[0]),
            ev,
        );
    }
}

/// The delivered count never moves backwards and never passes the total,
/// whatever events arrive in whatever order.
pub proof fn lemma_delivered_bounded(total: nat, events: Seq<Event>, delivered: nat)
    requires
        delivered <= total,
    ensures
        delivered <= run_delivered(total, events, delivered) <= total,
    decreases events.len(),
{
    if delivered < total && events.len() > 0 {
        lemma_delivered_bounded(
            total,
            events.drop_first(),
            ack_step(delivered, total, events[0]),
        );
    }
}

/// While any record is unacknowledged, the very next wire operation of the
/// primary phase is a send of the first unacknowledged record: a record is
/// put on the wire as soon as it becomes current, before any event can be
/// counted against it.
pub proof fn lemma_current_record_sent_first(
    data: Seq<Record>,
    dst: NodeId,
    events: Seq<Event>,
    delivered: nat,
)
    requires
        delivered < data.len(),
    ensures
        primary_ops(data, dst, events, delivered).len() > 0,
        primary_ops(data, dst, events, delivered)[0] == WireOp::Send(data[delivered as int]),
{
}

/// A connection-closed event never changes the delivered count; the client
/// answers it by sending the current record, reopening the connection, and
/// then resuming exactly where it stopped: the next send after the reconnect
/// is again the record at the current delivered count. The stream is
/// resumed, not restarted.
pub proof fn lemma_reconnect_resumes(
    data: Seq<Record>,
    dst: NodeId,
    events: Seq<Event>,
    delivered: nat,
)
    requires
        delivered < data.len(),
        events.len() > 0,
        events[0] is Closed,
    ensures
        ack_step(delivered, data.len(), events[0]) == delivered,
        primary_ops(data, dst, events, delivered) == seq![
            WireOp::Send(data[delivered as int]),
            WireOp::Open(dst),
        ] + primary_ops(data, dst, events.drop_first(), delivered),
        primary_ops(data, dst, events.drop_first(), delivered)[0] == WireOp::Send(
            data[delivered as int],
        ),
{
    lemma_current_record_sent_first(data, dst, events.drop_first(), delivered);
}

/// Every record whose index lies between the starting and the final
/// delivered count is sent over the wire during the primary phase.
proof fn lemma_sends_cover_from(
    data: Seq<Record>,
    dst: NodeId,
    events: Seq<Event>,
    delivered: nat,
)
    requires
        delivered <= data.len(),
    ensures
        forall|i: int|
            delivered <= i < run_delivered(data.len(), events, delivered) ==> primary_ops(
                data,
                dst,
                events,
                delivered,
            ).contains(WireOp::Send(data[i])),
    decreases events.len(),
{
    if delivered < data.len() && events.len() > 0 {
        let d1 = ack_step(delivered, data.len(), events[0]);
        let rest_ops = primary_ops(data, dst, events.drop_first(), d1);
        let sent = (if events[0] is Closed {
            seq![WireOp::Send(data[delivered as int]), WireOp::Open(dst)]
        } else {
            seq![WireOp::Send(data[delivered as int])]
        });
        lemma_sends_cover_from(data, dst, events.drop_first(), d1);
        assert(primary_ops(data, dst, events, delivered) == sent + rest_ops);
        assert forall|i: int|
            delivered <= i < run_delivered(data.len(), events, delivered) implies primary_ops(
            data,
            dst,
            events,
            delivered,
        ).contains(WireOp::Send(data[i])) by {
            if i < d1 {
                assert((sent + rest_ops)[0] == WireOp::Send(data[i]));
            } else {
                assert(rest_ops.contains(WireOp::Send(data[i])));
                let j = choose|j: int|
                    0 <= j < rest_ops.len() && rest_ops[j] == WireOp::Send(data[i]);
                assert((sent + rest_ops)[sent.len() + j] == WireOp::Send(data[i]));
            }
        };
    }
}

/// When the primary phase ends with every record acknowledged, no record was
/// skipped: every one of them was sent over the wire during the phase.
pub proof fn lemma_no_record_skipped(data: Seq<Record>, dst: NodeId, events: Seq<Event>)
    requires
        run_delivered(data.len(), events, 0) == data.len(),
    ensures
        forall|i: int|
            0 <= i < data.len() ==> primary_ops(data, dst, events, 0).contains(
                WireOp::Send(data[i]),
            ),
{
    lemma_sends_cover_from(data, dst, events, 0);
}

/// A run appends the terminal pass exactly when the primary phase
/// acknowledged every record, and the pass is unconditional in its content:
/// one fresh connection, then every record in order, whatever the events
/// were.
pub proof fn lemma_terminal_flush(data: Seq<Record>, dst: NodeId, events: Seq<Event>)
    ensures
        run_delivered(data.len(), events, 0) == data.len() ==> client_ops(data, dst, events) == (
        seq![WireOp::Open(dst)] + primary_ops(data, dst, events, 0)) + flush_ops(data, dst),
        run_delivered(data.len(), events, 0) != data.len() ==> client_ops(data, dst, events)
            == seq![WireOp::Open(dst)] + primary_ops(data, dst, events, 0),
        flush_ops(data, dst).len() == 1 + data.len(),
        flush_ops(data, dst)[0] == WireOp::Open(dst),
        forall|i: int|
            0 <= i < data.len() ==> #[trigger] flush_ops(data, dst)[i + 1] == WireOp::Send(
                data[i],
            ),
{
}

} // verus!
