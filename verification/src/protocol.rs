//! Data model of the replication stream: records, inbound events, wire
//! operations, and the rule by which an acknowledgment advances the
//! delivered count.

use vstd::prelude::*;

verus! {

/// Identity of a destination node.
pub type NodeId = u32;

/// One unit of payload data. The client gives a record no interpretation
/// beyond its position in the delivery sequence.
#[derive(Clone, Copy, PartialEq, Eq, Structural, Debug)]
pub struct Record {
    pub value: u32,
}

/// One inbound event, as handed to the client by its event source.
#[derive(Clone, Copy, PartialEq, Eq, Structural, Debug)]
pub enum Event {
    /// A message carrying a positional acknowledgment: every record at an
    /// index below this position has been durably accepted.
    Ack(u32),
    /// The current connection terminated.
    Closed,
    /// Any other inbound message; the client ignores it.
    Other,
}

/// One operation the client offers to the transport, in order.
#[derive(Clone, Copy, PartialEq, Eq, Structural, Debug)]
pub enum WireOp {
    /// A fresh connection was opened to this destination.
    Open(NodeId),
    /// This record was sent on the current connection.
    Send(Record),
}

/// How one event changes the delivered count while `total` records are being
/// delivered: an acknowledgment for position `delivered + 1` advances the
/// count by exactly one; every other event leaves it unchanged.
pub open spec fn ack_step(delivered: nat, total: nat, ev: Event) -> nat {
    match ev {
        Event::Ack(pos) => {
            if delivered < total && pos == delivered + 1 {
                delivered + 1
            } else {
                delivered
            }
        },
        _ => delivered,
    }
}

/// Executable form of [`ack_step`]: fold one event into the delivered count.
pub fn apply_event(delivered: usize, total: usize, ev: &Event) -> (updated: usize)
    requires
        delivered <= total,
    ensures
        updated == ack_step(delivered as nat, total as nat, *ev),
        delivered <= updated <= total,
{
    match ev {
        Event::Ack(pos) => {
            if delivered < total && *pos as usize == delivered + 1 {
                delivered + 1
            } else {
                delivered
            }
        },
        _ => delivered,
    }
}

} // verus!
