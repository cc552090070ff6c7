use repl_client::client::run_client;
use repl_client::protocol::apply_event;
use repl_client::protocol::Event;
use repl_client::protocol::Record;
use repl_client::protocol::WireOp;

const DST: u32 = 7;

fn rec(value: u32) -> Record {
    Record { value }
}

#[test]
fn in_order_acknowledgments_deliver_everything() {
    let data = vec![rec(10), rec(20), rec(30)];
    let events = vec![Event::Ack(1), Event::Ack(2), Event::Ack(3)];
    let out = run_client(&data, DST, &events);
    assert_eq!(out.delivered, 3);
    assert_eq!(
        out.trace,
        vec![
            WireOp::Open(DST),
            WireOp::Send(rec(10)),
            WireOp::Send(rec(20)),
            WireOp::Send(rec(30)),
            WireOp::Open(DST),
            WireOp::Send(rec(10)),
            WireOp::Send(rec(20)),
            WireOp::Send(rec(30)),
        ]
    );
}

#[test]
fn disconnect_resumes_from_unacknowledged_record() {
    let data = vec![rec(1), rec(2)];
    let events = vec![Event::Closed, Event::Ack(1), Event::Ack(2)];
    let out = run_client(&data, DST, &events);
    assert_eq!(out.delivered, 2);
    assert_eq!(
        out.trace,
        vec![
            WireOp::Open(DST),
            WireOp::Send(rec(1)),
            WireOp::Open(DST),
            WireOp::Send(rec(1)),
            WireOp::Send(rec(2)),
            WireOp::Open(DST),
            WireOp::Send(rec(1)),
            WireOp::Send(rec(2)),
        ]
    );
}

#[test]
fn stray_acknowledgment_is_ignored() {
    let data = vec![rec(42)];
    let events = vec![Event::Ack(5)];
    let out = run_client(&data, DST, &events);
    assert_eq!(out.delivered, 0);
    // The run stops waiting for a further event after resending; no
    // terminal pass happens.
    assert_eq!(
        out.trace,
        vec![WireOp::Open(DST), WireOp::Send(rec(42)), WireOp::Send(rec(42))]
    );
}

#[test]
fn duplicate_acknowledgment_advances_only_once() {
    let data = vec![rec(5), rec(6)];
    let events = vec![Event::Ack(1), Event::Ack(1), Event::Ack(2)];
    let out = run_client(&data, DST, &events);
    assert_eq!(out.delivered, 2);
    assert_eq!(
        out.trace,
        vec![
            WireOp::Open(DST),
            WireOp::Send(rec(5)),
            WireOp::Send(rec(6)),
            WireOp::Send(rec(6)),
            WireOp::Open(DST),
            WireOp::Send(rec(5)),
            WireOp::Send(rec(6)),
        ]
    );
}

#[test]
fn unknown_messages_are_ignored() {
    let data = vec![rec(9)];
    let events = vec![Event::Other, Event::Ack(1)];
    let out = run_client(&data, DST, &events);
    assert_eq!(out.delivered, 1);
    assert_eq!(
        out.trace,
        vec![
            WireOp::Open(DST),
            WireOp::Send(rec(9)),
            WireOp::Send(rec(9)),
            WireOp::Open(DST),
            WireOp::Send(rec(9)),
        ]
    );
}

#[test]
fn empty_sequence_still_runs_terminal_pass() {
    let data: Vec<Record> = vec![];
    let events: Vec<Event> = vec![];
    let out = run_client(&data, DST, &events);
    assert_eq!(out.delivered, 0);
    assert_eq!(out.trace, vec![WireOp::Open(DST), WireOp::Open(DST)]);
}

#[test]
fn run_stops_when_events_run_out() {
    let data = vec![rec(1), rec(2)];
    let events = vec![Event::Ack(1)];
    let out = run_client(&data, DST, &events);
    assert_eq!(out.delivered, 1);
    assert_eq!(
        out.trace,
        vec![WireOp::Open(DST), WireOp::Send(rec(1)), WireOp::Send(rec(2))]
    );
}

#[test]
fn apply_event_advances_only_on_matching_position() {
    // A matching acknowledgment advances by exactly one.
    assert_eq!(apply_event(0, 3, &Event::Ack(1)), 1);
    assert_eq!(apply_event(1, 3, &Event::Ack(2)), 2);
    // Stale, duplicate or too-far positions leave the count unchanged.
    assert_eq!(apply_event(1, 3, &Event::Ack(1)), 1);
    assert_eq!(apply_event(1, 3, &Event::Ack(3)), 1);
    assert_eq!(apply_event(0, 3, &Event::Ack(0)), 0);
    // Closed and unknown events never change the count.
    assert_eq!(apply_event(1, 3, &Event::Closed), 1);
    assert_eq!(apply_event(1, 3, &Event::Other), 1);
    // Once everything is delivered, nothing advances further.
    assert_eq!(apply_event(3, 3, &Event::Ack(4)), 3);
}

#[test]
fn apply_event_is_idempotent_per_acknowledgment() {
    let once = apply_event(0, 2, &Event::Ack(1));
    let twice = apply_event(once, 2, &Event::Ack(1));
    assert_eq!(once, 1);
    assert_eq!(twice, 1);
}
