//! Tests for the connection multiplexer: action ordering, outbox buffering,
//! fault classification, and teardown.

use nsh::server::{Action, ReactorError, Server};

type TestServer = Server<u8, u8>;

fn drain(server: &mut TestServer) -> Vec<Action<u8, u8>> {
    let mut out = Vec::new();
    while let Some(action) = server.next() {
        out.push(action);
    }
    out
}

#[test]
fn construction_queues_the_listener_registration() {
    let mut server = TestServer::with(7);
    assert_eq!(server.next(), Some(Action::RegisterListener(7)));
    assert_eq!(server.next(), None);
}

#[test]
fn outbox_fifo() {
    let mut server = TestServer::with(0);
    drain(&mut server);
    // N writes deferred via the not-writable path...
    for n in 1u8..=4 {
        server.handle_error(ReactorError::WriteLogicError(5, vec![n]));
    }
    assert_eq!(server.buffered_count(5), 4);
    // Deferring produces no visible action.
    assert_eq!(server.next(), None);
    // ...then Established: the delegate's new-client actions precede the
    // buffered writes, which drain in original order 1..N.
    server.established(5, vec![Action::Send(5, b"hello".to_vec())]);
    assert_eq!(
        drain(&mut server),
        vec![
            Action::Send(5, b"hello".to_vec()),
            Action::Send(5, vec![1]),
            Action::Send(5, vec![2]),
            Action::Send(5, vec![3]),
            Action::Send(5, vec![4]),
        ]
    );
    assert_eq!(server.buffered_count(5), 0);
}

#[test]
fn outbox_isolation() {
    let mut server = TestServer::with(0);
    drain(&mut server);
    server.handle_error(ReactorError::WriteLogicError(1, b"for-a".to_vec()));
    server.handle_error(ReactorError::WriteLogicError(2, b"for-b".to_vec()));
    // Establishing A delivers A's buffer only.
    server.established(1, vec![]);
    assert_eq!(drain(&mut server), vec![Action::Send(1, b"for-a".to_vec())]);
    assert_eq!(server.buffered_count(2), 1);
    // B terminates before becoming writable: its buffer is discarded whole.
    server.terminated(2);
    assert_eq!(drain(&mut server), vec![Action::UnregisterTransport(2)]);
    assert_eq!(server.buffered_count(2), 0);
    // A later Established for B finds nothing to deliver.
    server.established(2, vec![]);
    assert_eq!(drain(&mut server), vec![]);
}

#[test]
fn teardown_is_idempotent() {
    let mut server = TestServer::with(0);
    drain(&mut server);
    server.handle_error(ReactorError::WriteLogicError(3, b"pending".to_vec()));
    server.terminated(3);
    server.terminated(3);
    // Each Terminated enqueues its unregistration; no buffered data leaks out
    // and no entry is revived.
    assert_eq!(
        drain(&mut server),
        vec![Action::UnregisterTransport(3), Action::UnregisterTransport(3)]
    );
    assert_eq!(server.buffered_count(3), 0);
    server.established(3, vec![]);
    assert_eq!(drain(&mut server), vec![]);
}

#[test]
fn listener_failure_keeps_the_listener() {
    let mut server = TestServer::with(0);
    drain(&mut server);
    server.listener_failure();
    // A Failure event deregisters nothing...
    assert_eq!(server.next(), None);
    // ...and later accepted connections still produce transports.
    server.accepted(Some(9));
    assert_eq!(drain(&mut server), vec![Action::RegisterTransport(9)]);
}

#[test]
fn failed_wrap_is_dropped_not_fatal() {
    let mut server = TestServer::with(0);
    drain(&mut server);
    server.accepted(None);
    assert_eq!(server.next(), None);
    server.accepted(Some(4));
    assert_eq!(drain(&mut server), vec![Action::RegisterTransport(4)]);
}

#[test]
fn fault_classification() {
    let mut server = TestServer::with(0);
    drain(&mut server);
    // Clean peer disconnect, unknown ids and poll-layer errors: no action.
    server.handle_error(ReactorError::TransportDisconnect(1));
    server.handle_error(ReactorError::ListenerUnknown(2));
    server.handle_error(ReactorError::TransportUnknown(3));
    server.handle_error(ReactorError::Poll);
    assert_eq!(drain(&mut server), vec![]);
    // Listener-level faults unregister the listener.
    server.handle_error(ReactorError::ListenerDisconnect(4));
    server.handle_error(ReactorError::ListenerPollError(5));
    assert_eq!(
        drain(&mut server),
        vec![Action::UnregisterListener(4), Action::UnregisterListener(5)]
    );
    // Write failures and transport poll errors unregister the transport.
    server.handle_error(ReactorError::WriteFailure(6));
    server.handle_error(ReactorError::TransportPollError(7));
    assert_eq!(
        drain(&mut server),
        vec![Action::UnregisterTransport(6), Action::UnregisterTransport(7)]
    );
}

#[test]
fn data_actions_preserve_order() {
    let mut server = TestServer::with(0);
    drain(&mut server);
    server.data_received(
        1,
        vec![
            Action::Send(1, b"first".to_vec()),
            Action::Send(1, b"second".to_vec()),
            Action::UnregisterTransport(1),
        ],
    );
    assert_eq!(
        drain(&mut server),
        vec![
            Action::Send(1, b"first".to_vec()),
            Action::Send(1, b"second".to_vec()),
            Action::UnregisterTransport(1),
        ]
    );
}

#[test]
fn clean_session_leaves_no_residue() {
    // Model-level session: accept, establish, exchange, terminate.
    let mut server = TestServer::with(0);
    assert_eq!(server.next(), Some(Action::RegisterListener(0)));
    server.accepted(Some(1));
    assert_eq!(server.next(), Some(Action::RegisterTransport(1)));
    server.established(1, vec![]);
    assert_eq!(server.next(), None);
    // The peer sends "echo"; the delegate answers with the echo output.
    server.data_received(1, vec![Action::Send(1, b"echo\n".to_vec())]);
    assert_eq!(server.next(), Some(Action::Send(1, b"echo\n".to_vec())));
    server.terminated(1);
    assert_eq!(server.next(), Some(Action::UnregisterTransport(1)));
    assert_eq!(server.next(), None);
    // Clean disconnect leaves no residual outbox entry for that connection.
    assert_eq!(server.buffered_count(1), 0);
}
