use http_server_rs::server::conn::{
    CloseCause, ConnState, ConnStep, Connection, ReadEvent, Transition, WriteEvent,
};

fn writing(response: &[u8]) -> Connection<&'static str> {
    let mut conn = Connection::new("socket");
    assert_eq!(
        conn.on_read(ReadEvent::Served(response.to_vec())),
        Transition::ToWrite
    );
    conn
}

#[test]
fn fresh_connection_awaits_a_read() {
    let conn = Connection::new(5u8);
    assert_eq!(conn.state(), ConnState::AwaitingRead);
    assert!(!conn.read_outstanding());
    assert!(!conn.write_outstanding());
    assert_eq!(conn.write_pos(), 0);
    assert!(conn.pending().is_empty());
    assert_eq!(*conn.stream(), 5);
    assert_eq!(conn.into_stream(), 5);
}

#[test]
fn served_request_switches_to_writing() {
    let conn = writing(b"response");
    assert_eq!(conn.state(), ConnState::AwaitingWrite);
    assert_eq!(conn.write_pos(), 0);
    assert_eq!(conn.pending(), b"response");
}

#[test]
fn empty_response_keeps_reading() {
    let mut conn = Connection::new(());
    assert_eq!(conn.on_read(ReadEvent::Served(Vec::new())), Transition::Stay);
    assert_eq!(conn.state(), ConnState::AwaitingRead);
}

#[test]
fn read_results_close_or_wait() {
    let mut conn = Connection::new(());
    assert_eq!(conn.on_read(ReadEvent::WouldBlock), Transition::Stay);
    assert_eq!(conn.state(), ConnState::AwaitingRead);
    assert_eq!(
        conn.on_read(ReadEvent::Eof),
        Transition::Close(CloseCause::PeerClosed)
    );
    assert_eq!(conn.state(), ConnState::Closed);

    let mut conn = Connection::new(());
    assert_eq!(
        conn.on_read(ReadEvent::Rejected),
        Transition::Close(CloseCause::Unparseable)
    );
    assert_eq!(conn.state(), ConnState::Closed);

    let mut conn = Connection::new(());
    assert_eq!(
        conn.on_read(ReadEvent::Failed),
        Transition::Close(CloseCause::IoError)
    );
    assert_eq!(conn.state(), ConnState::Closed);
}

#[test]
fn partial_write_resumes_at_the_cursor() {
    let mut conn = writing(b"0123456789");
    assert_eq!(conn.on_write(WriteEvent::Wrote(3)), Transition::Stay);
    assert_eq!(conn.state(), ConnState::AwaitingWrite);
    assert_eq!(conn.write_pos(), 3);
    assert_eq!(conn.pending(), b"3456789");
    assert_eq!(conn.on_write(WriteEvent::Wrote(0)), Transition::Stay);
    assert_eq!(conn.write_pos(), 3);
    assert_eq!(conn.on_write(WriteEvent::WouldBlock), Transition::Stay);
    assert_eq!(conn.write_pos(), 3);
    assert_eq!(conn.on_write(WriteEvent::Wrote(6)), Transition::Stay);
    assert_eq!(conn.write_pos(), 9);
    assert_eq!(conn.pending(), b"9");
    assert_eq!(conn.on_write(WriteEvent::Wrote(1)), Transition::ToRead);
    assert_eq!(conn.state(), ConnState::AwaitingRead);
    assert_eq!(conn.write_pos(), 0);
    assert!(conn.pending().is_empty());
}

#[test]
fn partial_writes_flush_every_byte_once() {
    let response: Vec<u8> = (0..=255u8).cycle().take(1000).collect();
    for chunk in [1usize, 2, 3, 7, 64, 999, 1000, 5000] {
        let mut conn = writing(&response);
        let mut wire = Vec::new();
        loop {
            let pending = conn.pending().to_vec();
            let n = chunk.min(pending.len());
            wire.extend_from_slice(&pending[..n]);
            match conn.on_write(WriteEvent::Wrote(n)) {
                Transition::Stay => assert_eq!(conn.write_pos(), wire.len()),
                Transition::ToRead => break,
                other => panic!("unexpected step {:?}", other),
            }
        }
        assert_eq!(wire, response);
        assert_eq!(conn.state(), ConnState::AwaitingRead);
    }
}

#[test]
fn write_beyond_the_remainder_finishes() {
    let mut conn = writing(b"abc");
    assert_eq!(conn.on_write(WriteEvent::Wrote(usize::MAX)), Transition::ToRead);
    assert_eq!(conn.state(), ConnState::AwaitingRead);
}

#[test]
fn write_error_closes() {
    let mut conn = writing(b"abc");
    assert_eq!(
        conn.on_write(WriteEvent::Failed),
        Transition::Close(CloseCause::IoError)
    );
    assert_eq!(conn.state(), ConnState::Closed);
    assert!(conn.pending().is_empty());
}

#[test]
fn events_for_another_state_are_ignored() {
    let mut conn = Connection::new(());
    assert_eq!(conn.on_write(WriteEvent::Wrote(3)), Transition::Stay);
    assert_eq!(conn.on_write(WriteEvent::Failed), Transition::Stay);
    assert_eq!(conn.state(), ConnState::AwaitingRead);

    let mut conn = writing(b"abc");
    assert_eq!(conn.on_write(WriteEvent::Wrote(1)), Transition::Stay);
    assert_eq!(conn.on_read(ReadEvent::Eof), Transition::Stay);
    assert_eq!(conn.on_read(ReadEvent::Served(b"zzz".to_vec())), Transition::Stay);
    assert_eq!(conn.state(), ConnState::AwaitingWrite);
    assert_eq!(conn.pending(), b"bc");
}

#[test]
fn at_most_one_operation_is_outstanding() {
    let mut conn = Connection::new(());
    assert!(conn.submit());
    assert_eq!(conn.state(), ConnState::ReadPending);
    assert!(conn.read_outstanding());
    assert!(!conn.write_outstanding());
    assert!(!conn.submit());
    assert_eq!(conn.state(), ConnState::ReadPending);
    assert_eq!(conn.on_read(ReadEvent::Eof), Transition::Stay);
    assert_eq!(conn.state(), ConnState::ReadPending);
    assert!(conn.complete());
    assert!(!conn.complete());
    assert_eq!(conn.state(), ConnState::AwaitingRead);
    assert_eq!(
        conn.on_read(ReadEvent::Served(b"ab".to_vec())),
        Transition::ToWrite
    );
    assert!(conn.submit());
    assert_eq!(conn.state(), ConnState::WritePending);
    assert!(conn.write_outstanding());
    assert!(!conn.read_outstanding());
    assert!(!conn.submit());
    assert_eq!(conn.pending(), b"ab");
    assert!(conn.complete());
    assert_eq!(conn.on_write(WriteEvent::Wrote(2)), Transition::ToRead);
    assert_eq!(conn.state(), ConnState::AwaitingRead);
}

#[test]
fn closed_connection_stays_closed() {
    let mut conn = Connection::new(());
    conn.on_read(ReadEvent::Eof);
    assert!(!conn.submit());
    assert!(!conn.complete());
    assert_eq!(conn.on_read(ReadEvent::Served(b"x".to_vec())), Transition::Stay);
    assert_eq!(conn.on_write(WriteEvent::Wrote(1)), Transition::Stay);
    assert_eq!(conn.state(), ConnState::Closed);
}

#[test]
fn steps_are_the_four_operations() {
    let mut conn = Connection::new(());
    assert_eq!(conn.step(ConnStep::Submit), Transition::Stay);
    assert_eq!(conn.state(), ConnState::ReadPending);
    assert_eq!(conn.step(ConnStep::Complete), Transition::Stay);
    assert_eq!(conn.state(), ConnState::AwaitingRead);
    assert_eq!(
        conn.step(ConnStep::Read(ReadEvent::Served(b"abc".to_vec()))),
        Transition::ToWrite
    );
    assert_eq!(
        conn.step(ConnStep::Write(WriteEvent::Wrote(1))),
        Transition::Stay
    );
    assert_eq!(
        conn.step(ConnStep::Write(WriteEvent::Failed)),
        Transition::Close(CloseCause::IoError)
    );
}
