use http_server_rs::http::request::HttpMethod;
use http_server_rs::http::response::HttpStatusCode;
use http_server_rs::http::{HttpRequest, HttpResponse, Router};
use http_server_rs::server::conn::{
    CloseCause, ConnState, ConnStep, ReadEvent, Transition, WriteEvent,
};
use http_server_rs::server::serve::{read_event, ReadResult};
use http_server_rs::server::table::{Applied, ConnectionTable};
use http_server_rs::server::worker_epoll::{
    Attempt, Interest, ReadOutcome, ReadinessReactor, READ_BUF_SIZE,
};
use http_server_rs::server::worker_uring::{
    CompletionReactor, Operation, PushAction, PushOutcome, Submission, BUF_SIZE,
};

const ROOT: &[u8] = b"HTTP/1.1 200 OK\r\nContent-Length: 4\r\n\r\nroot";

fn router() -> Router {
    let mut router = Router::new();
    router.register("/", HttpMethod::GET, |_: &HttpRequest| {
        let mut res = HttpResponse::new(HttpStatusCode::OK);
        res.set_content("root");
        res
    });
    router
}

/// Stands for a read of `bytes` into the connection's read buffer.
fn receive(reactor: &mut ReadinessReactor<&'static str>, token: u64, bytes: &[u8]) -> ReadOutcome {
    let (_, buf) = reactor.read_parts(token).unwrap();
    buf[..bytes.len()].copy_from_slice(bytes);
    ReadOutcome::Read(bytes.len())
}

/// Stands for a completed read of `bytes` into the connection's read buffer.
fn complete_read(reactor: &mut CompletionReactor<&'static str>, token: u64, bytes: &[u8]) -> i32 {
    let buf = reactor.read_buffer(token).unwrap();
    buf[..bytes.len()].copy_from_slice(bytes);
    bytes.len() as i32
}

fn submit_all(reactor: &mut CompletionReactor<&'static str>) -> Vec<Submission> {
    let mut done = Vec::new();
    while let Some(sub) = reactor.next_submission() {
        assert!(reactor.submitted(sub.token));
        done.push(sub);
    }
    done
}

#[test]
fn table_hands_out_increasing_tokens() {
    let mut table: ConnectionTable<char> = ConnectionTable::new(5);
    assert!(table.is_empty());
    assert_eq!(table.insert('a'), Ok(5));
    assert_eq!(table.insert('b'), Ok(6));
    assert_eq!(table.remove(5), Some('a'));
    assert_eq!(table.insert('c'), Ok(7));
    assert_eq!(table.len(), 2);
    assert!(!table.is_empty());
    assert_eq!(table.stream(6), Some(&'b'));
    assert_eq!(table.stream(5), None);
    assert_eq!(table.state(7), Some(ConnState::AwaitingRead));
    assert_eq!(table.state(5), None);
    assert_eq!(table.pending(7), None);
    assert_eq!(table.remove(5), None);
}

#[test]
fn table_refuses_when_tokens_are_used_up() {
    let mut table: ConnectionTable<char> = ConnectionTable::new(u64::MAX - 1);
    assert_eq!(table.insert('a'), Ok(u64::MAX - 1));
    assert_eq!(table.insert('b'), Err('b'));
    assert_eq!(table.insert('c'), Err('c'));
    assert_eq!(table.len(), 1);
}

#[test]
fn table_applies_steps_to_known_tokens_only() {
    let mut table: ConnectionTable<char> = ConnectionTable::new(0);
    let token = table.insert('a').unwrap();
    assert!(matches!(
        table.apply(token + 1, ConnStep::Read(ReadEvent::Eof)),
        Applied::Unknown
    ));
    assert!(matches!(
        table.apply(token, ConnStep::Read(ReadEvent::Served(b"abc".to_vec()))),
        Applied::Kept(Transition::ToWrite)
    ));
    assert_eq!(table.pending(token), Some(&b"abc"[..]));
    assert!(matches!(
        table.apply(token, ConnStep::Write(WriteEvent::Wrote(1))),
        Applied::Kept(Transition::Stay)
    ));
    assert_eq!(table.pending(token), Some(&b"bc"[..]));
    assert!(matches!(
        table.apply(token, ConnStep::Write(WriteEvent::Failed)),
        Applied::Closed('a', CloseCause::IoError)
    ));
    assert_eq!(table.state(token), None);
    assert!(table.is_empty());
}

#[test]
fn read_events_follow_the_read() {
    let router = router();
    assert!(matches!(
        read_event(&router, ReadResult::WouldBlock),
        ReadEvent::WouldBlock
    ));
    assert!(matches!(
        read_event(&router, ReadResult::Failed),
        ReadEvent::Failed
    ));
    assert!(matches!(
        read_event(&router, ReadResult::Data(b"")),
        ReadEvent::Eof
    ));
    assert!(matches!(
        read_event(&router, ReadResult::Data(b"nothing")),
        ReadEvent::Rejected
    ));
    match read_event(&router, ReadResult::Data(b"GET / HTTP/1.1\r\n\r\n")) {
        ReadEvent::Served(bytes) => assert_eq!(bytes, ROOT),
        other => panic!("unexpected event {:?}", other),
    }
}

#[test]
fn readiness_reactor_registers_for_one_interest() {
    let router = router();
    let mut reactor: ReadinessReactor<&str> = ReadinessReactor::new();
    let token = reactor.add_connection("a").unwrap();
    assert_eq!(token, 0);
    assert_eq!(reactor.add_connection("b"), Ok(1));
    assert_eq!(reactor.interest(token), Some(Interest::Readable));
    assert_eq!(reactor.interest(9), None);
    assert_eq!(reactor.attempt(token, true, true), Attempt::Read);
    assert_eq!(reactor.attempt(token, false, true), Attempt::Nothing);
    assert_eq!(reactor.attempt(9, true, true), Attempt::Nothing);
    assert!(matches!(
        reactor.handle_read(token, ReadOutcome::WouldBlock, &router),
        Applied::Kept(Transition::Stay)
    ));
    let read = receive(&mut reactor, token, b"GET / x");
    assert_eq!(read, ReadOutcome::Read(7));
    assert!(matches!(
        reactor.handle_read(token, read, &router),
        Applied::Kept(Transition::ToWrite)
    ));
    assert_eq!(reactor.interest(token), Some(Interest::Writable));
    assert_eq!(reactor.attempt(token, true, true), Attempt::Write);
    assert_eq!(reactor.attempt(token, true, false), Attempt::Nothing);
    assert_eq!(reactor.table().pending(token), Some(ROOT));
    // a read result while the response is unflushed changes nothing
    assert!(matches!(
        reactor.handle_read(token, ReadOutcome::Read(0), &router),
        Applied::Kept(Transition::Stay)
    ));
    assert_eq!(reactor.table().pending(token), Some(ROOT));
    assert!(matches!(
        reactor.handle_write(token, WriteEvent::Wrote(10)),
        Applied::Kept(Transition::Stay)
    ));
    assert_eq!(reactor.table().pending(token), Some(&ROOT[10..]));
    assert!(matches!(
        reactor.handle_write(token, WriteEvent::Wrote(ROOT.len() - 10)),
        Applied::Kept(Transition::ToRead)
    ));
    assert_eq!(reactor.interest(token), Some(Interest::Readable));
    assert_eq!(reactor.table().pending(token), None);
    assert_eq!(reactor.table().stream(1), Some(&"b"));
}

#[test]
fn readiness_reactor_closes_connections() {
    let router = router();
    let mut reactor: ReadinessReactor<&str> = ReadinessReactor::new();
    let a = reactor.add_connection("a").unwrap();
    let b = reactor.add_connection("b").unwrap();
    let c = reactor.add_connection("c").unwrap();
    let d = reactor.add_connection("d").unwrap();
    assert!(matches!(
        reactor.handle_read(a, ReadOutcome::Read(0), &router),
        Applied::Closed("a", CloseCause::PeerClosed)
    ));
    let read = receive(&mut reactor, b, b"\xff\xfe");
    assert!(matches!(
        reactor.handle_read(b, read, &router),
        Applied::Closed("b", CloseCause::Unparseable)
    ));
    assert!(matches!(
        reactor.handle_read(c, ReadOutcome::Failed, &router),
        Applied::Closed("c", CloseCause::IoError)
    ));
    let read = receive(&mut reactor, d, b"GET /");
    assert!(matches!(
        reactor.handle_read(d, read, &router),
        Applied::Kept(Transition::ToWrite)
    ));
    assert!(matches!(
        reactor.handle_write(d, WriteEvent::Failed),
        Applied::Closed("d", CloseCause::IoError)
    ));
    assert!(reactor.table().is_empty());
    for token in [a, b, c, d] {
        assert!(reactor.read_parts(token).is_none());
        assert!(matches!(
            reactor.handle_read(token, ReadOutcome::Read(5), &router),
            Applied::Unknown
        ));
        assert!(matches!(
            reactor.handle_write(token, WriteEvent::Wrote(1)),
            Applied::Unknown
        ));
    }
    assert_eq!(reactor.add_connection("e"), Ok(4));
}

#[test]
fn completion_reactor_runs_read_then_write() {
    let router = router();
    let mut reactor: CompletionReactor<&str> = CompletionReactor::new();
    assert!(reactor.is_idle(0));
    assert!(!reactor.is_idle(1));
    let token = reactor.add_connection("a").unwrap();
    assert_eq!(token, 1);
    assert!(!reactor.is_idle(0));
    assert_eq!(
        submit_all(&mut reactor),
        vec![Submission { token, op: Operation::Read }]
    );
    assert_eq!(reactor.table().state(token), Some(ConnState::ReadPending));
    assert_eq!(reactor.next_submission(), None);

    let res = complete_read(&mut reactor, token, b"GET / x");
    assert!(matches!(
        reactor.on_completion(token, res, &router),
        Applied::Kept(Transition::ToWrite)
    ));
    assert_eq!(reactor.table().state(token), Some(ConnState::AwaitingWrite));
    assert_eq!(
        submit_all(&mut reactor),
        vec![Submission { token, op: Operation::Write }]
    );
    assert_eq!(reactor.table().state(token), Some(ConnState::WritePending));
    assert_eq!(reactor.table().pending(token), Some(ROOT));

    // a partial write is continued with the unflushed remainder
    assert!(matches!(
        reactor.on_completion(token, 15, &router),
        Applied::Kept(Transition::Stay)
    ));
    assert_eq!(reactor.table().pending(token), Some(&ROOT[15..]));
    assert_eq!(
        submit_all(&mut reactor),
        vec![Submission { token, op: Operation::Write }]
    );
    assert!(matches!(
        reactor.on_completion(token, (ROOT.len() - 15) as i32, &router),
        Applied::Kept(Transition::ToRead)
    ));
    assert_eq!(
        submit_all(&mut reactor),
        vec![Submission { token, op: Operation::Read }]
    );
    assert_eq!(reactor.table().state(token), Some(ConnState::ReadPending));
}

#[test]
fn stale_completion_is_ignored() {
    let router = router();
    let mut reactor: CompletionReactor<&str> = CompletionReactor::new();
    let gone = reactor.add_connection("gone").unwrap();
    let kept = reactor.add_connection("kept").unwrap();
    submit_all(&mut reactor);
    let request = b"GET / HTTP/1.1";
    complete_read(&mut reactor, gone, request);
    // the first connection is removed by an error
    assert!(matches!(
        reactor.on_completion(gone, -104, &router),
        Applied::Closed("gone", CloseCause::IoError)
    ));
    assert_eq!(reactor.table().len(), 1);
    assert!(reactor.read_buffer(gone).is_none());
    // later completions under its token, and under tokens never used, are ignored
    for res in [request.len() as i32, 0, -1, i32::MAX, i32::MIN] {
        assert!(matches!(
            reactor.on_completion(gone, res, &router),
            Applied::Unknown
        ));
        assert!(matches!(
            reactor.on_completion(77, res, &router),
            Applied::Unknown
        ));
    }
    assert_eq!(reactor.table().len(), 1);
    assert_eq!(reactor.table().state(kept), Some(ConnState::ReadPending));
    assert_eq!(reactor.table().stream(kept), Some(&"kept"));
    assert_eq!(reactor.next_submission(), None);
    // the other connection goes on undisturbed
    let res = complete_read(&mut reactor, kept, request);
    assert!(matches!(
        reactor.on_completion(kept, res, &router),
        Applied::Kept(Transition::ToWrite)
    ));
    assert_eq!(reactor.table().pending(kept), Some(ROOT));
}

#[test]
fn completion_reactor_closes_connections() {
    let router = router();
    let mut reactor: CompletionReactor<&str> = CompletionReactor::new();
    let a = reactor.add_connection("a").unwrap();
    let b = reactor.add_connection("b").unwrap();
    let c = reactor.add_connection("c").unwrap();
    submit_all(&mut reactor);
    assert!(matches!(
        reactor.on_completion(a, 0, &router),
        Applied::Closed("a", CloseCause::PeerClosed)
    ));
    let res = complete_read(&mut reactor, b, b"????");
    assert!(matches!(
        reactor.on_completion(b, res, &router),
        Applied::Closed("b", CloseCause::Unparseable)
    ));
    // more bytes than the buffer holds cannot have been read
    complete_read(&mut reactor, c, b"GET /");
    assert!(matches!(
        reactor.on_completion(c, BUF_SIZE as i32 + 1, &router),
        Applied::Closed("c", CloseCause::IoError)
    ));
    for token in [a, b, c] {
        assert!(reactor.read_buffer(token).is_none());
    }
    assert!(reactor.is_idle(0));
    assert_eq!(reactor.next_submission(), None);
}

#[test]
fn full_ring_keeps_the_submission_for_later() {
    let router = router();
    let mut reactor: CompletionReactor<&str> = CompletionReactor::new();
    let a = reactor.add_connection("a").unwrap();
    let b = reactor.add_connection("b").unwrap();
    // the ring takes the first submission and is full for the second
    let first = reactor.next_submission().unwrap();
    assert_eq!(first, Submission { token: a, op: Operation::Read });
    assert!(reactor.submitted(a));
    let second = reactor.next_submission().unwrap();
    assert_eq!(second, Submission { token: b, op: Operation::Read });
    assert_eq!(reactor.table().state(b), Some(ConnState::AwaitingRead));
    // next iteration: the same submission comes first again
    assert_eq!(reactor.next_submission(), Some(second));
    assert!(reactor.submitted(b));
    assert_eq!(reactor.next_submission(), None);
    assert_eq!(reactor.table().state(a), Some(ConnState::ReadPending));
    assert_eq!(reactor.table().state(b), Some(ConnState::ReadPending));
    let res = complete_read(&mut reactor, b, b"GET /");
    assert!(matches!(
        reactor.on_completion(b, res, &router),
        Applied::Kept(Transition::ToWrite)
    ));
    assert_eq!(
        reactor.next_submission(),
        Some(Submission { token: b, op: Operation::Write })
    );
}

#[test]
fn no_second_submission_while_one_is_outstanding() {
    let router = router();
    let mut reactor: CompletionReactor<&str> = CompletionReactor::new();
    let a = reactor.add_connection("a").unwrap();
    assert!(reactor.submitted(a));
    assert!(!reactor.submitted(a));
    assert!(!reactor.submitted(a + 1));
    assert_eq!(reactor.table().state(a), Some(ConnState::ReadPending));
    assert_eq!(reactor.next_submission(), None);
    let res = complete_read(&mut reactor, a, b"GET /");
    reactor.on_completion(a, res, &router);
    assert!(reactor.submitted(a));
    assert!(!reactor.submitted(a));
    assert_eq!(reactor.table().state(a), Some(ConnState::WritePending));
}

#[test]
fn completion_without_outstanding_operation_changes_nothing() {
    let router = router();
    let mut reactor: CompletionReactor<&str> = CompletionReactor::new();
    let a = reactor.add_connection("a").unwrap();
    let res = complete_read(&mut reactor, a, b"GET /");
    assert!(matches!(
        reactor.on_completion(a, res, &router),
        Applied::Kept(Transition::Stay)
    ));
    assert_eq!(reactor.table().state(a), Some(ConnState::AwaitingRead));
    assert_eq!(
        reactor.next_submission(),
        Some(Submission { token: a, op: Operation::Read })
    );
}

#[test]
fn full_ring_fails_the_iteration_and_keeps_the_submission() {
    let mut reactor: CompletionReactor<&str> = CompletionReactor::new();
    let a = reactor.add_connection("a").unwrap();
    let b = reactor.add_connection("b").unwrap();
    let first = reactor.next_submission().unwrap();
    assert_eq!(first.token, a);
    assert_eq!(reactor.on_push(a, PushOutcome::Queued), PushAction::Continue);
    assert_eq!(reactor.table().state(a), Some(ConnState::ReadPending));
    let second = reactor.next_submission().unwrap();
    assert_eq!(second.token, b);
    assert_eq!(
        reactor.on_push(b, PushOutcome::QueueFull),
        PushAction::FailIteration
    );
    assert_eq!(reactor.table().state(b), Some(ConnState::AwaitingRead));
    // the next iteration meets the same submission and gets it through
    assert_eq!(reactor.next_submission(), Some(second));
    assert_eq!(reactor.on_push(b, PushOutcome::Queued), PushAction::Continue);
    assert_eq!(reactor.table().state(b), Some(ConnState::ReadPending));
    assert_eq!(reactor.next_submission(), None);
    // a push reported twice, or for a token that names nothing, changes nothing
    assert_eq!(reactor.on_push(b, PushOutcome::Queued), PushAction::Continue);
    assert_eq!(reactor.on_push(99, PushOutcome::Queued), PushAction::Continue);
    assert_eq!(reactor.table().state(b), Some(ConnState::ReadPending));
    assert_eq!(reactor.table().len(), 2);
}

#[test]
fn read_buffers_stay_with_their_connections() {
    let router = router();
    let mut reactor: CompletionReactor<&str> = CompletionReactor::new();
    let a = reactor.add_connection("a").unwrap();
    let b = reactor.add_connection("b").unwrap();
    assert_eq!(reactor.read_buffer(a).unwrap().len(), BUF_SIZE);
    assert!(reactor.read_buffer(a).unwrap().iter().all(|byte| *byte == 0));
    assert!(reactor.read_buffer(b + 1).is_none());
    submit_all(&mut reactor);
    // while the reads are outstanding, what is written into one buffer stays there
    complete_read(&mut reactor, a, b"GET / HTTP/1.1");
    complete_read(&mut reactor, b, b"nothing");
    assert_eq!(&reactor.read_buffer(a).unwrap()[..5], b"GET /");
    assert_eq!(&reactor.read_buffer(b).unwrap()[..7], b"nothing");
    // the completion of one read answers from its own buffer and leaves the other alone
    assert!(matches!(
        reactor.on_completion(a, 14, &router),
        Applied::Kept(Transition::ToWrite)
    ));
    assert_eq!(reactor.table().pending(a), Some(ROOT));
    assert_eq!(&reactor.read_buffer(b).unwrap()[..7], b"nothing");
    assert_eq!(reactor.read_buffer(a).unwrap().len(), BUF_SIZE);
    assert!(matches!(
        reactor.on_completion(b, 7, &router),
        Applied::Closed("b", CloseCause::Unparseable)
    ));
    assert!(reactor.read_buffer(b).is_none());
    assert_eq!(&reactor.read_buffer(a).unwrap()[..5], b"GET /");
}

#[test]
fn readiness_reactor_reads_into_its_own_buffers() {
    let router = router();
    let mut reactor: ReadinessReactor<&str> = ReadinessReactor::new();
    let a = reactor.add_connection("a").unwrap();
    let b = reactor.add_connection("b").unwrap();
    {
        let (stream, buf) = reactor.read_parts(a).unwrap();
        assert_eq!(*stream, "a");
        assert_eq!(buf.len(), READ_BUF_SIZE);
    }
    assert!(reactor.read_parts(b + 1).is_none());
    receive(&mut reactor, b, b"GET /missing");
    let read = receive(&mut reactor, a, b"GET / HTTP/1.1");
    assert!(matches!(
        reactor.handle_read(a, read, &router),
        Applied::Kept(Transition::ToWrite)
    ));
    assert_eq!(reactor.table().pending(a), Some(ROOT));
    // only as many bytes as were read are looked at
    assert!(matches!(
        reactor.handle_read(b, ReadOutcome::Read(3), &router),
        Applied::Closed("b", CloseCause::Unparseable)
    ));
    assert!(reactor.read_parts(b).is_none());
    // a count beyond the buffer cannot have been read
    let c = reactor.add_connection("c").unwrap();
    assert!(matches!(
        reactor.handle_read(c, ReadOutcome::Read(READ_BUF_SIZE + 1), &router),
        Applied::Closed("c", CloseCause::IoError)
    ));
}
