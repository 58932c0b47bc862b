use http_server_rs::http::Router;
use http_server_rs::logger::{init_logging, is_enabled};
use http_server_rs::server::listener::{AcceptAction, AcceptOutcome, Acceptor, ACCEPT_RETRY_MS};
use http_server_rs::server::{Server, WorkerBackend, THREAD_POOL_SIZE};
use std::sync::Arc;

#[test]
fn connections_go_to_the_workers_in_turn() {
    for workers in [1usize, 2, 3, 8] {
        let mut acceptor = Acceptor::new(workers).unwrap();
        assert_eq!(acceptor.workers(), workers);
        for i in 0..50 {
            assert_eq!(
                acceptor.on_accept(AcceptOutcome::Accepted),
                AcceptAction::Dispatch(i % workers)
            );
        }
    }
}

#[test]
fn calls_without_a_connection_do_not_move_the_turn() {
    let mut acceptor = Acceptor::new(3).unwrap();
    assert_eq!(
        acceptor.on_accept(AcceptOutcome::Accepted),
        AcceptAction::Dispatch(0)
    );
    assert_eq!(
        acceptor.on_accept(AcceptOutcome::WouldBlock),
        AcceptAction::Sleep(50)
    );
    assert_eq!(ACCEPT_RETRY_MS, 50);
    assert_eq!(
        acceptor.on_accept(AcceptOutcome::Interrupted),
        AcceptAction::Retry
    );
    assert_eq!(
        acceptor.on_accept(AcceptOutcome::Accepted),
        AcceptAction::Dispatch(1)
    );
    assert_eq!(acceptor.on_accept(AcceptOutcome::Failed), AcceptAction::Stop);
    assert_eq!(
        acceptor.on_accept(AcceptOutcome::Accepted),
        AcceptAction::Dispatch(2)
    );
    assert_eq!(
        acceptor.on_accept(AcceptOutcome::Accepted),
        AcceptAction::Dispatch(0)
    );
}

#[test]
fn no_acceptor_for_an_empty_pool() {
    assert!(Acceptor::new(0).is_none());
}

#[test]
fn server_keeps_what_it_is_given() {
    let router = Arc::new(Router::new());
    let server = Server::new("127.0.0.1", 4000, router.clone(), WorkerBackend::IoUring);
    assert_eq!(server.host(), "127.0.0.1");
    assert_eq!(server.port(), 4000);
    assert_eq!(server.backend(), WorkerBackend::IoUring);
    assert!(Arc::ptr_eq(server.router(), &router));
    assert_eq!(server.address(), "127.0.0.1:4000");
    let server = Server::new("0.0.0.0", 8080, router.clone(), WorkerBackend::Epoll);
    assert_eq!(server.address(), "0.0.0.0:8080");
    assert_eq!(server.backend(), WorkerBackend::Epoll);
    assert_eq!(Server::new("h", 0, router.clone(), WorkerBackend::Epoll).address(), "h:0");
    assert_eq!(
        Server::new("", 65535, router, WorkerBackend::Epoll).address(),
        ":65535"
    );
}

#[test]
fn server_pool_has_eight_workers() {
    let server = Server::new("h", 1, Arc::new(Router::new()), WorkerBackend::Epoll);
    let mut acceptor = server.acceptor();
    assert_eq!(THREAD_POOL_SIZE, 8);
    assert_eq!(acceptor.workers(), 8);
    for i in 0..20 {
        assert_eq!(
            acceptor.on_accept(AcceptOutcome::Accepted),
            AcceptAction::Dispatch(i % 8)
        );
    }
}

#[test]
fn logging_is_switched_by_its_setting() {
    for on in ["1", "true", "TRUE", "True", "tRuE"] {
        assert!(is_enabled(&init_logging(Some(on))), "setting {:?}", on);
    }
    for off in [
        "", "0", "2", "11", "yes", "on", "tru", "truee", " true", "true ", "t", "\u{ff54}rue",
        "tr\u{fc}e", "false",
    ] {
        assert!(!is_enabled(&init_logging(Some(off))), "setting {:?}", off);
        assert_eq!(
            is_enabled(&init_logging(Some(off))),
            off == "1" || off.eq_ignore_ascii_case("true")
        );
    }
    assert!(!is_enabled(&init_logging(None)));
}
