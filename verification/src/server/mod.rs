//! The server's state machines: acceptor, connections and the two reactors.

use crate::http::router::Router;
use crate::http::text::{decimal, push_decimal};
use crate::server::listener::Acceptor;
use std::sync::Arc;
use vstd::prelude::*;
use vstd::string::StringExecFns;

pub mod buffers;
pub mod conn;
pub mod listener;
pub mod serve;
pub mod table;
pub mod worker_epoll;
pub mod worker_uring;

verus! {

/// The number of worker threads.
pub const THREAD_POOL_SIZE: usize = 8;

/// The reactor discipline that the workers run.
#[derive(Clone, Copy, Debug, PartialEq, Eq, Structural)]
pub enum WorkerBackend {
    /// Readiness-based: wait for sockets to become ready, then read or write.
    Epoll,
    /// Completion-based: submit reads and writes, then collect their results.
    IoUring,
}

/// What a server is started with: where to listen, how to answer, and which
/// backend the workers run.
pub struct Server {
    host: String,
    port: u16,
    router: Arc<Router>,
    backend: WorkerBackend,
}

impl Server {
    /// The host to listen on.
    pub closed spec fn host_name(&self) -> Seq<char> {
        self.host@
    }

    /// The port to listen on.
    pub closed spec fn port_number(&self) -> u16 {
        self.port
    }

    /// The router that all workers share.
    pub closed spec fn shared_router(&self) -> Arc<Router> {
        self.router
    }

    /// The backend of the workers.
    pub closed spec fn chosen_backend(&self) -> WorkerBackend {
        self.backend
    }

    /// The address to listen on: host, colon, port.
    pub open spec fn address_text(&self) -> Seq<char> {
        self.host_name() + ":"@ + decimal(self.port_number() as nat)
    }

    /// A server that will listen on `host` and `port`, answer through
    /// `router`, and run its workers on `backend`.
    pub fn new(host: &str, port: u16, router: Arc<Router>, backend: WorkerBackend) -> (server: Self)
        ensures
            server.host_name() == host@,
            server.port_number() == port,
            server.shared_router() == router,
            server.chosen_backend() == backend,
    {
        Self { host: host.to_owned(), port, router, backend }
    }

    /// The host to listen on.
    pub fn host(&self) -> (host: &str)
        ensures
            host@ == self.host_name(),
    {
        self.host.as_str()
    }

    /// The port to listen on.
    pub fn port(&self) -> (port: u16)
        ensures
            port == self.port_number(),
    {
        self.port
    }

    /// The router that all workers share.
    pub fn router(&self) -> (router: &Arc<Router>)
        ensures
            *router == self.shared_router(),
    {
        &self.router
    }

    /// The backend of the workers.
    pub fn backend(&self) -> (backend: WorkerBackend)
        ensures
            backend == self.chosen_backend(),
    {
        self.backend
    }

    /// The address to listen on, as text.
    pub fn address(&self) -> (address: String)
        ensures
            address@ == self.address_text(),
    {
        let mut address = String::from_str(self.host.as_str());
        address.append(":");
        push_decimal(&mut address, self.port as u64);
        address
    }

    /// The acceptor for the server's worker pool.
    pub fn acceptor(&self) -> (acceptor: Acceptor)
        ensures
            acceptor.pool_size() == THREAD_POOL_SIZE,
            acceptor.accepted() == 0,
    {
        match Acceptor::new(THREAD_POOL_SIZE) {
            Some(acceptor) => acceptor,
            None => {
                proof {
                    assert(false);
                }
                vstd::pervasive::unreached()
            },
        }
    }
}

} // verus!
