//! Core of a multi-threaded, non-blocking HTTP server: the request and
//! response model, the router, and the state machines that an acceptor
//! thread and a pool of reactor workers run around their sockets.

pub mod http;
pub mod logger;
pub mod server;
