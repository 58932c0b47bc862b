//! The readiness-based reactor.
//!
//! The worker waits on the OS multiplexer with a bounded timeout. For each
//! socket reported ready, the reactor says which operation to attempt; the
//! worker attempts it and hands the result back; the reactor takes the
//! connection one step further and says how its registration must change.
//! A connection is registered for reading or for writing, never for both.
//! A read goes into the read buffer that the reactor keeps for the
//! connection and lends to the worker for the attempt.

use crate::http::router::Router;
use crate::server::buffers::{buffer_of, ReadBuffers};
use crate::server::conn::{ConnModel, ConnState, ConnStep, ReadEvent, Transition, WriteEvent};
use crate::server::serve::{follows, may_follow, read_event, ReadResult};
use crate::server::table::{Applied, ConnectionTable};
use vstd::prelude::*;
use vstd::slice::slice_subrange;

verus! {

/// How long one wait on the multiplexer may last, in milliseconds.
pub const POLL_TIMEOUT_MS: u64 = 100;

/// How many events one wait may return.
pub const EVENTS_CAPACITY: usize = 1024;

/// The size of the scratch buffer that one read fills.
pub const READ_BUF_SIZE: usize = 4096;

/// The token of a worker's first connection.
pub const FIRST_TOKEN: u64 = 0;

/// What a socket is registered for.
#[derive(Clone, Copy, Debug, PartialEq, Eq, Structural)]
pub enum Interest {
    Readable,
    Writable,
}

/// The operation to attempt on a socket that was reported ready.
#[derive(Clone, Copy, Debug, PartialEq, Eq, Structural)]
pub enum Attempt {
    Nothing,
    Read,
    Write,
}

/// The registration that a connection in `state` needs.
pub open spec fn interest_of(state: ConnState) -> Option<Interest> {
    match state {
        ConnState::AwaitingRead => Some(Interest::Readable),
        ConnState::AwaitingWrite => Some(Interest::Writable),
        _ => None,
    }
}

/// The operation to attempt when the socket under `token` is reported
/// readable or writable: the one that its connection waits for, if the
/// report says that it can be done.
pub open spec fn attempt_for(
    conns: Map<u64, ConnModel>,
    token: u64,
    readable: bool,
    writable: bool,
) -> Attempt {
    if !conns.contains_key(token) {
        Attempt::Nothing
    } else if conns[token].state is AwaitingRead && readable {
        Attempt::Read
    } else if conns[token].state is AwaitingWrite && writable {
        Attempt::Write
    } else {
        Attempt::Nothing
    }
}

/// True if every connection waits for its socket to become ready, so that
/// each is registered for exactly one interest and none has an operation
/// outstanding.
pub open spec fn all_waiting(conns: Map<u64, ConnModel>) -> bool {
    forall|t: u64| #[trigger] conns.contains_key(t) ==> conns[t].can_submit()
}

/// The table behind its invariant: every connection waits for its socket
/// to become ready. Each function is the part that the reactor's function
/// of the same name has in the table.
struct Waiting<S> {
    table: ConnectionTable<S>,
}

impl<S> View for Waiting<S> {
    type V = Map<u64, ConnModel>;

    closed spec fn view(&self) -> Map<u64, ConnModel> {
        self.table@
    }
}

impl<S> Waiting<S> {
    #[verifier::type_invariant]
    spec fn well_formed(self) -> bool {
        all_waiting(self.table@)
    }

    spec fn connections(&self) -> ConnectionTable<S> {
        self.table
    }

    fn new() -> (reactor: Self)
        ensures
            reactor@ == Map::<u64, ConnModel>::empty(),
            reactor.connections().fresh_token() == FIRST_TOKEN,
            reactor.connections().inv(),
    {
        Waiting { table: ConnectionTable::new(FIRST_TOKEN) }
    }

    fn table(&self) -> (table: &ConnectionTable<S>)
        ensures
            *table == self.connections(),
            table@ == self@,
            all_waiting(self@),
    {
        proof {
            use_type_invariant(self);
        }
        &self.table
    }

    fn add_connection(&mut self, stream: S) -> (r: Result<u64, S>)
        ensures
            final(self).connections().inv(),
            all_waiting(final(self)@),
            match r {
                Ok(token) => {
                    &&& token == old(self).connections().fresh_token()
                    &&& token < u64::MAX
                    &&& !old(self)@.contains_key(token)
                    &&& final(self).connections().fresh_token() == token + 1
                    &&& final(self)@ == old(self)@.insert(token, ConnModel::initial())
                    &&& final(self).connections().sockets() == old(
                        self,
                    ).connections().sockets().insert(token, stream)
                    &&& interest_of(final(self)@[token].state) == Some(Interest::Readable)
                },
                Err(back) => {
                    &&& old(self).connections().fresh_token() == u64::MAX
                    &&& back == stream
                    &&& final(self)@ == old(self)@
                    &&& final(self).connections().sockets() == old(self).connections().sockets()
                    &&& final(self).connections().fresh_token() == old(
                        self,
                    ).connections().fresh_token()
                },
            },
    {
        proof {
            use_type_invariant(&*self);
        }
        // The table is taken out while it changes and put back after.
        let mut table = ConnectionTable::new(FIRST_TOKEN);
        core::mem::swap(&mut self.table, &mut table);
        let r = table.insert(stream);
        core::mem::swap(&mut self.table, &mut table);
        r
    }

    fn interest(&self, token: u64) -> (interest: Option<Interest>)
        ensures
            interest == if self@.contains_key(token) {
                interest_of(self@[token].state)
            } else {
                None
            },
            interest is Some <==> self@.contains_key(token),
    {
        proof {
            use_type_invariant(self);
        }
        match self.table.state(token) {
            Some(ConnState::AwaitingRead) => Some(Interest::Readable),
            Some(ConnState::AwaitingWrite) => Some(Interest::Writable),
            _ => None,
        }
    }

    fn attempt(&self, token: u64, readable: bool, writable: bool) -> (attempt: Attempt)
        ensures
            attempt == attempt_for(self@, token, readable, writable),
    {
        match self.table.state(token) {
            Some(ConnState::AwaitingRead) => if readable {
                Attempt::Read
            } else {
                Attempt::Nothing
            },
            Some(ConnState::AwaitingWrite) => if writable {
                Attempt::Write
            } else {
                Attempt::Nothing
            },
            _ => Attempt::Nothing,
        }
    }

    fn handle_read(&mut self, token: u64, result: ReadResult, router: &Router) -> (r: Applied<
        S,
    >)
        ensures
            final(self).connections().inv(),
            all_waiting(final(self)@),
            if old(self)@.contains_key(token) && old(self)@[token].state is AwaitingRead {
                exists|ev: ReadEvent|
                    may_follow(router, result, ev) && #[trigger] old(self).connections().applied(
                        &final(self).connections(),
                        token,
                        ConnStep::Read(ev),
                        r,
                    )
            } else {
                &&& final(self)@ == old(self)@
                &&& final(self).connections().sockets() == old(self).connections().sockets()
                &&& final(self).connections().fresh_token() == old(
                    self,
                ).connections().fresh_token()
                &&& r == if old(self)@.contains_key(token) {
                    Applied::<S>::Kept(Transition::Stay)
                } else {
                    Applied::<S>::Unknown
                }
            },
    {
        proof {
            use_type_invariant(&*self);
        }
        match self.table.state(token) {
            None => Applied::Unknown,
            Some(ConnState::AwaitingRead) => {
                let ev = read_event(router, result);
                let ghost event = ev;
                // The table is taken out while it changes and put back after.
                let mut table = ConnectionTable::new(FIRST_TOKEN);
                core::mem::swap(&mut self.table, &mut table);
                let r = table.apply(token, ConnStep::Read(ev));
                core::mem::swap(&mut self.table, &mut table);
                assert(may_follow(router, result, event));
                assert(old(self).connections().applied(
                    &self.connections(),
                    token,
                    ConnStep::Read(event),
                    r,
                ));
                r
            },
            Some(_) => Applied::Kept(Transition::Stay),
        }
    }

    fn handle_write(&mut self, token: u64, ev: WriteEvent) -> (r: Applied<S>)
        ensures
            final(self).connections().inv(),
            all_waiting(final(self)@),
            old(self).connections().applied(
                &final(self).connections(),
                token,
                ConnStep::Write(ev),
                r,
            ),
    {
        proof {
            use_type_invariant(&*self);
        }
        // The table is taken out while it changes and put back after.
        let mut table = ConnectionTable::new(FIRST_TOKEN);
        core::mem::swap(&mut self.table, &mut table);
        let r = table.apply(token, ConnStep::Write(ev));
        core::mem::swap(&mut self.table, &mut table);
        r
    }
}

/// How a read attempt into a connection's read buffer ended.
#[derive(Clone, Copy, Debug, PartialEq, Eq, Structural)]
pub enum ReadOutcome {
    /// The read put this many bytes at the start of the buffer; none means
    /// that the peer has closed.
    Read(usize),
    /// Nothing to read right now.
    WouldBlock,
    /// Any other error.
    Failed,
}

/// True if `ev` is an event that a read attempt into `buf` may bring. A
/// count beyond the buffer counts as a failure.
pub open spec fn read_follows(router: &Router, buf: Seq<u8>, outcome: ReadOutcome, ev: ReadEvent) -> bool {
    match outcome {
        ReadOutcome::WouldBlock => ev is WouldBlock,
        ReadOutcome::Failed => ev is Failed,
        ReadOutcome::Read(n) => if n > buf.len() {
            ev is Failed
        } else {
            follows(router, buf.take(n as int), ev)
        },
    }
}

/// The connections of one worker, their read buffers, and the rules that
/// drive them from readiness events.
pub struct ReadinessReactor<S> {
    waiting: Waiting<S>,
    buffers: ReadBuffers,
}

impl<S> View for ReadinessReactor<S> {
    type V = Map<u64, ConnModel>;

    open spec fn view(&self) -> Map<u64, ConnModel> {
        self.connections()@
    }
}

impl<S> ReadinessReactor<S> {
    /// The table of connections.
    pub closed spec fn connections(&self) -> ConnectionTable<S> {
        self.waiting.connections()
    }

    /// What the read buffer of each connection holds.
    pub closed spec fn read_buffers(&self) -> Map<u64, Seq<u8>> {
        self.buffers@
    }

    /// True if each connection has its read buffer and there is no buffer
    /// without a connection. This holds of a new reactor, and every
    /// function keeps it.
    pub open spec fn buffered(&self) -> bool {
        self.read_buffers().dom() =~= self@.dom()
    }

    /// A reactor without connections.
    pub fn new() -> (reactor: Self)
        ensures
            reactor@ == Map::<u64, ConnModel>::empty(),
            reactor.connections().fresh_token() == FIRST_TOKEN,
            reactor.connections().inv(),
            reactor.read_buffers() == Map::<u64, Seq<u8>>::empty(),
            reactor.buffered(),
    {
        ReadinessReactor { waiting: Waiting::new(), buffers: ReadBuffers::new() }
    }

    /// The table of connections, to look at.
    pub fn table(&self) -> (table: &ConnectionTable<S>)
        ensures
            *table == self.connections(),
            table@ == self@,
            all_waiting(self@),
    {
        self.waiting.table()
    }

    /// Takes in a socket from the inbound queue and makes its read buffer
    /// of `READ_BUF_SIZE` bytes. The connection awaits a read, so the
    /// worker registers the socket as readable under the token that comes
    /// back. When the tokens are used up the socket is handed back.
    pub fn add_connection(&mut self, stream: S) -> (r: Result<u64, S>)
        ensures
            final(self).connections().inv(),
            all_waiting(final(self)@),
            old(self).buffered() ==> final(self).buffered(),
            match r {
                Ok(token) => {
                    &&& token == old(self).connections().fresh_token()
                    &&& token < u64::MAX
                    &&& !old(self)@.contains_key(token)
                    &&& final(self).connections().fresh_token() == token + 1
                    &&& final(self)@ == old(self)@.insert(token, ConnModel::initial())
                    &&& final(self).connections().sockets() == old(
                        self,
                    ).connections().sockets().insert(token, stream)
                    &&& interest_of(final(self)@[token].state) == Some(Interest::Readable)
                    &&& final(self).read_buffers() == old(self).read_buffers().insert(
                        token,
                        Seq::new(READ_BUF_SIZE as nat, |i: int| 0u8),
                    )
                },
                Err(back) => {
                    &&& old(self).connections().fresh_token() == u64::MAX
                    &&& back == stream
                    &&& final(self)@ == old(self)@
                    &&& final(self).connections().sockets() == old(self).connections().sockets()
                    &&& final(self).connections().fresh_token() == old(
                        self,
                    ).connections().fresh_token()
                    &&& final(self).read_buffers() == old(self).read_buffers()
                },
            },
    {
        match self.waiting.add_connection(stream) {
            Ok(token) => {
                self.buffers.insert(token, READ_BUF_SIZE);
                Ok(token)
            },
            Err(back) => Err(back),
        }
    }

    /// What the socket under `token` must be registered for, if it stands
    /// for a connection that waits.
    pub fn interest(&self, token: u64) -> (interest: Option<Interest>)
        ensures
            interest == if self@.contains_key(token) {
                interest_of(self@[token].state)
            } else {
                None
            },
            interest is Some <==> self@.contains_key(token),
    {
        self.waiting.interest(token)
    }

    /// The operation to attempt for one readiness event. An event for a
    /// token that names no connection asks for nothing.
    pub fn attempt(&self, token: u64, readable: bool, writable: bool) -> (attempt: Attempt)
        ensures
            attempt == attempt_for(self@, token, readable, writable),
    {
        self.waiting.attempt(token, readable, writable)
    }

    /// Lends out what a read attempt on the connection under `token`
    /// needs: its socket, and its read buffer to be filled. The buffer
    /// stays in its place; what the read writes into the slice is what the
    /// buffer holds afterwards. Nothing else changes.
    pub fn read_parts(&mut self, token: u64) -> (parts: Option<(&S, &mut [u8])>)
        ensures
            final(self).connections() == old(self).connections(),
            old(self).buffered() ==> final(self).buffered(),
            match parts {
                Some((stream, buf)) => {
                    &&& old(self).connections().sockets().contains_key(token)
                    &&& *stream == old(self).connections().sockets()[token]
                    &&& old(self).read_buffers().contains_key(token)
                    &&& buf@ == old(self).read_buffers()[token]
                    &&& final(self).read_buffers() == old(self).read_buffers().insert(
                        token,
                        final(buf)@,
                    )
                },
                None => {
                    &&& !(old(self).connections().sockets().contains_key(token) && old(
                        self,
                    ).read_buffers().contains_key(token))
                    &&& final(self).read_buffers() == old(self).read_buffers()
                },
            },
    {
        match self.waiting.table().stream(token) {
            None => None,
            Some(stream) => match self.buffers.get_mut(token) {
                None => None,
                Some(buf) => Some((stream, buf)),
            },
        }
    }

    /// Takes the connection under `token` one step further after a read
    /// attempt into its read buffer. Bytes that hold a request are
    /// answered through `router`, and the connection then waits to write
    /// the response; no bytes, bytes that hold no request and errors close
    /// it; a read that would block changes nothing. Only a connection that
    /// awaits a read reacts. A connection that is closed gives up its read
    /// buffer; no other buffer changes.
    pub fn handle_read(&mut self, token: u64, outcome: ReadOutcome, router: &Router) -> (r:
        Applied<S>)
        ensures
            final(self).connections().inv(),
            all_waiting(final(self)@),
            old(self).buffered() ==> final(self).buffered(),
            final(self).read_buffers() == if r is Closed {
                old(self).read_buffers().remove(token)
            } else {
                old(self).read_buffers()
            },
            if old(self)@.contains_key(token) && old(self)@[token].state is AwaitingRead {
                exists|ev: ReadEvent|
                    read_follows(router, buffer_of(old(self).read_buffers(), token), outcome, ev)
                        && #[trigger] old(self).connections().applied(
                        &final(self).connections(),
                        token,
                        ConnStep::Read(ev),
                        r,
                    )
            } else {
                &&& final(self)@ == old(self)@
                &&& final(self).connections().sockets() == old(self).connections().sockets()
                &&& final(self).connections().fresh_token() == old(
                    self,
                ).connections().fresh_token()
                &&& r == if old(self)@.contains_key(token) {
                    Applied::<S>::Kept(Transition::Stay)
                } else {
                    Applied::<S>::Unknown
                }
            },
    {
        let nothing: Vec<u8> = Vec::new();
        let ghost before = self.waiting;
        let ghost held = buffer_of(self.buffers@, token);
        let r = {
            let buf: &[u8] = match self.buffers.get(token) {
                Some(buf) => buf,
                None => nothing.as_slice(),
            };
            let result = match outcome {
                ReadOutcome::Read(n) => if n > buf.len() {
                    ReadResult::Failed
                } else {
                    ReadResult::Data(slice_subrange(buf, 0, n))
                },
                ReadOutcome::WouldBlock => ReadResult::WouldBlock,
                ReadOutcome::Failed => ReadResult::Failed,
            };
            proof {
                assert(buf@ == held);
                assert forall|ev: ReadEvent| may_follow(router, result, ev) implies read_follows(
                    router,
                    held,
                    outcome,
                    ev,
                ) by {}
            }
            self.waiting.handle_read(token, result, router)
        };
        match &r {
            Applied::Closed(_, _) => {
                self.buffers.remove(token);
            },
            _ => {},
        }
        proof {
            if before@.contains_key(token) && before@[token].state is AwaitingRead {
                let ev = choose|ev: ReadEvent|
                    read_follows(router, held, outcome, ev) && #[trigger] before.connections().applied(
                        &self.waiting.connections(),
                        token,
                        ConnStep::Read(ev),
                        r,
                    );
                assert(old(self).connections().applied(
                    &self.connections(),
                    token,
                    ConnStep::Read(ev),
                    r,
                ));
            }
        }
        r
    }

    /// Takes the connection under `token` one step further after a write
    /// attempt. Bytes taken move the write cursor; when the whole response
    /// is flushed the connection waits to read again; an error closes it;
    /// a write that would block changes nothing. A connection that is
    /// closed gives up its read buffer; no other buffer changes.
    pub fn handle_write(&mut self, token: u64, ev: WriteEvent) -> (r: Applied<S>)
        ensures
            final(self).connections().inv(),
            all_waiting(final(self)@),
            old(self).buffered() ==> final(self).buffered(),
            final(self).read_buffers() == if r is Closed {
                old(self).read_buffers().remove(token)
            } else {
                old(self).read_buffers()
            },
            old(self).connections().applied(
                &final(self).connections(),
                token,
                ConnStep::Write(ev),
                r,
            ),
    {
        let r = self.waiting.handle_write(token, ev);
        match &r {
            Applied::Closed(_, _) => {
                self.buffers.remove(token);
            },
            _ => {},
        }
        r
    }
}

} // verus!
