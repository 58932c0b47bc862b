//! The completion-based reactor.
//!
//! Operations are submitted ahead of time and their results drain from a
//! completion queue. The reactor keeps a backlog of the connections that
//! wait for an operation to be submitted. The worker takes submissions from
//! the backlog, pushes each to the ring and reports how the push went. A
//! submission that was queued is outstanding from then on. A submission that
//! finds the ring full is no error of its connection: it stays on the
//! backlog, the iteration fails, and the next iteration tries it again. For
//! each completion the reactor takes the connection one step further and
//! puts it back on the backlog for its next operation.
//!
//! The reactor keeps the read buffer and the response of each connection.
//! The worker borrows them to build a submission; while the operation is
//! outstanding no function of the reactor moves, resizes or frees either, and
//! they are released only on the completion that closes the connection.

use crate::http::router::Router;
use crate::server::buffers::{buffer_of, ReadBuffers};
use crate::server::conn::{
    lemma_close_is_announced, CloseCause, ConnModel, ConnState, ConnStep, ReadEvent, Transition,
    WriteEvent,
};
use crate::server::serve::{follows, read_event, ReadResult};
use crate::server::table::{settle, Applied, ConnectionTable};
use std::collections::VecDeque;
use vstd::prelude::*;
use vstd::slice::slice_subrange;

verus! {

/// The size of the buffer that each connection reads into.
pub const BUF_SIZE: usize = 8 * 1024;

/// The number of entries of the submission queue.
pub const RING_ENTRIES: u32 = 2 * 1024;

/// How long an idle worker sleeps, in milliseconds.
pub const IDLE_SLEEP_MS: u64 = 1;

/// The token of a worker's first connection.
pub const FIRST_TOKEN: u64 = 1;

/// The kind of operation to submit.
#[derive(Clone, Copy, Debug, PartialEq, Eq, Structural)]
pub enum Operation {
    /// A read into the connection's read buffer.
    Read,
    /// A write of the connection's unflushed remainder.
    Write,
}

/// An operation to submit, tagged with the token of its connection.
#[derive(Clone, Copy, Debug, PartialEq, Eq, Structural)]
pub struct Submission {
    pub token: u64,
    pub op: Operation,
}

/// How the push of a submission to the submission queue went.
#[derive(Clone, Copy, Debug, PartialEq, Eq, Structural)]
pub enum PushOutcome {
    /// The queue took the operation.
    Queued,
    /// The queue is full.
    QueueFull,
}

/// What the worker must do after a push.
#[derive(Clone, Copy, Debug, PartialEq, Eq, Structural)]
pub enum PushAction {
    /// Go on with the next submission.
    Continue,
    /// End this iteration with an error; the next one tries the submission
    /// again.
    FailIteration,
}

/// True if the connection under `token` waits for an operation to be
/// submitted.
pub open spec fn owed(conns: Map<u64, ConnModel>, token: u64) -> bool {
    conns.contains_key(token) && conns[token].can_submit()
}

/// The operation that a waiting connection needs.
pub open spec fn operation_of(m: ConnModel) -> Operation {
    if m.state is AwaitingWrite {
        Operation::Write
    } else {
        Operation::Read
    }
}

/// The place in `backlog` of the first token whose connection waits for a
/// submission, or the length of `backlog` if there is none.
pub open spec fn first_owed(conns: Map<u64, ConnModel>, backlog: Seq<u64>) -> int
    decreases backlog.len(),
{
    if backlog.len() == 0 {
        0
    } else if owed(conns, backlog[0]) {
        0
    } else {
        1 + first_owed(conns, backlog.drop_first())
    }
}

/// True if `ev` is an event that the completion of a read with the result
/// `res` may bring, where `read_buf` is the buffer that was read into. A
/// result beyond the buffer counts as a failure.
pub open spec fn read_completes(router: &Router, read_buf: Seq<u8>, res: i32, ev: ReadEvent) -> bool {
    if res > read_buf.len() {
        ev is Failed
    } else {
        follows(router, read_buf.take(res as int), ev)
    }
}

/// The connection after its operation completed with the result `res`,
/// where `ev` is what a completed read brought. A negative result closes
/// the connection. Otherwise the operation is no longer outstanding, and a
/// read is applied as the event it brought, a write as `res` bytes taken.
/// A connection without an outstanding operation does not react.
pub open spec fn completed(m: ConnModel, res: i32, ev: ReadEvent) -> ConnModel {
    if res < 0 {
        ConnModel::closed()
    } else {
        match m.state {
            ConnState::ReadPending => m.complete().on_read(ev),
            ConnState::WritePending => m.complete().on_write(WriteEvent::Wrote(res as usize)),
            _ => m,
        }
    }
}

/// What the completion asks of the worker.
pub open spec fn completion_transition(m: ConnModel, res: i32, ev: ReadEvent) -> Transition {
    if res < 0 {
        Transition::Close(CloseCause::IoError)
    } else {
        match m.state {
            ConnState::ReadPending => m.complete().read_transition(ev),
            ConnState::WritePending => m.complete().write_transition(
                WriteEvent::Wrote(res as usize),
            ),
            _ => Transition::Stay,
        }
    }
}

/// Both backends take a connection through the same steps: an operation
/// that is submitted and completes with a result that is not negative
/// leaves the connection where the same result of a direct attempt would
/// have left it, and asks the same of the worker.
pub proof fn lemma_completion_is_attempt(m: ConnModel, res: i32, ev: ReadEvent)
    requires
        res >= 0,
        m.can_submit(),
    ensures
        m.state is AwaitingRead ==> completed(m.submit(), res, ev) == m.on_read(ev)
            && completion_transition(m.submit(), res, ev) == m.read_transition(ev),
        m.state is AwaitingWrite ==> completed(m.submit(), res, ev) == m.on_write(
            WriteEvent::Wrote(res as usize),
        ) && completion_transition(m.submit(), res, ev) == m.write_transition(
            WriteEvent::Wrote(res as usize),
        ),
{
}

/// Table and backlog, kept together.
struct Core<S> {
    table: ConnectionTable<S>,
    backlog: VecDeque<u64>,
}

impl<S> Core<S> {
    /// Every connection that waits for a submission is on the backlog.
    spec fn wf(self) -> bool {
        &&& self.table.inv()
        &&& forall|t: u64| owed(self.table@, t) ==> self.backlog@.contains(t)
    }

    fn empty() -> (core: Self)
        ensures
            core.wf(),
            core.table@ == Map::<u64, ConnModel>::empty(),
            core.table.sockets() == Map::<u64, S>::empty(),
            core.table.fresh_token() == FIRST_TOKEN,
            core.backlog@ == Seq::<u64>::empty(),
    {
        Core { table: ConnectionTable::new(FIRST_TOKEN), backlog: VecDeque::new() }
    }

    fn add(&mut self, stream: S) -> (r: Result<u64, S>)
        requires
            old(self).wf(),
        ensures
            final(self).wf(),
            match r {
                Ok(token) => {
                    &&& token == old(self).table.fresh_token()
                    &&& token < u64::MAX
                    &&& !old(self).table@.contains_key(token)
                    &&& final(self).table.fresh_token() == token + 1
                    &&& final(self).table@ == old(self).table@.insert(token, ConnModel::initial())
                    &&& final(self).table.sockets() == old(self).table.sockets().insert(
                        token,
                        stream,
                    )
                    &&& final(self).backlog@ == old(self).backlog@.push(token)
                },
                Err(back) => {
                    &&& old(self).table.fresh_token() == u64::MAX
                    &&& back == stream
                    &&& final(self).table@ == old(self).table@
                    &&& final(self).table.sockets() == old(self).table.sockets()
                    &&& final(self).table.fresh_token() == old(self).table.fresh_token()
                    &&& final(self).backlog@ == old(self).backlog@
                },
            },
    {
        match self.table.insert(stream) {
            Ok(token) => {
                self.backlog.push_back(token);
                proof {
                    let before = old(self).backlog@;
                    assert forall|t: u64| owed(self.table@, t) implies self.backlog@.contains(
                        t,
                    ) by {
                        if t == token {
                            assert(self.backlog@[before.len() as int] == token);
                        } else {
                            assert(owed(old(self).table@, t));
                            assert(before.contains(t));
                            let i = choose|i: int| 0 <= i < before.len() && before[i] == t;
                            assert(self.backlog@[i] == t);
                        }
                    }
                }
                Ok(token)
            },
            Err(back) => Err(back),
        }
    }

    fn next_submission(&mut self) -> (r: Option<Submission>)
        requires
            old(self).wf(),
        ensures
            final(self).wf(),
            final(self).table == old(self).table,
            final(self).backlog@ == old(self).backlog@.skip(
                first_owed(old(self).table@, old(self).backlog@),
            ),
            r == next_in(old(self).table@, old(self).backlog@),
            r is None ==> forall|t: u64| !owed(old(self).table@, t),
    {
        let ghost conns = self.table@;
        let ghost start = self.backlog@;
        let ghost mut k: int = 0;
        assert(start.skip(0) =~= start);
        while self.backlog.len() > 0
            invariant
                self.wf(),
                self.table == old(self).table,
                conns == self.table@,
                start == old(self).backlog@,
                0 <= k <= start.len(),
                self.backlog@ == start.skip(k),
                first_owed(conns, start) == k + first_owed(conns, self.backlog@),
            decreases self.backlog@.len(),
        {
            let token = self.backlog[0];
            let ghost now = self.backlog@;
            match self.table.state(token) {
                Some(ConnState::AwaitingRead) => {
                    assert(first_owed(conns, now) == 0);
                    assert(start[k] == now[0]);
                    return Some(Submission { token, op: Operation::Read });
                },
                Some(ConnState::AwaitingWrite) => {
                    assert(first_owed(conns, now) == 0);
                    assert(start[k] == now[0]);
                    return Some(Submission { token, op: Operation::Write });
                },
                _ => {
                    self.backlog.pop_front();
                    proof {
                        assert(!owed(conns, token));
                        assert(self.backlog@ =~= now.drop_first());
                        assert(self.backlog@ =~= start.skip(k + 1));
                        assert forall|t: u64| owed(conns, t) implies self.backlog@.contains(
                            t,
                        ) by {
                            assert(now.contains(t));
                            let i = choose|i: int| 0 <= i < now.len() && now[i] == t;
                            assert(i > 0);
                            assert(self.backlog@[i - 1] == t);
                        }
                        k = k + 1;
                    }
                },
            }
        }
        proof {
            assert(first_owed(conns, self.backlog@) == 0);
            assert(k == start.len());
            assert forall|t: u64| !owed(conns, t) by {
                if owed(conns, t) {
                    assert(self.backlog@.contains(t));
                }
            }
        }
        None
    }

    fn submitted(&mut self, token: u64) -> (accepted: bool)
        requires
            old(self).wf(),
        ensures
            final(self).wf(),
            accepted == owed(old(self).table@, token),
            final(self).table@ == if old(self).table@.contains_key(token) {
                old(self).table@.insert(token, old(self).table@[token].submit())
            } else {
                old(self).table@
            },
            final(self).table.sockets() == old(self).table.sockets(),
            final(self).table.fresh_token() == old(self).table.fresh_token(),
            final(self).backlog@ == old(self).backlog@,
    {
        let accepted = match self.table.state(token) {
            Some(ConnState::AwaitingRead) => true,
            Some(ConnState::AwaitingWrite) => true,
            _ => false,
        };
        let r = self.table.apply(token, ConnStep::Submit);
        proof {
            assert forall|t: u64| owed(self.table@, t) implies self.backlog@.contains(t) by {
                assert(owed(old(self).table@, t));
            }
        }
        accepted
    }

    fn on_completion(&mut self, token: u64, res: i32, read_buf: &[u8], router: &Router) -> (r:
        Applied<S>)
        requires
            old(self).wf(),
        ensures
            final(self).wf(),
            final(self).table.fresh_token() == old(self).table.fresh_token(),
            !old(self).table@.contains_key(token) ==> {
                &&& r is Unknown
                &&& final(self).table@ == old(self).table@
                &&& final(self).table.sockets() == old(self).table.sockets()
                &&& final(self).backlog@ == old(self).backlog@
            },
            old(self).table@.contains_key(token) ==> exists|ev: ReadEvent|
                {
                    &&& res >= 0 && old(self).table@[token].state is ReadPending
                        ==> read_completes(router, read_buf@, res, ev)
                    &&& #[trigger] completes(
                        old(self).table,
                        old(self).backlog@,
                        final(self).table,
                        final(self).backlog@,
                        token,
                        res,
                        ev,
                        r,
                    )
                },
    {
        let state = match self.table.state(token) {
            None => {
                return Applied::Unknown;
            },
            Some(state) => state,
        };
        let ghost m = self.table@[token];
        if res < 0 {
            let r = match self.table.remove(token) {
                Some(stream) => Applied::Closed(stream, CloseCause::IoError),
                None => Applied::Unknown,
            };
            proof {
                assert forall|t: u64| owed(self.table@, t) implies self.backlog@.contains(t) by {
                    assert(owed(old(self).table@, t));
                }
                assert(completes(
                    old(self).table,
                    old(self).backlog@,
                    self.table,
                    self.backlog@,
                    token,
                    res,
                    ReadEvent::Failed,
                    r,
                ));
            }
            return r;
        }
        let n: usize = res as usize;
        let step = match state {
            ConnState::ReadPending => {
                let ev = if n > read_buf.len() {
                    ReadEvent::Failed
                } else {
                    read_event(router, ReadResult::Data(slice_subrange(read_buf, 0, n)))
                };
                ConnStep::Read(ev)
            },
            ConnState::WritePending => ConnStep::Write(WriteEvent::Wrote(n)),
            _ => {
                proof {
                    assert(self.table@ =~= settle(self.table@, token, m));
                    assert(completes(
                        old(self).table,
                        old(self).backlog@,
                        self.table,
                        self.backlog@,
                        token,
                        res,
                        ReadEvent::Failed,
                        Applied::<S>::Kept(Transition::Stay),
                    ));
                }
                return Applied::Kept(Transition::Stay);
            },
        };
        let ghost taken = step;
        let ghost ev = match taken {
            ConnStep::Read(ev) => ev,
            _ => ReadEvent::Failed,
        };
        self.table.apply(token, ConnStep::Complete);
        let ghost waiting = self.table@;
        let r = self.table.apply(token, step);
        match r {
            Applied::Kept(_) => {
                self.backlog.push_back(token);
            },
            _ => {},
        }
        proof {
            let before = old(self).backlog@;
            assert(waiting[token] == m.complete());
            assert(m.complete().step(taken) == completed(m, res, ev));
            assert(m.complete().transition(taken) == completion_transition(m, res, ev));
            assert(self.table@ =~= settle(old(self).table@, token, completed(m, res, ev)));
            assert forall|t: u64| owed(self.table@, t) implies self.backlog@.contains(t) by {
                if t == token {
                    assert(self.backlog@[before.len() as int] == token);
                } else {
                    assert(owed(old(self).table@, t));
                    assert(before.contains(t));
                    let i = choose|i: int| 0 <= i < before.len() && before[i] == t;
                    assert(self.backlog@[i] == t);
                }
            }
            assert(completes(
                old(self).table,
                old(self).backlog@,
                self.table,
                self.backlog@,
                token,
                res,
                ev,
                r,
            ));
        }
        r
    }
}

/// The submission that stands first in the backlog, if any connection on it
/// waits for one.
pub open spec fn next_in(conns: Map<u64, ConnModel>, backlog: Seq<u64>) -> Option<Submission> {
    let k = first_owed(conns, backlog);
    if k < backlog.len() {
        Some(Submission { token: backlog[k], op: operation_of(conns[backlog[k]]) })
    } else {
        None
    }
}

/// True if table, backlog and `r` after a completion are what the
/// completion with result `res` for the known connection under `token`
/// makes of them, where `ev` is what a completed read brought. The
/// connection becomes `completed(..)`; closed, it leaves the table and its
/// socket is handed out; kept after an operation that was outstanding, it
/// is put on the backlog for its next operation.
pub open spec fn completes<S>(
    table: ConnectionTable<S>,
    backlog: Seq<u64>,
    table_after: ConnectionTable<S>,
    backlog_after: Seq<u64>,
    token: u64,
    res: i32,
    ev: ReadEvent,
    r: Applied<S>,
) -> bool {
    let m = table@[token];
    let step = completion_transition(m, res, ev);
    &&& table_after@ == settle(table@, token, completed(m, res, ev))
    &&& match step {
        Transition::Close(cause) => {
            &&& r == Applied::Closed(table.sockets()[token], cause)
            &&& table_after.sockets() == table.sockets().remove(token)
            &&& backlog_after == backlog
        },
        _ => {
            &&& r == Applied::<S>::Kept(step)
            &&& table_after.sockets() == table.sockets()
            &&& backlog_after == if m.state.outstanding() == 1 {
                backlog.push(token)
            } else {
                backlog
            }
        },
    }
}

/// Table and backlog behind their invariant: every connection that waits
/// for a submission is on the backlog. Each function is the part that the
/// reactor's function of the same name has in table and backlog.
struct Engine<S> {
    core: Core<S>,
}

impl<S> View for Engine<S> {
    type V = Map<u64, ConnModel>;

    closed spec fn view(&self) -> Map<u64, ConnModel> {
        self.core.table@
    }
}

impl<S> Engine<S> {
    #[verifier::type_invariant]
    spec fn well_formed(self) -> bool {
        self.core.wf()
    }

    spec fn connections(&self) -> ConnectionTable<S> {
        self.core.table
    }

    spec fn backlog(&self) -> Seq<u64> {
        self.core.backlog@
    }

    fn new() -> (reactor: Self)
        ensures
            reactor@ == Map::<u64, ConnModel>::empty(),
            reactor.connections().sockets() == Map::<u64, S>::empty(),
            reactor.connections().fresh_token() == FIRST_TOKEN,
            reactor.backlog() == Seq::<u64>::empty(),
    {
        Engine { core: Core::empty() }
    }

    fn table(&self) -> (table: &ConnectionTable<S>)
        ensures
            *table == self.connections(),
            table@ == self@,
    {
        &self.core.table
    }

    fn add_connection(&mut self, stream: S) -> (r: Result<u64, S>)
        ensures
            match r {
                Ok(token) => {
                    &&& token == old(self).connections().fresh_token()
                    &&& token < u64::MAX
                    &&& !old(self)@.contains_key(token)
                    &&& final(self).connections().fresh_token() == token + 1
                    &&& final(self)@ == old(self)@.insert(token, ConnModel::initial())
                    &&& final(self).connections().sockets() == old(
                        self,
                    ).connections().sockets().insert(token, stream)
                    &&& final(self).backlog() == old(self).backlog().push(token)
                },
                Err(back) => {
                    &&& old(self).connections().fresh_token() == u64::MAX
                    &&& back == stream
                    &&& final(self)@ == old(self)@
                    &&& final(self).connections().sockets() == old(self).connections().sockets()
                    &&& final(self).connections().fresh_token() == old(
                        self,
                    ).connections().fresh_token()
                    &&& final(self).backlog() == old(self).backlog()
                },
            },
    {
        proof {
            use_type_invariant(&*self);
        }
        // The state is taken out while it changes and put back after.
        let mut core = Core::empty();
        core::mem::swap(&mut self.core, &mut core);
        let r = core.add(stream);
        core::mem::swap(&mut self.core, &mut core);
        r
    }

    fn next_submission(&mut self) -> (r: Option<Submission>)
        ensures
            final(self).connections() == old(self).connections(),
            final(self).backlog() == old(self).backlog().skip(
                first_owed(old(self)@, old(self).backlog()),
            ),
            r == next_in(old(self)@, old(self).backlog()),
            r is None ==> forall|t: u64| !owed(old(self)@, t),
    {
        proof {
            use_type_invariant(&*self);
        }
        // The state is taken out while it changes and put back after.
        let mut core = Core::empty();
        core::mem::swap(&mut self.core, &mut core);
        let r = core.next_submission();
        core::mem::swap(&mut self.core, &mut core);
        r
    }

    fn submitted(&mut self, token: u64) -> (accepted: bool)
        ensures
            accepted == owed(old(self)@, token),
            final(self)@ == if old(self)@.contains_key(token) {
                old(self)@.insert(token, old(self)@[token].submit())
            } else {
                old(self)@
            },
            final(self).connections().sockets() == old(self).connections().sockets(),
            final(self).connections().fresh_token() == old(self).connections().fresh_token(),
            final(self).backlog() == old(self).backlog(),
    {
        proof {
            use_type_invariant(&*self);
        }
        // The state is taken out while it changes and put back after.
        let mut core = Core::empty();
        core::mem::swap(&mut self.core, &mut core);
        let accepted = core.submitted(token);
        core::mem::swap(&mut self.core, &mut core);
        accepted
    }

    fn on_completion(&mut self, token: u64, res: i32, read_buf: &[u8], router: &Router) -> (r:
        Applied<S>)
        ensures
            old(self).connections().inv(),
            final(self).connections().inv(),
            final(self).connections().fresh_token() == old(self).connections().fresh_token(),
            !old(self)@.contains_key(token) ==> {
                &&& r is Unknown
                &&& final(self)@ == old(self)@
                &&& final(self).connections().sockets() == old(self).connections().sockets()
                &&& final(self).backlog() == old(self).backlog()
            },
            old(self)@.contains_key(token) ==> exists|ev: ReadEvent|
                {
                    &&& res >= 0 && old(self)@[token].state is ReadPending ==> read_completes(
                        router,
                        read_buf@,
                        res,
                        ev,
                    )
                    &&& #[trigger] completes(
                        old(self).connections(),
                        old(self).backlog(),
                        final(self).connections(),
                        final(self).backlog(),
                        token,
                        res,
                        ev,
                        r,
                    )
                },
    {
        proof {
            use_type_invariant(&*self);
        }
        // The state is taken out while it changes and put back after.
        let mut core = Core::empty();
        core::mem::swap(&mut self.core, &mut core);
        let ghost before = core;
        let r = core.on_completion(token, res, read_buf, router);
        let ghost after = core;
        core::mem::swap(&mut self.core, &mut core);
        proof {
            if before.table@.contains_key(token) {
                let ev = choose|ev: ReadEvent|
                    {
                        &&& res >= 0 && before.table@[token].state is ReadPending
                            ==> read_completes(router, read_buf@, res, ev)
                        &&& #[trigger] completes(
                            before.table,
                            before.backlog@,
                            after.table,
                            after.backlog@,
                            token,
                            res,
                            ev,
                            r,
                        )
                    };
                assert(completes(
                    old(self).connections(),
                    old(self).backlog(),
                    self.connections(),
                    self.backlog(),
                    token,
                    res,
                    ev,
                    r,
                ));
            }
        }
        r
    }

    fn is_idle(&self, queued: usize) -> (idle: bool)
        ensures
            idle == (queued == 0 && self@.len() == 0),
    {
        queued == 0 && self.core.table.is_empty()
    }
}

/// The connections of one worker, their read buffers, and the rules that
/// drive them from completions.
pub struct CompletionReactor<S> {
    engine: Engine<S>,
    buffers: ReadBuffers,
}

impl<S> View for CompletionReactor<S> {
    type V = Map<u64, ConnModel>;

    open spec fn view(&self) -> Map<u64, ConnModel> {
        self.connections()@
    }
}

impl<S> CompletionReactor<S> {
    /// The table of connections.
    pub closed spec fn connections(&self) -> ConnectionTable<S> {
        self.engine.connections()
    }

    /// The tokens of the connections that were put up for a submission, in
    /// the order in which they will be looked at.
    pub closed spec fn backlog(&self) -> Seq<u64> {
        self.engine.backlog()
    }

    /// What the read buffer of each connection holds.
    pub closed spec fn read_buffers(&self) -> Map<u64, Seq<u8>> {
        self.buffers@
    }

    /// True if each connection has its read buffer and there is no buffer
    /// without a connection. This holds of a new reactor, and every
    /// function keeps it.
    pub open spec fn buffered(&self) -> bool {
        self.read_buffers().dom() =~= self@.dom()
    }

    /// A reactor without connections.
    pub fn new() -> (reactor: Self)
        ensures
            reactor@ == Map::<u64, ConnModel>::empty(),
            reactor.connections().sockets() == Map::<u64, S>::empty(),
            reactor.connections().fresh_token() == FIRST_TOKEN,
            reactor.backlog() == Seq::<u64>::empty(),
            reactor.read_buffers() == Map::<u64, Seq<u8>>::empty(),
            reactor.buffered(),
    {
        CompletionReactor { engine: Engine::new(), buffers: ReadBuffers::new() }
    }

    /// The table of connections, to look at.
    pub fn table(&self) -> (table: &ConnectionTable<S>)
        ensures
            *table == self.connections(),
            table@ == self@,
    {
        self.engine.table()
    }

    /// Takes in a socket from the inbound queue, makes its read buffer of
    /// `BUF_SIZE` bytes, and puts the connection up for its first read.
    /// When the tokens are used up the socket is handed back.
    pub fn add_connection(&mut self, stream: S) -> (r: Result<u64, S>)
        ensures
            old(self).buffered() ==> final(self).buffered(),
            match r {
                Ok(token) => {
                    &&& token == old(self).connections().fresh_token()
                    &&& token < u64::MAX
                    &&& !old(self)@.contains_key(token)
                    &&& final(self).connections().fresh_token() == token + 1
                    &&& final(self)@ == old(self)@.insert(token, ConnModel::initial())
                    &&& final(self).connections().sockets() == old(
                        self,
                    ).connections().sockets().insert(token, stream)
                    &&& final(self).backlog() == old(self).backlog().push(token)
                    &&& final(self).read_buffers() == old(self).read_buffers().insert(
                        token,
                        Seq::new(BUF_SIZE as nat, |i: int| 0u8),
                    )
                },
                Err(back) => {
                    &&& old(self).connections().fresh_token() == u64::MAX
                    &&& back == stream
                    &&& final(self)@ == old(self)@
                    &&& final(self).connections().sockets() == old(self).connections().sockets()
                    &&& final(self).connections().fresh_token() == old(
                        self,
                    ).connections().fresh_token()
                    &&& final(self).backlog() == old(self).backlog()
                    &&& final(self).read_buffers() == old(self).read_buffers()
                },
            },
    {
        match self.engine.add_connection(stream) {
            Ok(token) => {
                self.buffers.insert(token, BUF_SIZE);
                Ok(token)
            },
            Err(back) => Err(back),
        }
    }

    /// Lends out the read buffer of the connection under `token`, so that
    /// a read into it can be submitted. The buffer stays in its place:
    /// what the OS writes into the slice is what the buffer holds when the
    /// read has completed. Nothing else changes.
    pub fn read_buffer(&mut self, token: u64) -> (buf: Option<&mut [u8]>)
        ensures
            final(self).connections() == old(self).connections(),
            final(self).backlog() == old(self).backlog(),
            old(self).buffered() ==> final(self).buffered(),
            match buf {
                Some(b) => {
                    &&& old(self).read_buffers().contains_key(token)
                    &&& b@ == old(self).read_buffers()[token]
                    &&& final(self).read_buffers() == old(self).read_buffers().insert(
                        token,
                        final(b)@,
                    )
                },
                None => {
                    &&& !old(self).read_buffers().contains_key(token)
                    &&& final(self).read_buffers() == old(self).read_buffers()
                },
            },
    {
        self.buffers.get_mut(token)
    }

    /// The next operation to submit: that of the first connection on the
    /// backlog that waits for one. Entries before it are dropped; the entry
    /// itself stays until the submission is reported. None means that every
    /// connection has its operation outstanding.
    pub fn next_submission(&mut self) -> (r: Option<Submission>)
        ensures
            final(self).connections() == old(self).connections(),
            final(self).read_buffers() == old(self).read_buffers(),
            final(self).backlog() == old(self).backlog().skip(
                first_owed(old(self)@, old(self).backlog()),
            ),
            r == next_in(old(self)@, old(self).backlog()),
            r is None ==> forall|t: u64| !owed(old(self)@, t),
    {
        self.engine.next_submission()
    }

    /// Records that the operation of the connection under `token` was
    /// pushed to the ring: it is outstanding from now on. Returns false,
    /// and changes nothing, unless that connection waits for a submission;
    /// so no connection ever has two operations outstanding.
    pub fn submitted(&mut self, token: u64) -> (accepted: bool)
        ensures
            accepted == owed(old(self)@, token),
            final(self)@ == if old(self)@.contains_key(token) {
                old(self)@.insert(token, old(self)@[token].submit())
            } else {
                old(self)@
            },
            final(self).connections().sockets() == old(self).connections().sockets(),
            final(self).connections().fresh_token() == old(self).connections().fresh_token(),
            final(self).backlog() == old(self).backlog(),
            final(self).read_buffers() == old(self).read_buffers(),
    {
        self.engine.submitted(token)
    }

    /// Decides what follows the push of the submission for `token`. A
    /// queued operation is outstanding from now on, and the worker goes on.
    /// A full queue changes nothing: the submission is still the next one on
    /// the backlog, and the iteration fails so that the next one can try
    /// again once the ring has drained.
    pub fn on_push(&mut self, token: u64, outcome: PushOutcome) -> (action: PushAction)
        ensures
            final(self).backlog() == old(self).backlog(),
            final(self).connections().sockets() == old(self).connections().sockets(),
            final(self).connections().fresh_token() == old(self).connections().fresh_token(),
            final(self).read_buffers() == old(self).read_buffers(),
            match outcome {
                PushOutcome::Queued => action == PushAction::Continue && final(self)@ == if old(
                    self,
                )@.contains_key(token) {
                    old(self)@.insert(token, old(self)@[token].submit())
                } else {
                    old(self)@
                },
                PushOutcome::QueueFull => action == PushAction::FailIteration && final(self)@
                    == old(self)@,
            },
    {
        match outcome {
            PushOutcome::Queued => {
                self.engine.submitted(token);
                PushAction::Continue
            },
            PushOutcome::QueueFull => PushAction::FailIteration,
        }
    }

    /// Takes the connection under `token` one step further after the
    /// completion of its operation with the result `res`. A completed read
    /// is answered from the connection's own read buffer. A connection that
    /// is closed gives up its read buffer; no other buffer changes, so the
    /// buffer of a read that is still outstanding stays as it is. A
    /// completion for a token that names no connection is stale and changes
    /// nothing.
    pub fn on_completion(&mut self, token: u64, res: i32, router: &Router) -> (r: Applied<S>)
        ensures
            final(self).connections().fresh_token() == old(self).connections().fresh_token(),
            old(self).buffered() ==> final(self).buffered(),
            final(self).read_buffers() == if r is Closed {
                old(self).read_buffers().remove(token)
            } else {
                old(self).read_buffers()
            },
            !old(self)@.contains_key(token) ==> {
                &&& r is Unknown
                &&& final(self)@ == old(self)@
                &&& final(self).connections().sockets() == old(self).connections().sockets()
                &&& final(self).backlog() == old(self).backlog()
            },
            old(self)@.contains_key(token) ==> exists|ev: ReadEvent|
                {
                    &&& res >= 0 && old(self)@[token].state is ReadPending ==> read_completes(
                        router,
                        buffer_of(old(self).read_buffers(), token),
                        res,
                        ev,
                    )
                    &&& #[trigger] completes(
                        old(self).connections(),
                        old(self).backlog(),
                        final(self).connections(),
                        final(self).backlog(),
                        token,
                        res,
                        ev,
                        r,
                    )
                },
    {
        let nothing: Vec<u8> = Vec::new();
        let ghost before = self.engine;
        let r = {
            let read_buf: &[u8] = match self.buffers.get(token) {
                Some(buf) => buf,
                None => nothing.as_slice(),
            };
            assert(read_buf@ == buffer_of(old(self).read_buffers(), token));
            self.engine.on_completion(token, res, read_buf, router)
        };
        match &r {
            Applied::Closed(_, _) => {
                self.buffers.remove(token);
            },
            _ => {},
        }
        proof {
            let read = buffer_of(old(self).read_buffers(), token);
            if before@.contains_key(token) {
                let m = before@[token];
                let ev = choose|ev: ReadEvent|
                    {
                        &&& res >= 0 && m.state is ReadPending ==> read_completes(
                            router,
                            read,
                            res,
                            ev,
                        )
                        &&& #[trigger] completes(
                            before.connections(),
                            before.backlog(),
                            self.engine.connections(),
                            self.engine.backlog(),
                            token,
                            res,
                            ev,
                            r,
                        )
                    };
                lemma_close_is_announced(m.complete(), ConnStep::Read(ev));
                lemma_close_is_announced(
                    m.complete(),
                    ConnStep::Write(WriteEvent::Wrote(res as usize)),
                );
                assert(completes(
                    old(self).connections(),
                    old(self).backlog(),
                    self.connections(),
                    self.backlog(),
                    token,
                    res,
                    ev,
                    r,
                ));
            }
        }
        r
    }

    /// True if the worker may sleep: nothing is queued for submission and
    /// no connection exists.
    pub fn is_idle(&self, queued: usize) -> (idle: bool)
        ensures
            idle == (queued == 0 && self@.len() == 0),
    {
        self.engine.is_idle(queued)
    }
}

} // verus!
