//! The per-connection state machine that both reactor backends drive.
//!
//! A connection waits for a request, answers it from a single read, flushes
//! the response through as many partial writes as the socket needs, and then
//! waits for the next request. With a completion-based backend each wait is
//! preceded by a submission, which makes the operation outstanding until its
//! completion is observed.

use vstd::prelude::*;

verus! {

/// Where a connection stands in its read, dispatch, write cycle.
#[derive(Clone, Copy, Debug, PartialEq, Eq, Structural)]
pub enum ConnState {
    /// No response is buffered and no operation is outstanding.
    AwaitingRead,
    /// A read has been handed to the OS and has not completed yet.
    ReadPending,
    /// Part of a response is still unflushed and no operation is outstanding.
    AwaitingWrite,
    /// A write of the unflushed remainder has been handed to the OS.
    WritePending,
    /// The connection is finished and its buffers are released.
    Closed,
}

impl ConnState {
    /// The number of operations that the OS currently holds for the connection.
    pub open spec fn outstanding(self) -> nat {
        if self is ReadPending || self is WritePending {
            1
        } else {
            0
        }
    }

    /// True while the connection holds an unflushed response.
    pub open spec fn is_writing(self) -> bool {
        self is AwaitingWrite || self is WritePending
    }
}

/// Why a connection was closed.
#[derive(Clone, Copy, Debug, PartialEq, Eq, Structural)]
pub enum CloseCause {
    /// A read returned zero bytes.
    PeerClosed,
    /// The bytes of one read did not form a request.
    Unparseable,
    /// The OS reported an error on the socket.
    IoError,
}

/// What a finished read attempt brought.
#[derive(Debug)]
pub enum ReadEvent {
    /// Zero bytes: the peer closed the connection.
    Eof,
    /// A request was parsed and routed; these are the response's wire bytes.
    Served(Vec<u8>),
    /// Bytes arrived that do not form a request.
    Rejected,
    /// Nothing to read right now.
    WouldBlock,
    /// Any other error.
    Failed,
}

/// What a finished write attempt brought.
#[derive(Clone, Copy, Debug, PartialEq, Eq, Structural)]
pub enum WriteEvent {
    /// The socket took this many bytes of the unflushed remainder.
    Wrote(usize),
    /// Nothing can be written right now.
    WouldBlock,
    /// Any other error.
    Failed,
}

/// What a step of the state machine asks of the reactor that drives it.
#[derive(Clone, Copy, Debug, PartialEq, Eq, Structural)]
pub enum Transition {
    /// The connection keeps waiting for what it waited for.
    Stay,
    /// A response was buffered: the connection now waits to write.
    ToWrite,
    /// The response is flushed: the connection now waits to read.
    ToRead,
    /// The connection is closed and must be discarded.
    Close(CloseCause),
}

/// The mathematical state of a connection.
#[verifier::ext_equal]
pub struct ConnModel {
    pub state: ConnState,
    /// The response being flushed; empty unless the connection is writing.
    pub write_buf: Seq<u8>,
    /// How many bytes of `write_buf` the socket has taken.
    pub write_pos: nat,
}

impl ConnModel {
    /// The states that a connection can be in: the cursor stays inside the
    /// buffer, and a response is buffered exactly while the connection writes.
    pub open spec fn wf(self) -> bool {
        if self.state.is_writing() {
            self.write_pos < self.write_buf.len()
        } else {
            self.write_buf.len() == 0 && self.write_pos == 0
        }
    }

    /// A fresh connection, waiting for its first request.
    pub open spec fn initial() -> Self {
        ConnModel { state: ConnState::AwaitingRead, write_buf: Seq::empty(), write_pos: 0 }
    }

    /// A connection after closing, with its buffers released.
    pub open spec fn closed() -> Self {
        ConnModel { state: ConnState::Closed, write_buf: Seq::empty(), write_pos: 0 }
    }

    /// The bytes of the response that the socket has not taken yet.
    pub open spec fn pending(self) -> Seq<u8> {
        self.write_buf.skip(self.write_pos as int)
    }

    /// True if an operation may be handed to the OS: the connection waits and
    /// nothing is outstanding.
    pub open spec fn can_submit(self) -> bool {
        self.state is AwaitingRead || self.state is AwaitingWrite
    }

    /// The connection after the operation it waits for was handed to the OS.
    /// Nothing changes unless `can_submit` holds.
    pub open spec fn submit(self) -> Self {
        match self.state {
            ConnState::AwaitingRead => ConnModel { state: ConnState::ReadPending, ..self },
            ConnState::AwaitingWrite => ConnModel { state: ConnState::WritePending, ..self },
            _ => self,
        }
    }

    /// The connection after its outstanding operation has completed, before
    /// the result is applied. Nothing changes if none is outstanding.
    pub open spec fn complete(self) -> Self {
        match self.state {
            ConnState::ReadPending => ConnModel { state: ConnState::AwaitingRead, ..self },
            ConnState::WritePending => ConnModel { state: ConnState::AwaitingWrite, ..self },
            _ => self,
        }
    }

    /// The connection after a read attempt ended with `ev`. Only a connection
    /// that awaits a read reacts.
    pub open spec fn on_read(self, ev: ReadEvent) -> Self {
        if !(self.state is AwaitingRead) {
            self
        } else {
            match ev {
                ReadEvent::Eof | ReadEvent::Rejected | ReadEvent::Failed => Self::closed(),
                ReadEvent::WouldBlock => self,
                ReadEvent::Served(bytes) => if bytes@.len() == 0 {
                    self
                } else {
                    ConnModel { state: ConnState::AwaitingWrite, write_buf: bytes@, write_pos: 0 }
                },
            }
        }
    }

    /// What the reactor must do after a read attempt ended with `ev`.
    pub open spec fn read_transition(self, ev: ReadEvent) -> Transition {
        if !(self.state is AwaitingRead) {
            Transition::Stay
        } else {
            match ev {
                ReadEvent::Eof => Transition::Close(CloseCause::PeerClosed),
                ReadEvent::Rejected => Transition::Close(CloseCause::Unparseable),
                ReadEvent::Failed => Transition::Close(CloseCause::IoError),
                ReadEvent::WouldBlock => Transition::Stay,
                ReadEvent::Served(bytes) => if bytes@.len() == 0 {
                    Transition::Stay
                } else {
                    Transition::ToWrite
                },
            }
        }
    }

    /// The connection after a write attempt ended with `ev`. Only a connection
    /// that awaits a write reacts. A write that takes the whole remainder
    /// releases the buffer; a shorter one moves the cursor by what was taken.
    pub open spec fn on_write(self, ev: WriteEvent) -> Self {
        if !(self.state is AwaitingWrite) {
            self
        } else {
            match ev {
                WriteEvent::Failed => Self::closed(),
                WriteEvent::WouldBlock => self,
                WriteEvent::Wrote(n) => if n >= self.write_buf.len() - self.write_pos {
                    Self::initial()
                } else {
                    ConnModel { write_pos: self.write_pos + n as nat, ..self }
                },
            }
        }
    }

    /// What the reactor must do after a write attempt ended with `ev`.
    pub open spec fn write_transition(self, ev: WriteEvent) -> Transition {
        if !(self.state is AwaitingWrite) {
            Transition::Stay
        } else {
            match ev {
                WriteEvent::Failed => Transition::Close(CloseCause::IoError),
                WriteEvent::WouldBlock => Transition::Stay,
                WriteEvent::Wrote(n) => if n >= self.write_buf.len() - self.write_pos {
                    Transition::ToRead
                } else {
                    Transition::Stay
                },
            }
        }
    }
}

/// The buffered part of a connection, replaced as a whole on each transition.
struct ConnCore {
    state: ConnState,
    write_buf: Vec<u8>,
    write_pos: usize,
}

impl ConnCore {
    spec fn model(self) -> ConnModel {
        ConnModel {
            state: self.state,
            write_buf: self.write_buf@,
            write_pos: self.write_pos as nat,
        }
    }
}

/// One client connection: its socket handle, the response being flushed and
/// the write cursor. The socket type is the reactor's choice; the state
/// machine never touches it.
pub struct Connection<S> {
    stream: S,
    core: ConnCore,
}

impl<S> View for Connection<S> {
    type V = ConnModel;

    closed spec fn view(&self) -> ConnModel {
        self.core.model()
    }
}

impl<S> Connection<S> {
    #[verifier::type_invariant]
    spec fn well_formed(self) -> bool {
        self.core.model().wf()
    }

    /// The socket handle that the connection owns.
    pub closed spec fn socket(self) -> S {
        self.stream
    }

    /// Wraps a freshly accepted socket: nothing buffered, nothing outstanding.
    pub fn new(stream: S) -> (conn: Self)
        ensures
            conn@ == ConnModel::initial(),
            conn.socket() == stream,
    {
        Connection {
            stream,
            core: ConnCore { state: ConnState::AwaitingRead, write_buf: Vec::new(), write_pos: 0 },
        }
    }

    /// The current state.
    pub fn state(&self) -> (state: ConnState)
        ensures
            state == self@.state,
            self@.wf(),
    {
        proof {
            use_type_invariant(self);
        }
        self.core.state
    }

    /// True while a read is outstanding with the OS.
    pub fn read_outstanding(&self) -> (flag: bool)
        ensures
            flag == (self@.state is ReadPending),
    {
        self.core.state == ConnState::ReadPending
    }

    /// True while a write is outstanding with the OS.
    pub fn write_outstanding(&self) -> (flag: bool)
        ensures
            flag == (self@.state is WritePending),
    {
        self.core.state == ConnState::WritePending
    }

    /// The number of response bytes that the socket has taken so far.
    pub fn write_pos(&self) -> (pos: usize)
        ensures
            pos == self@.write_pos,
    {
        self.core.write_pos
    }

    /// The unflushed remainder of the response: what the next write must
    /// offer to the socket, starting at the write cursor.
    pub fn pending(&self) -> (bytes: &[u8])
        ensures
            bytes@ == self@.pending(),
            self@.state.is_writing() <==> bytes@.len() > 0,
    {
        proof {
            use_type_invariant(self);
        }
        let all = self.core.write_buf.as_slice();
        vstd::slice::slice_subrange(all, self.core.write_pos, all.len())
    }

    /// The socket handle.
    pub fn stream(&self) -> (stream: &S)
        ensures
            *stream == self.socket(),
    {
        &self.stream
    }

    /// Gives up the connection and hands out its socket.
    pub fn into_stream(self) -> (stream: S)
        ensures
            stream == self.socket(),
    {
        self.stream
    }

    /// Records that the operation the connection waits for was handed to the
    /// OS. Returns false, and changes nothing, if no operation may be handed
    /// over: one is outstanding already, or the connection is closed.
    pub fn submit(&mut self) -> (accepted: bool)
        ensures
            accepted == old(self)@.can_submit(),
            final(self)@ == old(self)@.submit(),
            final(self)@.wf(),
            final(self).socket() == old(self).socket(),
    {
        proof {
            use_type_invariant(&*self);
        }
        match self.core.state {
            ConnState::AwaitingRead => {
                self.core.state = ConnState::ReadPending;
                true
            },
            ConnState::AwaitingWrite => {
                self.core.state = ConnState::WritePending;
                true
            },
            _ => false,
        }
    }

    /// Records that the outstanding operation has completed. Returns false,
    /// and changes nothing, if none was outstanding.
    pub fn complete(&mut self) -> (was_outstanding: bool)
        ensures
            was_outstanding == (old(self)@.state.outstanding() == 1),
            final(self)@ == old(self)@.complete(),
            final(self)@.wf(),
            final(self).socket() == old(self).socket(),
    {
        proof {
            use_type_invariant(&*self);
        }
        match self.core.state {
            ConnState::ReadPending => {
                self.core.state = ConnState::AwaitingRead;
                true
            },
            ConnState::WritePending => {
                self.core.state = ConnState::AwaitingWrite;
                true
            },
            _ => false,
        }
    }

    /// Applies the result of a read attempt.
    pub fn on_read(&mut self, ev: ReadEvent) -> (step: Transition)
        ensures
            final(self)@ == old(self)@.on_read(ev),
            step == old(self)@.read_transition(ev),
            final(self)@.wf(),
            final(self).socket() == old(self).socket(),
    {
        proof {
            use_type_invariant(&*self);
        }
        if self.core.state != ConnState::AwaitingRead {
            return Transition::Stay;
        }
        match ev {
            ReadEvent::Eof => {
                self.core.state = ConnState::Closed;
                Transition::Close(CloseCause::PeerClosed)
            },
            ReadEvent::Rejected => {
                self.core.state = ConnState::Closed;
                Transition::Close(CloseCause::Unparseable)
            },
            ReadEvent::Failed => {
                self.core.state = ConnState::Closed;
                Transition::Close(CloseCause::IoError)
            },
            ReadEvent::WouldBlock => Transition::Stay,
            ReadEvent::Served(bytes) => {
                if bytes.len() == 0 {
                    Transition::Stay
                } else {
                    self.core = ConnCore {
                        state: ConnState::AwaitingWrite,
                        write_buf: bytes,
                        write_pos: 0,
                    };
                    Transition::ToWrite
                }
            },
        }
    }

    /// Applies the result of a write attempt.
    pub fn on_write(&mut self, ev: WriteEvent) -> (step: Transition)
        ensures
            final(self)@ == old(self)@.on_write(ev),
            step == old(self)@.write_transition(ev),
            final(self)@.wf(),
            final(self).socket() == old(self).socket(),
    {
        proof {
            use_type_invariant(&*self);
        }
        if self.core.state != ConnState::AwaitingWrite {
            return Transition::Stay;
        }
        match ev {
            WriteEvent::Failed => {
                self.core = ConnCore {
                    state: ConnState::Closed,
                    write_buf: Vec::new(),
                    write_pos: 0,
                };
                Transition::Close(CloseCause::IoError)
            },
            WriteEvent::WouldBlock => Transition::Stay,
            WriteEvent::Wrote(n) => {
                if n >= self.core.write_buf.len() - self.core.write_pos {
                    self.core = ConnCore {
                        state: ConnState::AwaitingRead,
                        write_buf: Vec::new(),
                        write_pos: 0,
                    };
                    Transition::ToRead
                } else {
                    self.core.write_pos = self.core.write_pos + n;
                    Transition::Stay
                }
            },
        }
    }
}

/// One thing that can happen to a connection.
pub enum ConnStep {
    /// The reactor hands the awaited operation to the OS.
    Submit,
    /// The OS reports the outstanding operation as completed.
    Complete,
    /// A read attempt ended.
    Read(ReadEvent),
    /// A write attempt ended.
    Write(WriteEvent),
}

impl ConnModel {
    /// The connection after one step.
    pub open spec fn step(self, s: ConnStep) -> Self {
        match s {
            ConnStep::Submit => self.submit(),
            ConnStep::Complete => self.complete(),
            ConnStep::Read(ev) => self.on_read(ev),
            ConnStep::Write(ev) => self.on_write(ev),
        }
    }

    /// What the reactor must do after one step. Handing an operation over
    /// and seeing it completed ask nothing more of it.
    pub open spec fn transition(self, s: ConnStep) -> Transition {
        match s {
            ConnStep::Submit => Transition::Stay,
            ConnStep::Complete => Transition::Stay,
            ConnStep::Read(ev) => self.read_transition(ev),
            ConnStep::Write(ev) => self.write_transition(ev),
        }
    }

    /// The connection after a run of steps.
    pub open spec fn run(self, steps: Seq<ConnStep>) -> Self
        decreases steps.len(),
    {
        if steps.len() == 0 {
            self
        } else {
            self.step(steps[0]).run(steps.drop_first())
        }
    }

    /// How many operations a run of steps hands to the OS: the `Submit` steps
    /// that find the connection free to submit.
    pub open spec fn submitted(self, steps: Seq<ConnStep>) -> nat
        decreases steps.len(),
    {
        if steps.len() == 0 {
            0
        } else {
            let here: nat = if steps[0] is Submit && self.can_submit() {
                1
            } else {
                0
            };
            here + self.step(steps[0]).submitted(steps.drop_first())
        }
    }

    /// How many operations a run of steps sees completed: the `Complete`
    /// steps that find one outstanding.
    pub open spec fn completed(self, steps: Seq<ConnStep>) -> nat
        decreases steps.len(),
    {
        if steps.len() == 0 {
            0
        } else {
            let here: nat = if steps[0] is Complete && self.state.outstanding() == 1 {
                1
            } else {
                0
            };
            here + self.step(steps[0]).completed(steps.drop_first())
        }
    }

    /// The connection after the socket took `writes[0]` bytes, then
    /// `writes[1]` bytes, and so on.
    pub open spec fn flush(self, writes: Seq<usize>) -> Self
        decreases writes.len(),
    {
        if writes.len() == 0 {
            self
        } else {
            self.on_write(WriteEvent::Wrote(writes[0])).flush(writes.drop_first())
        }
    }

    /// The bytes that the socket took during those writes, in order: each
    /// write takes its count from the front of what is pending at that time.
    pub open spec fn flushed(self, writes: Seq<usize>) -> Seq<u8>
        decreases writes.len(),
    {
        if writes.len() == 0 {
            Seq::empty()
        } else {
            let taken = if self.state is AwaitingWrite && writes[0] < self.pending().len() {
                self.pending().take(writes[0] as int)
            } else if self.state is AwaitingWrite {
                self.pending()
            } else {
                Seq::empty()
            };
            taken + self.on_write(WriteEvent::Wrote(writes[0])).flushed(writes.drop_first())
        }
    }
}

impl<S> Connection<S> {
    /// Takes one step of the state machine.
    pub fn step(&mut self, s: ConnStep) -> (step: Transition)
        ensures
            final(self)@ == old(self)@.step(s),
            step == old(self)@.transition(s),
            final(self)@.wf(),
            final(self).socket() == old(self).socket(),
    {
        match s {
            ConnStep::Submit => {
                self.submit();
                Transition::Stay
            },
            ConnStep::Complete => {
                self.complete();
                Transition::Stay
            },
            ConnStep::Read(ev) => self.on_read(ev),
            ConnStep::Write(ev) => self.on_write(ev),
        }
    }
}

/// A step closes a connection exactly when it asks the reactor to discard
/// it.
pub proof fn lemma_close_is_announced(m: ConnModel, s: ConnStep)
    requires
        !(m.state is Closed),
    ensures
        m.step(s).state is Closed <==> m.transition(s) is Close,
{
}

/// The sum of the byte counts of a run of writes.
pub open spec fn total_written(writes: Seq<usize>) -> nat
    decreases writes.len(),
{
    if writes.len() == 0 {
        0
    } else {
        writes[0] as nat + total_written(writes.drop_first())
    }
}

/// Every step keeps a connection well formed.
pub proof fn lemma_step_preserves_wf(m: ConnModel, s: ConnStep)
    requires
        m.wf(),
    ensures
        m.step(s).wf(),
{
}

/// No double submission: whatever steps a connection goes through, the
/// operations handed to the OS and not yet completed are those that its
/// state shows as outstanding, and there is never more than one of them.
pub proof fn lemma_at_most_one_outstanding(m: ConnModel, steps: Seq<ConnStep>)
    requires
        m.wf(),
    ensures
        m.run(steps).wf(),
        m.state.outstanding() + m.submitted(steps) == m.completed(steps) + m.run(
            steps,
        ).state.outstanding(),
        m.run(steps).state.outstanding() <= 1,
    decreases steps.len(),
{
    if steps.len() > 0 {
        lemma_step_preserves_wf(m, steps[0]);
        lemma_at_most_one_outstanding(m.step(steps[0]), steps.drop_first());
    }
}

/// A submission is refused while an operation is outstanding: the state and
/// the count of outstanding operations stay as they are.
pub proof fn lemma_submit_refused_while_outstanding(m: ConnModel)
    requires
        m.state.outstanding() == 1,
    ensures
        !m.can_submit(),
        m.submit() == m,
{
}

/// The buffer of an outstanding write is left alone: while an operation is
/// outstanding, no step but its completion touches the state, and the
/// completion itself leaves the response and the cursor as they are. Only a
/// result applied after the completion moves the cursor or releases the
/// buffer.
pub proof fn lemma_buffer_stable_while_outstanding(m: ConnModel, s: ConnStep)
    requires
        m.state.outstanding() == 1,
    ensures
        m.step(s).write_buf == m.write_buf,
        m.step(s).write_pos == m.write_pos,
        !(s is Complete) ==> m.step(s) == m,
{
}

/// A partial write resumes at the exact offset: when the socket takes `n`
/// bytes, fewer than remain, the buffer is untouched, the cursor moves to
/// `write_pos + n`, and the next attempt offers the rest.
pub proof fn lemma_partial_write_resumes(m: ConnModel, n: usize)
    requires
        m.wf(),
        m.state is AwaitingWrite,
        n < m.pending().len(),
    ensures
        m.on_write(WriteEvent::Wrote(n)).state is AwaitingWrite,
        m.on_write(WriteEvent::Wrote(n)).write_buf == m.write_buf,
        m.on_write(WriteEvent::Wrote(n)).write_pos == m.write_pos + n,
        m.on_write(WriteEvent::Wrote(n)).pending() == m.pending().skip(n as int),
        m.on_write(WriteEvent::Wrote(n)).wf(),
{
    assert(m.write_buf.skip(m.write_pos as int).skip(n as int) == m.write_buf.skip(
        m.write_pos + n,
    ));
}

/// No byte is duplicated or dropped: after any run of writes, what the
/// socket took, followed by what is still pending, is the response that was
/// pending at the start.
pub proof fn lemma_writes_preserve_bytes(m: ConnModel, writes: Seq<usize>)
    requires
        m.wf(),
        m.state is AwaitingWrite,
    ensures
        m.flushed(writes) + m.flush(writes).pending() == m.pending(),
        m.flush(writes).wf(),
    decreases writes.len(),
{
    if writes.len() == 0 {
        assert(m.flushed(writes) + m.flush(writes).pending() =~= m.pending());
    } else {
        let n = writes[0];
        let next = m.on_write(WriteEvent::Wrote(n));
        let rest = writes.drop_first();
        if n < m.pending().len() {
            lemma_partial_write_resumes(m, n);
            lemma_writes_preserve_bytes(next, rest);
            assert(m.pending().take(n as int) + m.pending().skip(n as int) =~= m.pending());
            assert(m.flushed(writes) + m.flush(writes).pending() =~= m.pending().take(n as int)
                + (next.flushed(rest) + next.flush(rest).pending()));
        } else {
            assert(next == ConnModel::initial());
            lemma_idle_ignores_writes(next, rest);
            assert(m.flushed(writes) + m.flush(writes).pending() =~= m.pending());
        }
    }
}

/// A connection that is not writing takes no notice of write results.
pub proof fn lemma_idle_ignores_writes(m: ConnModel, writes: Seq<usize>)
    requires
        !(m.state is AwaitingWrite),
    ensures
        m.flush(writes) == m,
        m.flushed(writes) == Seq::<u8>::empty(),
    decreases writes.len(),
{
    if writes.len() > 0 {
        lemma_idle_ignores_writes(m, writes.drop_first());
        assert(m.flushed(writes) =~= Seq::<u8>::empty());
    }
}

/// Repeated partial writes flush the whole response: once the counts of a
/// run of writes add up to what was pending, the socket has taken exactly
/// the pending bytes, the buffer is released, and the connection waits for
/// the next request. Until then it keeps writing, at the cursor moved by
/// the bytes taken so far.
pub proof fn lemma_writes_flush_response(m: ConnModel, writes: Seq<usize>)
    requires
        m.wf(),
        m.state is AwaitingWrite,
    ensures
        total_written(writes) >= m.pending().len() ==> m.flush(writes) == ConnModel::initial()
            && m.flushed(writes) == m.pending(),
        total_written(writes) < m.pending().len() ==> m.flush(writes) == (ConnModel {
            write_pos: m.write_pos + total_written(writes),
            ..m
        }) && m.flushed(writes) == m.pending().take(total_written(writes) as int),
    decreases writes.len(),
{
    lemma_writes_preserve_bytes(m, writes);
    if writes.len() == 0 {
        assert(m.flushed(writes) =~= m.pending().take(0));
    } else {
        let n = writes[0];
        let next = m.on_write(WriteEvent::Wrote(n));
        let rest = writes.drop_first();
        if n < m.pending().len() {
            lemma_partial_write_resumes(m, n);
            lemma_writes_flush_response(next, rest);
            lemma_writes_preserve_bytes(next, rest);
            if total_written(writes) >= m.pending().len() {
                assert(next.flush(rest).pending() =~= Seq::<u8>::empty());
                assert(m.flushed(writes) =~= m.flushed(writes) + m.flush(writes).pending());
            } else {
                assert(m.flushed(writes) =~= m.pending().take(total_written(writes) as int));
            }
        } else {
            lemma_idle_ignores_writes(next, rest);
            assert(m.flush(writes).pending() =~= Seq::<u8>::empty());
            assert(m.flushed(writes) =~= m.flushed(writes) + m.flush(writes).pending());
        }
    }
}

/// A response reaches the wire as it was encoded: once a request is served,
/// any run of writes whose counts add up to the length of the response has
/// the socket take exactly the response, and leaves the connection waiting
/// for the next request.
pub proof fn lemma_response_reaches_wire(m: ConnModel, response: Vec<u8>, writes: Seq<usize>)
    requires
        m.wf(),
        m.state is AwaitingRead,
        response@.len() > 0,
        total_written(writes) >= response@.len(),
    ensures
        m.on_read(ReadEvent::Served(response)).flushed(writes) == response@,
        m.on_read(ReadEvent::Served(response)).flush(writes) == ConnModel::initial(),
{
    let serving = m.on_read(ReadEvent::Served(response));
    assert(serving.pending() =~= response@);
    lemma_writes_flush_response(serving, writes);
}

} // verus!
