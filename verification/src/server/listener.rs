//! The acceptor: what to do after each accept call on the listening socket.
//!
//! Accepted connections go to the workers in turn. A call that would block
//! is tried again after a short sleep, an interrupted call at once, and any
//! other error ends the accept loop.

use vstd::prelude::*;

verus! {

/// How long the acceptor sleeps after a call that would block, in
/// milliseconds.
pub const ACCEPT_RETRY_MS: u64 = 50;

/// How an accept call ended.
#[derive(Clone, Copy, Debug, PartialEq, Eq, Structural)]
pub enum AcceptOutcome {
    /// A connection was accepted.
    Accepted,
    /// No connection is waiting.
    WouldBlock,
    /// The call was interrupted.
    Interrupted,
    /// Any other error.
    Failed,
}

/// What the accept loop must do next.
#[derive(Clone, Copy, Debug, PartialEq, Eq, Structural)]
pub enum AcceptAction {
    /// Hand the accepted socket to the inbound queue of this worker.
    Dispatch(usize),
    /// Sleep for this many milliseconds, then call accept again.
    Sleep(u64),
    /// Call accept again at once.
    Retry,
    /// Leave the loop.
    Stop,
}

/// The round-robin state of the accept loop.
pub struct Acceptor {
    workers: usize,
    next: usize,
    accepted: Ghost<nat>,
}

impl Acceptor {
    #[verifier::type_invariant]
    spec fn well_formed(self) -> bool {
        &&& self.workers > 0
        &&& self.next == self.accepted@ % (self.workers as nat)
    }

    /// The size of the worker pool.
    pub closed spec fn pool_size(&self) -> usize {
        self.workers
    }

    /// How many connections were accepted so far.
    pub closed spec fn accepted(&self) -> nat {
        self.accepted@
    }

    /// An acceptor for a pool of `workers` workers that has accepted
    /// nothing yet. There is none for an empty pool.
    pub fn new(workers: usize) -> (r: Option<Self>)
        ensures
            match r {
                Some(acceptor) => workers > 0 && acceptor.pool_size() == workers
                    && acceptor.accepted() == 0,
                None => workers == 0,
            },
    {
        if workers == 0 {
            None
        } else {
            proof {
                vstd::arithmetic::div_mod::lemma_small_mod(0, workers as nat);
            }
            Some(Acceptor { workers, next: 0, accepted: Ghost(0) })
        }
    }

    /// The size of the worker pool.
    pub fn workers(&self) -> (n: usize)
        ensures
            n == self.pool_size(),
            n > 0,
    {
        proof {
            use_type_invariant(self);
        }
        self.workers
    }

    /// Decides what follows an accept call. The connections go to the
    /// workers in turn: of a pool of `n` workers, the connection accepted
    /// as number `i`, counted from zero, goes to worker `i mod n`.
    pub fn on_accept(&mut self, outcome: AcceptOutcome) -> (action: AcceptAction)
        ensures
            final(self).pool_size() == old(self).pool_size(),
            old(self).pool_size() > 0,
            match outcome {
                AcceptOutcome::Accepted => {
                    &&& action == AcceptAction::Dispatch(
                        (old(self).accepted() % (old(self).pool_size() as nat)) as usize,
                    )
                    &&& final(self).accepted() == old(self).accepted() + 1
                },
                AcceptOutcome::WouldBlock => {
                    &&& action == AcceptAction::Sleep(ACCEPT_RETRY_MS)
                    &&& final(self).accepted() == old(self).accepted()
                },
                AcceptOutcome::Interrupted => {
                    &&& action == AcceptAction::Retry
                    &&& final(self).accepted() == old(self).accepted()
                },
                AcceptOutcome::Failed => {
                    &&& action == AcceptAction::Stop
                    &&& final(self).accepted() == old(self).accepted()
                },
            },
    {
        proof {
            use_type_invariant(&*self);
        }
        match outcome {
            AcceptOutcome::Accepted => {
                let worker = self.next;
                let next = if worker + 1 == self.workers {
                    0
                } else {
                    worker + 1
                };
                proof {
                    lemma_next_in_turn(self.accepted@, self.workers as nat);
                }
                *self = Acceptor {
                    workers: self.workers,
                    next,
                    accepted: Ghost(self.accepted@ + 1),
                };
                AcceptAction::Dispatch(worker)
            },
            AcceptOutcome::WouldBlock => AcceptAction::Sleep(ACCEPT_RETRY_MS),
            AcceptOutcome::Interrupted => AcceptAction::Retry,
            AcceptOutcome::Failed => AcceptAction::Stop,
        }
    }
}

/// Counting one further moves the turn to the next worker, and from the
/// last worker back to the first.
pub proof fn lemma_next_in_turn(count: nat, workers: nat)
    requires
        workers > 0,
    ensures
        (count + 1) % workers == if count % workers + 1 == workers {
            0
        } else {
            count % workers + 1
        },
        count % workers < workers,
{
    vstd::arithmetic::div_mod::lemma_fundamental_div_mod(count as int, workers as int);
    vstd::arithmetic::div_mod::lemma_mod_bound(count as int, workers as int);
    let q = count as int / workers as int;
    let r = count as int % workers as int;
    if r + 1 == workers {
        assert(count + 1 == (q + 1) * workers + 0) by (nonlinear_arith)
            requires
                count == workers * q + r,
                r + 1 == workers,
        ;
        vstd::arithmetic::div_mod::lemma_fundamental_div_mod_converse(
            count as int + 1,
            workers as int,
            q + 1,
            0,
        );
    } else {
        assert(count + 1 == q * workers + (r + 1)) by (nonlinear_arith)
            requires
                count == workers * q + r,
        ;
        vstd::arithmetic::div_mod::lemma_fundamental_div_mod_converse(
            count as int + 1,
            workers as int,
            q,
            r + 1,
        );
    }
}

} // verus!
