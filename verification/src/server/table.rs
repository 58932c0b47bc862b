//! The table of a worker's connections, keyed by token.
//!
//! Tokens are handed out in increasing order and never reused, so an event
//! that names a connection which is gone finds nothing under its token.

use crate::server::conn::{
    lemma_close_is_announced, CloseCause, ConnModel, ConnState, ConnStep, Connection, Transition,
};
use std::collections::HashMap;
use vstd::prelude::*;
use vstd::std_specs::hash::*;

verus! {

/// What became of a step that was sent to a token.
#[derive(Debug)]
pub enum Applied<S> {
    /// No connection stands under the token: nothing was done.
    Unknown,
    /// The connection took the step and stays in the table.
    Kept(Transition),
    /// The step closed the connection: it left the table, and its socket
    /// is handed out.
    Closed(S, CloseCause),
}

/// The connections after the one under `token` has become `next`: a closed
/// connection leaves the table.
pub open spec fn settle(conns: Map<u64, ConnModel>, token: u64, next: ConnModel) -> Map<
    u64,
    ConnModel,
> {
    if next.state is Closed {
        conns.remove(token)
    } else {
        conns.insert(token, next)
    }
}

/// A step stays with its connection: whatever becomes of the connection
/// under one token, every connection under another token is what it was.
pub proof fn lemma_settle_is_local(
    conns: Map<u64, ConnModel>,
    token: u64,
    next: ConnModel,
    other: u64,
)
    requires
        other != token,
    ensures
        settle(conns, token, next).contains_key(other) == conns.contains_key(other),
        conns.contains_key(other) ==> settle(conns, token, next)[other] == conns[other],
{
}

/// A worker's connections.
pub struct ConnectionTable<S> {
    connections: HashMap<u64, Connection<S>>,
    next_token: u64,
}

impl<S> View for ConnectionTable<S> {
    type V = Map<u64, ConnModel>;

    closed spec fn view(&self) -> Map<u64, ConnModel> {
        self.connections@.map_values(|c: Connection<S>| c@)
    }
}

impl<S> ConnectionTable<S> {
    #[verifier::type_invariant]
    spec fn well_formed(self) -> bool {
        forall|t: u64| #[trigger]
            self.connections@.contains_key(t) ==> {
                &&& t < self.next_token
                &&& self.connections@[t]@.wf()
                &&& !(self.connections@[t]@.state is Closed)
            }
    }

    /// The socket of each connection.
    pub closed spec fn sockets(&self) -> Map<u64, S> {
        self.connections@.map_values(|c: Connection<S>| c.socket())
    }

    /// The token that the next connection gets.
    pub closed spec fn fresh_token(&self) -> u64 {
        self.next_token
    }

    /// What holds of every table: each token in use is below the fresh one,
    /// and each connection is well formed and not closed.
    pub open spec fn inv(&self) -> bool {
        &&& self@.dom() == self.sockets().dom()
        &&& forall|t: u64| #[trigger]
            self@.contains_key(t) ==> t < self.fresh_token() && self@[t].wf() && !(
            self@[t].state is Closed)
    }

    /// An empty table whose first connection will get the token `first`.
    pub fn new(first: u64) -> (table: Self)
        ensures
            table@ == Map::<u64, ConnModel>::empty(),
            table.sockets() == Map::<u64, S>::empty(),
            table.fresh_token() == first,
            table.inv(),
    {
        let table = ConnectionTable { connections: HashMap::new(), next_token: first };
        assert(table@ =~= Map::<u64, ConnModel>::empty());
        assert(table.sockets() =~= Map::<u64, S>::empty());
        table
    }

    /// Takes in a freshly accepted socket under a token that was never used
    /// before. When the tokens are used up the socket is handed back.
    pub fn insert(&mut self, stream: S) -> (r: Result<u64, S>)
        ensures
            final(self).inv(),
            match r {
                Ok(token) => {
                    &&& token == old(self).fresh_token()
                    &&& token < u64::MAX
                    &&& !old(self)@.contains_key(token)
                    &&& final(self).fresh_token() == token + 1
                    &&& final(self)@ == old(self)@.insert(token, ConnModel::initial())
                    &&& final(self).sockets() == old(self).sockets().insert(token, stream)
                },
                Err(back) => {
                    &&& old(self).fresh_token() == u64::MAX
                    &&& back == stream
                    &&& final(self)@ == old(self)@
                    &&& final(self).sockets() == old(self).sockets()
                    &&& final(self).fresh_token() == old(self).fresh_token()
                },
            },
    {
        proof {
            use_type_invariant(&*self);
        }
        broadcast use group_hash_axioms;

        if self.next_token == u64::MAX {
            return Err(stream);
        }
        let token = self.next_token;
        let conn = Connection::new(stream);
        // The connections are taken out while they change and put back after.
        let mut conns: HashMap<u64, Connection<S>> = HashMap::new();
        core::mem::swap(&mut self.connections, &mut conns);
        let ghost before = conns@;
        conns.insert(token, conn);
        assert(conns@.map_values(|c: Connection<S>| c@) =~= before.map_values(
            |c: Connection<S>| c@,
        ).insert(token, ConnModel::initial()));
        assert(conns@.map_values(|c: Connection<S>| c.socket()) =~= before.map_values(
            |c: Connection<S>| c.socket(),
        ).insert(token, stream));
        self.next_token = token + 1;
        core::mem::swap(&mut self.connections, &mut conns);
        Ok(token)
    }

    /// The number of connections.
    pub fn len(&self) -> (n: usize)
        ensures
            n == self@.len(),
    {
        broadcast use group_hash_axioms;

        assert(self@.dom() =~= self.connections@.dom());
        self.connections.len()
    }

    /// True if the table holds no connection.
    pub fn is_empty(&self) -> (empty: bool)
        ensures
            empty == (self@.len() == 0),
            empty == (self@ == Map::<u64, ConnModel>::empty()),
    {
        broadcast use group_hash_axioms;

        assert(self@.dom() =~= self.connections@.dom());
        let n = self.connections.len();
        proof {
            if n == 0 {
                assert(self@.dom().finite());
                assert(self@ =~= Map::<u64, ConnModel>::empty());
            }
        }
        n == 0
    }

    /// The state of the connection under `token`, if there is one.
    pub fn state(&self, token: u64) -> (state: Option<ConnState>)
        ensures
            self.inv(),
            match state {
                Some(s) => self@.contains_key(token) && s == self@[token].state,
                None => !self@.contains_key(token),
            },
    {
        proof {
            use_type_invariant(self);
        }
        broadcast use group_hash_axioms;

        assert(self@.dom() =~= self.sockets().dom());
        match self.connections.get(&token) {
            Some(conn) => Some(conn.state()),
            None => None,
        }
    }

    /// The unflushed remainder of the response that the connection under
    /// `token` is writing: what the next write must offer to the socket.
    /// None if there is no such connection or if it is not writing.
    pub fn pending(&self, token: u64) -> (bytes: Option<&[u8]>)
        ensures
            match bytes {
                Some(b) => self@.contains_key(token) && self@[token].state.is_writing() && b@
                    == self@[token].pending() && b@.len() > 0,
                None => !self@.contains_key(token) || !self@[token].state.is_writing(),
            },
    {
        broadcast use group_hash_axioms;

        match self.connections.get(&token) {
            Some(conn) => {
                let bytes = conn.pending();
                if bytes.len() > 0 {
                    Some(bytes)
                } else {
                    None
                }
            },
            None => None,
        }
    }

    /// The socket of the connection under `token`, if there is one.
    pub fn stream(&self, token: u64) -> (stream: Option<&S>)
        ensures
            match stream {
                Some(s) => self.sockets().contains_key(token) && *s == self.sockets()[token],
                None => !self.sockets().contains_key(token),
            },
    {
        broadcast use group_hash_axioms;

        match self.connections.get(&token) {
            Some(conn) => Some(conn.stream()),
            None => None,
        }
    }

    /// Takes the connection under `token` out of the table and hands out
    /// its socket.
    pub fn remove(&mut self, token: u64) -> (stream: Option<S>)
        ensures
            final(self).inv(),
            final(self)@ == old(self)@.remove(token),
            final(self).sockets() == old(self).sockets().remove(token),
            final(self).fresh_token() == old(self).fresh_token(),
            match stream {
                Some(s) => old(self).sockets().contains_key(token) && s == old(
                    self,
                ).sockets()[token],
                None => !old(self).sockets().contains_key(token),
            },
    {
        proof {
            use_type_invariant(&*self);
        }
        broadcast use group_hash_axioms;

        // The connections are taken out while they change and put back after.
        let mut conns: HashMap<u64, Connection<S>> = HashMap::new();
        core::mem::swap(&mut self.connections, &mut conns);
        let ghost before = conns@;
        let removed = conns.remove(&token);
        assert(conns@.map_values(|c: Connection<S>| c@) =~= before.map_values(
            |c: Connection<S>| c@,
        ).remove(token));
        assert(conns@.map_values(|c: Connection<S>| c.socket()) =~= before.map_values(
            |c: Connection<S>| c.socket(),
        ).remove(token));
        core::mem::swap(&mut self.connections, &mut conns);
        match removed {
            Some(conn) => Some(conn.into_stream()),
            None => None,
        }
    }

    /// True if `after` and `r` are what sending the step `s` to `token`
    /// makes of the table `self`. A token that names no connection changes
    /// nothing; a step that closes the connection takes it out of the table
    /// and hands out its socket; any other step leaves the connection in
    /// the table, in its new state.
    pub open spec fn applied(&self, after: &Self, token: u64, s: ConnStep, r: Applied<S>) -> bool {
        &&& after.fresh_token() == self.fresh_token()
        &&& match r {
            Applied::Unknown => {
                &&& !self@.contains_key(token)
                &&& after@ == self@
                &&& after.sockets() == self.sockets()
            },
            Applied::Kept(step) => {
                &&& self@.contains_key(token)
                &&& step == self@[token].transition(s)
                &&& !(step is Close)
                &&& after@ == self@.insert(token, self@[token].step(s))
                &&& after.sockets() == self.sockets()
            },
            Applied::Closed(stream, cause) => {
                &&& self@.contains_key(token)
                &&& self@[token].transition(s) == Transition::Close(cause)
                &&& stream == self.sockets()[token]
                &&& after@ == self@.remove(token)
                &&& after.sockets() == self.sockets().remove(token)
            },
        }
    }

    /// Sends one step to the connection under `token`.
    pub fn apply(&mut self, token: u64, s: ConnStep) -> (r: Applied<S>)
        ensures
            final(self).inv(),
            old(self).applied(final(self), token, s, r),
            old(self)@.contains_key(token) ==> final(self)@ == settle(
                old(self)@,
                token,
                old(self)@[token].step(s),
            ),
    {
        proof {
            use_type_invariant(&*self);
        }
        broadcast use group_hash_axioms;

        // The connections are taken out while they change and put back after.
        let mut conns: HashMap<u64, Connection<S>> = HashMap::new();
        core::mem::swap(&mut self.connections, &mut conns);
        let ghost before = conns@;
        let r = match conns.remove(&token) {
            None => {
                assert(conns@ =~= before);
                Applied::Unknown
            },
            Some(mut conn) => {
                let ghost was = conn;
                proof {
                    lemma_close_is_announced(was@, s);
                }
                match conn.step(s) {
                    Transition::Close(cause) => {
                        assert(conns@.map_values(|c: Connection<S>| c@) =~= before.map_values(
                            |c: Connection<S>| c@,
                        ).remove(token));
                        assert(conns@.map_values(|c: Connection<S>| c.socket())
                            =~= before.map_values(|c: Connection<S>| c.socket()).remove(token));
                        Applied::Closed(conn.into_stream(), cause)
                    },
                    step => {
                        conns.insert(token, conn);
                        assert(conns@.map_values(|c: Connection<S>| c@) =~= before.map_values(
                            |c: Connection<S>| c@,
                        ).insert(token, was@.step(s)));
                        assert(conns@.map_values(|c: Connection<S>| c.socket())
                            =~= before.map_values(|c: Connection<S>| c.socket()));
                        Applied::Kept(step)
                    },
                }
            },
        };
        core::mem::swap(&mut self.connections, &mut conns);
        r
    }
}

} // verus!
