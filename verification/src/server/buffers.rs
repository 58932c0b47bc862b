//! The read buffers of a worker's connections, keyed by token.
//!
//! Each connection reads into a buffer of its own, of a size fixed when it
//! is made, used again for every read. The buffer is made when the connection comes and
//! released when the connection goes. In between it stays where it is: to
//! have it filled, the worker borrows it as a slice, which it can write to
//! but neither move, resize nor free.

use std::collections::hash_map::Entry;
use std::collections::HashMap;
use vstd::prelude::*;
use vstd::std_specs::hash::*;

verus! {

/// One read buffer for each connection.
pub struct ReadBuffers {
    bufs: HashMap<u64, Vec<u8>>,
}

impl View for ReadBuffers {
    type V = Map<u64, Seq<u8>>;

    closed spec fn view(&self) -> Map<u64, Seq<u8>> {
        self.bufs@.map_values(|b: Vec<u8>| b@)
    }
}

/// The buffer under `token`, or no bytes if there is none.
pub open spec fn buffer_of(bufs: Map<u64, Seq<u8>>, token: u64) -> Seq<u8> {
    if bufs.contains_key(token) {
        bufs[token]
    } else {
        Seq::empty()
    }
}

impl ReadBuffers {
    /// No buffers yet.
    pub fn new() -> (buffers: Self)
        ensures
            buffers@ == Map::<u64, Seq<u8>>::empty(),
    {
        let buffers = ReadBuffers { bufs: HashMap::new() };
        assert(buffers@ =~= Map::<u64, Seq<u8>>::empty());
        buffers
    }

    /// Makes the buffer for the connection under `token`: `size` bytes,
    /// all zero.
    pub fn insert(&mut self, token: u64, size: usize)
        ensures
            final(self)@ == old(self)@.insert(token, Seq::new(size as nat, |i: int| 0u8)),
    {
        broadcast use group_hash_axioms;

        let buf = vec![0u8; size];
        assert(buf@ =~= Seq::new(size as nat, |i: int| 0u8));
        let ghost before = self.bufs@;
        self.bufs.insert(token, buf);
        assert(self.bufs@.map_values(|b: Vec<u8>| b@) =~= before.map_values(
            |b: Vec<u8>| b@,
        ).insert(token, buf@));
    }

    /// Releases the buffer of the connection under `token`.
    pub fn remove(&mut self, token: u64)
        ensures
            final(self)@ == old(self)@.remove(token),
    {
        broadcast use group_hash_axioms;

        let ghost before = self.bufs@;
        self.bufs.remove(&token);
        assert(self.bufs@.map_values(|b: Vec<u8>| b@) =~= before.map_values(
            |b: Vec<u8>| b@,
        ).remove(token));
    }

    /// The buffer of the connection under `token`, to read what it holds.
    pub fn get(&self, token: u64) -> (buf: Option<&[u8]>)
        ensures
            match buf {
                Some(b) => self@.contains_key(token) && b@ == self@[token],
                None => !self@.contains_key(token),
            },
    {
        broadcast use group_hash_axioms;

        match self.bufs.get(&token) {
            Some(buf) => Some(buf.as_slice()),
            None => None,
        }
    }

    /// Lends out the buffer of the connection under `token`, to be filled.
    /// The buffer stays in its place; what the borrower writes into the
    /// slice is what the buffer holds afterwards. No other buffer changes.
    pub fn get_mut(&mut self, token: u64) -> (buf: Option<&mut [u8]>)
        ensures
            match buf {
                Some(b) => {
                    &&& old(self)@.contains_key(token)
                    &&& b@ == old(self)@[token]
                    &&& final(self)@ == old(self)@.insert(token, final(b)@)
                },
                None => !old(self)@.contains_key(token) && final(self)@ == old(self)@,
            },
    {
        broadcast use group_hash_axioms;

        match self.bufs.entry(token) {
            Entry::Occupied(entry) => Some(entry.into_mut().as_mut_slice()),
            Entry::Vacant(_) => None,
        }
    }
}

} // verus!
