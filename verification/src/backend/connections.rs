//! The open connections, by id, each with what it needs to be written to.

use vstd::prelude::*;
use std::collections::HashMap;
use vstd::std_specs::iter::IteratorSpec;

verus! {

broadcast use vstd::std_specs::hash::group_hash_axioms;

/// The open connections by id.
pub struct ConnectionTable<T> {
    connections: HashMap<u128, T>,
}

impl<T> ConnectionTable<T> {
    pub closed spec fn spec_map(&self) -> Map<u128, T> {
        self.connections@
    }

    /// No connection yet.
    pub fn new() -> (t: ConnectionTable<T>)
        ensures
            t.spec_map() == Map::<u128, T>::empty(),
    {
        ConnectionTable { connections: HashMap::new() }
    }

    /// The ids of the open connections, each once, in no particular order.
    pub fn ids(&self) -> (ids: Vec<u128>)
        ensures
            ids@.no_duplicates(),
            ids@.to_set() == self.spec_map().dom(),
    {
        let mut out: Vec<u128> = Vec::new();
        for k in it: self.connections.keys()
            invariant
                it.seq() == vstd::std_specs::hash::spec_keys_iter(&self.connections).remaining(),
                out@ == it.seq().take(it.index() as int).map_values(|k: &u128| *k),
        {
            out.push(*k);
            proof {
                assert(it.seq().take(it.index() as int + 1).map_values(|k: &u128| *k) =~= out@);
            }
        }
        proof {
            let r = vstd::std_specs::hash::spec_keys_iter(&self.connections).remaining();
            assert(r.take(r.len() as int) =~= r);
            assert(out@ =~= r.unref());
        }
        out
    }

    /// Whether a connection with this id is open.
    pub fn contains(&self, id: u128) -> (b: bool)
        ensures
            b == self.spec_map().contains_key(id),
    {
        self.connections.contains_key(&id)
    }

    /// What the connection with this id is written to, if it is open.
    pub fn get(&self, id: u128) -> (t: Option<&T>)
        ensures
            match t {
                Some(t) => self.spec_map().contains_key(id) && *t == self.spec_map()[id],
                None => !self.spec_map().contains_key(id),
            },
    {
        self.connections.get(&id)
    }

    /// Opens a connection; one with the same id is replaced.
    pub fn insert(&mut self, id: u128, target: T)
        ensures
            final(self).spec_map() == old(self).spec_map().insert(id, target),
    {
        let _ = self.connections.insert(id, target);
    }

    /// Closes a connection, if it is open.
    pub fn remove(&mut self, id: u128)
        ensures
            final(self).spec_map() == old(self).spec_map().remove(id),
    {
        let _ = self.connections.remove(&id);
    }

    /// The connections that a packet for `to` goes to: the one named, or,
    /// with none named, every open connection, each once.
    pub fn targets(&self, to: Option<u128>) -> (ids: Vec<u128>)
        requires
            to matches Some(id) ==> self.spec_map().contains_key(id),
        ensures
            ids@.no_duplicates(),
            match to {
                Some(id) => ids@ == seq![id],
                None => ids@.to_set() == self.spec_map().dom(),
            },
    {
        match to {
            Some(id) => {
                let mut v: Vec<u128> = Vec::new();
                v.push(id);
                v
            },
            None => self.ids(),
        }
    }
}

} // verus!
