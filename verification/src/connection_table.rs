//! A table of connections by name: at most one connection per name.

use vstd::prelude::*;
use crate::stream_connection::{
    ConnectionType,
    ConnectionTrait,
    StartAction,
    listen_post,
    removed_post,
};
use crate::keyed::{
    unique_keys,
    keyed_map,
    has_key,
    lemma_keyed_map_index,
    lemma_keyed_map_key,
    lemma_keyed_map_empty,
    lemma_keyed_map_push,
    lemma_keyed_map_remove,
};

verus! {

/// The key of a connection in a table: its name.
pub open spec fn connection_key(c: ConnectionType) -> Seq<char> {
    c.key()
}

/// An operation applied to every connection of a table.
#[derive(Debug, Clone, Copy, PartialEq, Eq, Structural)]
pub enum TableOp {
    /// `ConnectionTrait::start`.
    Start,
    /// `ConnectionType::start_listening_clients`.
    StartListening,
    /// `ConnectionType::remove_dropped_clients`.
    RemoveDropped,
}

/// What an operation returned for one connection.
pub enum OpResult {
    Started(StartAction),
    Listening(Vec<u128>),
    Removed(Vec<u128>),
}

/// How operation `op` relates a connection before (`c0`) and after (`c1`)
/// to what it returned.
pub open spec fn op_post(op: TableOp, c0: ConnectionType, c1: ConnectionType, r: OpResult) -> bool {
    match op {
        TableOp::Start => c1 == c0.after_start() && r == OpResult::Started(c0.start_action()),
        TableOp::StartListening => r matches OpResult::Listening(v) && listen_post(c0, c1, v@),
        TableOp::RemoveDropped => r matches OpResult::Removed(v) && removed_post(c0, c1, v@),
    }
}

proof fn lemma_op_post_keeps_key(op: TableOp, c0: ConnectionType, c1: ConnectionType, r: OpResult)
    requires
        op_post(op, c0, c1, r),
    ensures
        c1.key() == c0.key(),
{
}

/// Connections by name.
pub struct ConnectionTable {
    entries: Vec<ConnectionType>,
}

impl View for ConnectionTable {
    type V = Map<Seq<char>, ConnectionType>;

    closed spec fn view(&self) -> Map<Seq<char>, ConnectionType> {
        keyed_map(self.entries@, |c: ConnectionType| connection_key(c))
    }
}

impl ConnectionTable {
    #[verifier::type_invariant]
    closed spec fn inv(&self) -> bool {
        unique_keys(self.entries@, |c: ConnectionType| connection_key(c))
    }

    /// Every connection is stored under its own name.
    pub(crate) fn check_keys(&self)
        ensures
            forall|k: Seq<char>| #[trigger] self@.contains_key(k) ==> self@[k].key() == k,
    {
        proof {
            use_type_invariant(self);
            assert forall|k: Seq<char>| #[trigger] self@.contains_key(k) implies self@[k].key() == k by {
                let i = lemma_keyed_map_key(self.entries@, |c: ConnectionType| connection_key(c), k);
            }
        }
    }

    /// An empty table.
    pub fn new() -> (t: Self)
        ensures
            t@ == Map::<Seq<char>, ConnectionType>::empty(),
    {
        proof {
            lemma_keyed_map_empty(|c: ConnectionType| connection_key(c));
        }
        ConnectionTable { entries: Vec::new() }
    }

    /// The index of the connection named `name`, if any.
    fn find(&self, name: &str) -> (r: Option<usize>)
        ensures
            match r {
                Some(i) => i < self.entries@.len() && self.entries@[i as int].key() == name@,
                None => !self@.contains_key(name@),
            },
    {
        proof {
            use_type_invariant(self);
        }
        let target: String = name.to_owned();
        let mut i: usize = 0;
        while i < self.entries.len()
            invariant
                i <= self.entries@.len(),
                target@ == name@,
                forall|j: int| 0 <= j < i ==> (#[trigger] self.entries@[j]).key() != name@,
            decreases self.entries@.len() - i,
        {
            if *self.entries[i].name() == target {
                return Some(i);
            }
            i = i + 1;
        }
        proof {
            if self@.contains_key(name@) {
                let j = lemma_keyed_map_key(self.entries@, |c: ConnectionType| connection_key(c), name@);
            }
        }
        None
    }

    /// Whether a connection is named `name`.
    pub fn contains_key(&self, name: &str) -> (b: bool)
        ensures
            b == self@.contains_key(name@),
    {
        proof {
            use_type_invariant(self);
        }
        match self.find(name) {
            Some(i) => {
                proof {
                    lemma_keyed_map_index(self.entries@, |c: ConnectionType| connection_key(c), i as int);
                }
                true
            },
            None => false,
        }
    }

    /// The connection named `name`, if any.
    pub fn get(&self, name: &str) -> (r: Option<&ConnectionType>)
        ensures
            match r {
                Some(c) => self@.contains_key(name@) && *c == self@[name@],
                None => !self@.contains_key(name@),
            },
    {
        proof {
            use_type_invariant(self);
        }
        match self.find(name) {
            Some(i) => {
                proof {
                    lemma_keyed_map_index(self.entries@, |c: ConnectionType| connection_key(c), i as int);
                }
                Some(&self.entries[i])
            },
            None => None,
        }
    }

    /// Removes the connection named `name` and returns it.
    pub fn remove(&mut self, name: &str) -> (r: Option<ConnectionType>)
        ensures
            final(self)@ == old(self)@.remove(name@),
            match r {
                Some(c) => old(self)@.contains_key(name@) && c == old(self)@[name@],
                None => !old(self)@.contains_key(name@),
            },
    {
        proof {
            use_type_invariant(&*self);
        }
        let ghost key = |c: ConnectionType| connection_key(c);
        match self.find(name) {
            Some(i) => {
                let ghost s = self.entries@;
                let mut entries = Vec::new();
                std::mem::swap(&mut entries, &mut self.entries);
                let c = entries.remove(i);
                proof {
                    lemma_keyed_map_remove(s, key, i as int);
                    lemma_keyed_map_index(s, key, i as int);
                }
                self.entries = entries;
                Some(c)
            },
            None => {
                proof {
                    assert(old(self)@.remove(name@) =~= old(self)@);
                }
                None
            },
        }
    }

    /// Stores `c` under its name, replacing a connection of the same name.
    pub fn insert(&mut self, c: ConnectionType)
        ensures
            final(self)@ == old(self)@.insert(c.key(), c),
    {
        proof {
            use_type_invariant(&*self);
        }
        let ghost key = |c: ConnectionType| connection_key(c);
        let name = c.name().clone();
        let _ = self.remove(name.as_str());
        proof {
            use_type_invariant(&*self);
            lemma_keyed_map_push(self.entries@, key, c);
            assert(old(self)@.remove(c.key()).insert(c.key(), c) =~= old(self)@.insert(c.key(), c));
        }
        let mut entries = Vec::new();
        std::mem::swap(&mut entries, &mut self.entries);
        entries.push(c);
        self.entries = entries;
    }

    /// Applies `op` to every connection; returns, for each connection, its
    /// name and what the operation returned for it.
    pub fn apply_all(&mut self, op: TableOp) -> (results: Vec<(String, OpResult)>)
        ensures
            final(self)@.dom() == old(self)@.dom(),
            forall|j: int| 0 <= j < results@.len() ==> #[trigger] old(self)@.contains_key(results@[j].0@) && op_post(
                op,
                old(self)@[results@[j].0@],
                final(self)@[results@[j].0@],
                results@[j].1,
            ),
            forall|k: Seq<char>| #[trigger] old(self)@.contains_key(k) ==> exists|j: int| 0 <= j < results@.len() && #[trigger] results@[j].0@ == k,
            forall|i: int, j: int| 0 <= i < results@.len() && 0 <= j < results@.len() && i != j ==> #[trigger] results@[i].0@ != #[trigger] results@[j].0@,
    {
        proof {
            use_type_invariant(&*self);
        }
        let ghost key = |c: ConnectionType| connection_key(c);
        let ghost s = self.entries@;
        assert forall|x: ConnectionType| #[trigger] key(x) == x.key() by {}
        let mut rest = Vec::new();
        std::mem::swap(&mut rest, &mut self.entries);
        let n = rest.len();
        let mut done: Vec<ConnectionType> = Vec::new();
        let mut results: Vec<(String, OpResult)> = Vec::new();
        let mut i: usize = 0;
        while i < n
            invariant
                forall|x: ConnectionType| #[trigger] key(x) == x.key(),
                unique_keys(s, key),
                n == s.len(),
                i <= n,
                rest@ == s.skip(i as int),
                done@.len() == i,
                results@.len() == i,
                forall|j: int| 0 <= j < i ==> (#[trigger] done@[j]).key() == s[j].key() && results@[j].0@ == s[j].key()
                    && op_post(op, s[j], done@[j], results@[j].1),
            decreases n - i,
        {
            let mut c = rest.remove(0);
            proof {
                assert(c == s[i as int]);
                assert(rest@ =~= s.skip(i + 1));
            }
            let name = c.name().clone();
            let r = match op {
                TableOp::Start => OpResult::Started(c.start()),
                TableOp::StartListening => OpResult::Listening(c.start_listening_clients()),
                TableOp::RemoveDropped => OpResult::Removed(c.remove_dropped_clients()),
            };
            proof {
                lemma_op_post_keeps_key(op, s[i as int], c, r);
            }
            done.push(c);
            results.push((name, r));
            i = i + 1;
        }
        proof {
            // the processed entries keep their keys, hence stay unique
            assert forall|a: int, b: int| 0 <= a < done@.len() && 0 <= b < done@.len() && a != b implies key(
                #[trigger] done@[a],
            ) != key(#[trigger] done@[b]) by {
                assert(key(s[a]) != key(s[b]));
            }
            assert forall|k: Seq<char>| #[trigger] keyed_map(done@, key).dom().contains(k) <==> keyed_map(s, key).dom().contains(k) by {
                if has_key(done@, key, k) {
                    let j = choose|j: int| 0 <= j < done@.len() && key(#[trigger] done@[j]) == k;
                    assert(key(s[j]) == k);
                }
                if has_key(s, key, k) {
                    let j = choose|j: int| 0 <= j < s.len() && key(#[trigger] s[j]) == k;
                    assert(key(done@[j]) == k);
                }
            }
            assert(keyed_map(done@, key).dom() =~= keyed_map(s, key).dom());
            assert forall|j: int| 0 <= j < results@.len() implies #[trigger] old(self)@.contains_key(results@[j].0@) && op_post(
                op,
                old(self)@[results@[j].0@],
                keyed_map(done@, key)[results@[j].0@],
                results@[j].1,
            ) by {
                lemma_keyed_map_index(s, key, j);
                lemma_keyed_map_index(done@, key, j);
            }
            assert forall|k: Seq<char>| #[trigger] old(self)@.contains_key(k) implies exists|j: int| 0 <= j < results@.len() && #[trigger] results@[j].0@ == k by {
                let j = lemma_keyed_map_key(s, key, k);
                assert(results@[j].0@ == k);
            }
            assert forall|a: int, b: int| 0 <= a < results@.len() && 0 <= b < results@.len() && a != b implies #[trigger] results@[a].0@ != #[trigger] results@[b].0@ by {
                assert(done@[a].key() == s[a].key());
                assert(done@[b].key() == s[b].key());
                assert(key(s[a]) != key(s[b]));
            }
        }
        self.entries = done;
        results
    }
}

} // verus!
