//! One peer of a TCP connection as this process sees it, and the registry
//! of the peers a server has accepted.

use vstd::prelude::*;
use crate::NetworkSide;
use crate::framing::be_value;
use crate::tcp_settings_functions::frame_message;
use crate::keyed::{
    unique_keys,
    keyed_map,
    lemma_keyed_map_index,
    lemma_keyed_map_key,
    lemma_keyed_map_empty,
    lemma_keyed_map_push,
    lemma_keyed_map_update,
    lemma_keyed_map_remove,
    lemma_keyed_map_map_values,
    has_key,
};

verus! {

/// A fresh random client identifier: `uuid::Uuid::new_v4()` read as a
/// `u128` with `Uuid::as_u128`. The value is random; what the contract
/// states is what `new_v4` fixes in every identifier it makes: the version
/// field (bits 76 to 79) is 4 and the variant field (bits 62 and 63) is
/// `0b10`. Nothing is stated of how two identifiers relate.
#[verifier::external_body]
pub(crate) fn fresh_client_id() -> (id: u128)
    ensures
        (id >> 76u128) & 0xfu128 == 4,
        (id >> 62u128) & 0x3u128 == 2,
{
    uuid::Uuid::new_v4().as_u128()
}

/// `id` has the version field (bits 76 to 79) and variant field (bits 62
/// and 63) of a random (version 4) UUID: 4 and `0b10`.
pub open spec fn is_v4_id(id: u128) -> bool {
    (id >> 76u128) & 0xfu128 == 4 && (id >> 62u128) & 0x3u128 == 2
}

/// One end of an established TCP connection: the peer a server accepted, or
/// the server a client reached. The socket halves themselves live with the
/// caller, keyed by `uuid`.
#[derive(Debug)]
pub struct ClientComponent {
    pub connection_name: String,
    pub network_side: NetworkSide,
    /// A task reads frames from this peer.
    pub listening: bool,
    /// The peer has gone away.
    pub connection_dropped: bool,
    pub uuid: u128,
}

/// What the task that reads a server's peer observed.
#[derive(Debug, Clone, Copy, PartialEq, Eq, Structural)]
pub enum ServerReadEvent {
    /// The socket is gone from the connection.
    ReaderGone,
    /// Reading the big-endian `u32` length failed.
    HeaderFailed,
    /// A body of `length` bytes (the announced length) was read.
    BodyRead { length: u32 },
    /// Reading the body failed.
    BodyFailed,
}

/// What the reading task does next.
#[derive(Debug, Clone, Copy, PartialEq, Eq, Structural)]
pub enum ReadStep {
    /// Decode the body and hand the message on, then read on.
    Deliver,
    /// Read on.
    Continue,
    /// The peer is gone: stop reading.
    Stop,
}

/// The step taken on `event`: a lost socket, a failed length read or an
/// empty body ends the connection; a failed body read is skipped.
pub open spec fn spec_read_step(event: ServerReadEvent) -> ReadStep {
    match event {
        ServerReadEvent::ReaderGone | ServerReadEvent::HeaderFailed => ReadStep::Stop,
        ServerReadEvent::BodyRead { length } => if length == 0 {
            ReadStep::Stop
        } else {
            ReadStep::Deliver
        },
        ServerReadEvent::BodyFailed => ReadStep::Continue,
    }
}

/// The step a task that reads a server's peer takes on `event`.
pub fn read_step(event: ServerReadEvent) -> (step: ReadStep)
    ensures
        step == spec_read_step(event),
{
    match event {
        ServerReadEvent::ReaderGone | ServerReadEvent::HeaderFailed => ReadStep::Stop,
        ServerReadEvent::BodyRead { length } => if length == 0 {
            ReadStep::Stop
        } else {
            ReadStep::Deliver
        },
        ServerReadEvent::BodyFailed => ReadStep::Continue,
    }
}

impl ClientComponent {
    /// A component for a peer that a server just accepted.
    pub open spec fn accepted(connection_name: String, uuid: u128) -> ClientComponent {
        ClientComponent {
            connection_name,
            network_side: NetworkSide::Server,
            listening: false,
            connection_dropped: false,
            uuid,
        }
    }

    /// The frame a server sends to this peer for an encoded message: the
    /// body length as a big-endian `u32` (truncated to 32 bits), then the
    /// body. Only a server sends to its peers.
    pub fn send_client_message(&self, encoded: &Vec<u8>) -> (frame: Vec<u8>)
        requires
            self.network_side == NetworkSide::Server,
            encoded@.len() + 4 <= usize::MAX,
        ensures
            frame@.len() == encoded@.len() + 4,
            be_value(frame@.subrange(0, 4)) == encoded@.len() % 0x1_0000_0000,
            frame@.subrange(4, frame@.len() as int) == encoded@,
    {
        frame_message(encoded)
    }

    /// The frame a client sends to its server for an encoded message, laid
    /// out as by `send_client_message`. Only a client sends to its server.
    pub fn send_message_server(&self, encoded: &Vec<u8>) -> (frame: Vec<u8>)
        requires
            self.network_side == NetworkSide::Client,
            encoded@.len() + 4 <= usize::MAX,
        ensures
            frame@.len() == encoded@.len() + 4,
            be_value(frame@.subrange(0, 4)) == encoded@.len() % 0x1_0000_0000,
            frame@.subrange(4, frame@.len() as int) == encoded@,
    {
        frame_message(encoded)
    }

    /// Marks that a task now reads frames from this peer. Only a server
    /// listens to its peers, and only once.
    pub fn start_listening_client(&mut self)
        requires
            old(self).network_side == NetworkSide::Server,
            !old(self).listening,
        ensures
            final(self).listening,
            final(self).connection_name == old(self).connection_name,
            final(self).network_side == old(self).network_side,
            final(self).connection_dropped == old(self).connection_dropped,
            final(self).uuid == old(self).uuid,
    {
        self.listening = true;
    }

    /// The reading task's decision on `event`; when it stops, the peer is
    /// marked as gone.
    pub fn on_server_read(&mut self, event: ServerReadEvent) -> (step: ReadStep)
        ensures
            step == spec_read_step(event),
            final(self).connection_dropped == (old(self).connection_dropped || step == ReadStep::Stop),
            final(self).connection_name == old(self).connection_name,
            final(self).network_side == old(self).network_side,
            final(self).listening == old(self).listening,
            final(self).uuid == old(self).uuid,
    {
        let step = read_step(event);
        if step == ReadStep::Stop {
            self.connection_dropped = true;
        }
        step
    }
}

/// `m` with every peer marked as listened to.
pub open spec fn listening_view(m: Map<u128, ClientComponent>) -> Map<u128, ClientComponent> {
    m.map_values(|c: ClientComponent| ClientComponent { listening: true, ..c })
}

/// `m` without the peers that have gone away.
pub open spec fn remaining_view(m: Map<u128, ClientComponent>) -> Map<u128, ClientComponent> {
    Map::new(|id: u128| m.contains_key(id) && !m[id].connection_dropped, |id: u128| m[id])
}

/// The key of a client in a registry.
pub open spec fn client_key(c: ClientComponent) -> u128 {
    c.uuid
}

/// The peers a server has accepted, by identifier. Every entry is a
/// server-side component.
///
/// The entries are kept in a `Vec` with pairwise distinct identifiers: the
/// steps that visit every peer (marking them listened to, dropping the gone
/// ones) rewrite entries one by one in a definite order, which the
/// specified operations of `HashMap` (insert, remove, lookup) do not offer.
pub struct ClientRegistry {
    clients: Vec<ClientComponent>,
}

impl View for ClientRegistry {
    type V = Map<u128, ClientComponent>;

    closed spec fn view(&self) -> Map<u128, ClientComponent> {
        keyed_map(self.clients@, |c: ClientComponent| client_key(c))
    }
}

impl ClientRegistry {
    #[verifier::type_invariant]
    closed spec fn inv(&self) -> bool {
        &&& unique_keys(self.clients@, |c: ClientComponent| client_key(c))
        &&& forall|i: int|
            0 <= i < self.clients@.len() ==> (#[trigger] self.clients@[i]).network_side
                == NetworkSide::Server
    }

    /// An empty registry.
    pub fn new() -> (r: Self)
        ensures
            r@ == Map::<u128, ClientComponent>::empty(),
    {
        proof {
            lemma_keyed_map_empty(|c: ClientComponent| client_key(c));
        }
        ClientRegistry { clients: Vec::new() }
    }

    /// The index of the entry for `id`, if any.
    fn find(&self, id: u128) -> (r: Option<usize>)
        ensures
            match r {
                Some(i) => i < self.clients@.len() && self.clients@[i as int].uuid == id,
                None => !self@.contains_key(id),
            },
    {
        proof {
            use_type_invariant(self);
        }
        let mut i: usize = 0;
        while i < self.clients.len()
            invariant
                i <= self.clients@.len(),
                forall|j: int| 0 <= j < i ==> (#[trigger] self.clients@[j]).uuid != id,
            decreases self.clients@.len() - i,
        {
            if self.clients[i].uuid == id {
                return Some(i);
            }
            i = i + 1;
        }
        proof {
            if self@.contains_key(id) {
                let j = lemma_keyed_map_key(self.clients@, |c: ClientComponent| client_key(c), id);
            }
        }
        None
    }

    /// Whether a peer with identifier `id` is registered.
    pub fn contains(&self, id: u128) -> (b: bool)
        ensures
            b == self@.contains_key(id),
    {
        proof {
            use_type_invariant(self);
        }
        match self.find(id) {
            Some(i) => {
                proof {
                    lemma_keyed_map_index(self.clients@, |c: ClientComponent| client_key(c), i as int);
                }
                true
            },
            None => false,
        }
    }

    /// The peer registered under `id`, if any.
    pub fn get(&self, id: u128) -> (r: Option<&ClientComponent>)
        ensures
            match r {
                Some(c) => self@.contains_key(id) && *c == self@[id],
                None => !self@.contains_key(id),
            },
    {
        proof {
            use_type_invariant(self);
        }
        match self.find(id) {
            Some(i) => {
                proof {
                    lemma_keyed_map_index(self.clients@, |c: ClientComponent| client_key(c), i as int);
                }
                Some(&self.clients[i])
            },
            None => None,
        }
    }

    /// Stores `c` under its identifier, replacing an entry with the same identifier.
    pub fn insert(&mut self, c: ClientComponent)
        requires
            c.network_side == NetworkSide::Server,
        ensures
            final(self)@ == old(self)@.insert(c.uuid, c),
    {
        proof {
            use_type_invariant(&*self);
        }
        let ghost key = |c: ClientComponent| client_key(c);
        match self.find(c.uuid) {
            Some(i) => {
                let ghost s = self.clients@;
                let mut clients = Vec::new();
                std::mem::swap(&mut clients, &mut self.clients);
                let _ = clients.remove(i);
                clients.insert(i, c);
                proof {
                    assert(clients@ =~= s.update(i as int, c));
                    lemma_keyed_map_update(s, key, i as int, c);
                    assert forall|j: int| 0 <= j < clients@.len() implies (#[trigger] clients@[j]).network_side
                        == NetworkSide::Server by {
                        if j != i {
                            assert(clients@[j] == s[j]);
                        }
                    }
                }
                self.clients = clients;
            },
            None => {
                let ghost s = self.clients@;
                proof {
                    lemma_keyed_map_push(s, key, c);
                }
                let mut clients = Vec::new();
                std::mem::swap(&mut clients, &mut self.clients);
                clients.push(c);
                self.clients = clients;
            },
        }
    }

    /// Removes the entry for `id`; returns whether there was one.
    pub fn remove(&mut self, id: u128) -> (removed: bool)
        ensures
            final(self)@ == old(self)@.remove(id),
            removed == old(self)@.contains_key(id),
    {
        proof {
            use_type_invariant(&*self);
        }
        let ghost key = |c: ClientComponent| client_key(c);
        match self.find(id) {
            Some(i) => {
                let ghost s = self.clients@;
                let mut clients = Vec::new();
                std::mem::swap(&mut clients, &mut self.clients);
                let _ = clients.remove(i);
                proof {
                    lemma_keyed_map_remove(s, key, i as int);
                    lemma_keyed_map_index(s, key, i as int);
                    assert forall|j: int| 0 <= j < clients@.len() implies (#[trigger] clients@[j]).network_side
                        == NetworkSide::Server by {
                        if j < i {
                            assert(clients@[j] == s[j]);
                        } else {
                            assert(clients@[j] == s[j + 1]);
                        }
                    }
                }
                self.clients = clients;
                true
            },
            None => {
                proof {
                    assert(old(self)@.remove(id) =~= old(self)@);
                }
                false
            },
        }
    }

    /// Registers a peer that the server of connection `connection_name` just
    /// accepted, under a fresh random version 4 UUID, which it returns. The peer
    /// is not yet listened to and not dropped. (An identifier that happened
    /// to be in use already would have its entry replaced.)
    pub fn register(&mut self, connection_name: String) -> (id: u128)
        ensures
            is_v4_id(id),
            final(self)@ == old(self)@.insert(id, ClientComponent::accepted(connection_name, id)),
    {
        let id = fresh_client_id();
        let c = ClientComponent {
            connection_name,
            network_side: NetworkSide::Server,
            listening: false,
            connection_dropped: false,
            uuid: id,
        };
        self.insert(c);
        id
    }

    /// Marks the peer `id` as gone; returns whether it is registered.
    pub fn mark_dropped(&mut self, id: u128) -> (found: bool)
        ensures
            found == old(self)@.contains_key(id),
            found ==> final(self)@ == old(self)@.insert(id, ClientComponent { connection_dropped: true, ..old(self)@[id] }),
            !found ==> final(self)@ == old(self)@,
    {
        proof {
            use_type_invariant(&*self);
        }
        match self.find(id) {
            Some(i) => {
                proof {
                    lemma_keyed_map_index(self.clients@, |c: ClientComponent| client_key(c), i as int);
                }
                let c = &self.clients[i];
                let updated = ClientComponent {
                    connection_name: c.connection_name.clone(),
                    network_side: c.network_side,
                    listening: c.listening,
                    connection_dropped: true,
                    uuid: c.uuid,
                };
                self.insert(updated);
                true
            },
            None => false,
        }
    }

    /// Marks every peer that no task reads yet as listened to, and returns
    /// their identifiers; nothing else changes.
    pub fn start_listening_all(&mut self) -> (started: Vec<u128>)
        ensures
            final(self)@ == listening_view(old(self)@),
            forall|id: u128| #[trigger] started@.contains(id) <==> (old(self)@.contains_key(id) && !old(self)@[id].listening),
            started@.no_duplicates(),
    {
        proof {
            use_type_invariant(&*self);
        }
        let ghost key = |c: ClientComponent| client_key(c);
        let ghost f = |c: ClientComponent| ClientComponent { listening: true, ..c };
        let ghost s = self.clients@;
        assert forall|x: ClientComponent| #[trigger] key(x) == x.uuid by {}
        let mut old_v = Vec::new();
        std::mem::swap(&mut old_v, &mut self.clients);
        let mut new_v: Vec<ClientComponent> = Vec::new();
        let mut started: Vec<u128> = Vec::new();
        let n = old_v.len();
        let mut i: usize = 0;
        while i < n
            invariant
                old_v@ == s,
                forall|x: ClientComponent| #[trigger] key(x) == x.uuid,
                forall|x: ClientComponent| #[trigger] f(x) == (ClientComponent { listening: true, ..x }),
                n == s.len(),
                i <= n,
                unique_keys(s, key),
                forall|j: int| 0 <= j < s.len() ==> (#[trigger] s[j]).network_side == NetworkSide::Server,
                new_v@.len() == i,
                forall|j: int| 0 <= j < i ==> #[trigger] new_v@[j] == f(s[j]),
                forall|id: u128| #[trigger] started@.contains(id) <==> exists|j: int| 0 <= j < i && s[j].uuid == id && !s[j].listening,
                started@.no_duplicates(),
            decreases n - i,
        {
            let c = &old_v[i];
            if !c.listening {
                proof {
                    assert forall|k: int| 0 <= k < started@.len() implies started@[k] != c.uuid by {
                        assert(started@.contains(started@[k]));
                        let j = choose|j: int| 0 <= j < i && s[j].uuid == started@[k] && !s[j].listening;
                        assert(key(s[j]) != key(s[i as int]));
                    }
                }
                let ghost prev = started@;
                started.push(c.uuid);
                proof {
                    assert forall|id: u128| #[trigger] started@.contains(id) <==> exists|j: int| 0 <= j < i + 1 && s[j].uuid == id && !s[j].listening by {
                        if started@.contains(id) {
                            let k = choose|k: int| 0 <= k < started@.len() && started@[k] == id;
                            if k < prev.len() {
                                assert(prev[k] == id);
                                assert(prev.contains(id));
                            } else {
                                assert(s[i as int].uuid == id);
                            }
                        }
                        if exists|j: int| 0 <= j < i + 1 && s[j].uuid == id && !s[j].listening {
                            let j = choose|j: int| 0 <= j < i + 1 && s[j].uuid == id && !s[j].listening;
                            if j < i {
                                assert(prev.contains(id));
                                let k = choose|k: int| 0 <= k < prev.len() && prev[k] == id;
                                assert(started@[k] == id);
                            } else {
                                assert(started@[prev.len() as int] == id);
                            }
                        }
                    }
                }
            } else {
                proof {
                    assert forall|id: u128| #[trigger] started@.contains(id) <==> exists|j: int| 0 <= j < i + 1 && s[j].uuid == id && !s[j].listening by {
                        if exists|j: int| 0 <= j < i + 1 && s[j].uuid == id && !s[j].listening {
                            let j = choose|j: int| 0 <= j < i + 1 && s[j].uuid == id && !s[j].listening;
                            assert(j != i);
                        }
                    }
                }
            }
            let updated = ClientComponent {
                connection_name: c.connection_name.clone(),
                network_side: c.network_side,
                listening: true,
                connection_dropped: c.connection_dropped,
                uuid: c.uuid,
            };
            new_v.push(updated);
            i = i + 1;
        }
        proof {
            assert(new_v@ =~= s.map_values(f));
            lemma_keyed_map_map_values(s, key, f);
            assert forall|j: int| 0 <= j < new_v@.len() implies (#[trigger] new_v@[j]).network_side == NetworkSide::Server by {
                assert(new_v@[j] == f(s[j]));
            }
            assert(keyed_map(new_v@, key) =~= listening_view(old(self)@));
            assert forall|id: u128| #[trigger] started@.contains(id) <==> (old(self)@.contains_key(id) && !old(self)@[id].listening) by {
                if started@.contains(id) {
                    let j = choose|j: int| 0 <= j < n && s[j].uuid == id && !s[j].listening;
                    lemma_keyed_map_index(s, key, j);
                }
                if old(self)@.contains_key(id) && !old(self)@[id].listening {
                    let j = lemma_keyed_map_key(s, key, id);
                    assert(s[j].uuid == id && !s[j].listening);
                }
            }
        }
        self.clients = new_v;
        started
    }

    /// Removes every peer that has gone away, and returns their identifiers;
    /// the other entries stay as they are.
    pub fn remove_dropped(&mut self) -> (removed: Vec<u128>)
        ensures
            final(self)@ == remaining_view(old(self)@),
            forall|id: u128| #[trigger] removed@.contains(id) <==> (old(self)@.contains_key(id) && old(self)@[id].connection_dropped),
            removed@.no_duplicates(),
    {
        proof {
            use_type_invariant(&*self);
        }
        let ghost key = |c: ClientComponent| client_key(c);
        let ghost s = self.clients@;
        assert forall|x: ClientComponent| #[trigger] key(x) == x.uuid by {}
        let mut old_v = Vec::new();
        std::mem::swap(&mut old_v, &mut self.clients);
        let mut kept: Vec<ClientComponent> = Vec::new();
        let mut removed: Vec<u128> = Vec::new();
        // origin[j] is the index in `s` of `kept[j]`; dropped[j] that of `removed[j]`
        let ghost mut origin: Seq<int> = Seq::empty();
        let ghost mut dropped: Seq<int> = Seq::empty();
        let n = old_v.len();
        let mut i: usize = 0;
        proof {
            lemma_keyed_map_empty(key);
        }
        while i < n
            invariant
                old_v@ == s,
                forall|x: ClientComponent| #[trigger] key(x) == x.uuid,
                n == s.len(),
                i <= n,
                unique_keys(s, key),
                forall|j: int| 0 <= j < s.len() ==> (#[trigger] s[j]).network_side == NetworkSide::Server,
                unique_keys(kept@, key),
                origin.len() == kept@.len(),
                forall|j: int| 0 <= j < kept@.len() ==> 0 <= #[trigger] origin[j] < i && kept@[j] == s[origin[j]] && !s[origin[j]].connection_dropped,
                forall|k: int| 0 <= k < i && !(#[trigger] s[k]).connection_dropped ==> has_key(kept@, key, s[k].uuid),
                dropped.len() == removed@.len(),
                forall|j: int| 0 <= j < removed@.len() ==> 0 <= #[trigger] dropped[j] < i && removed@[j] == s[dropped[j]].uuid && s[dropped[j]].connection_dropped,
                forall|k: int| 0 <= k < i && (#[trigger] s[k]).connection_dropped ==> removed@.contains(s[k].uuid),
                removed@.no_duplicates(),
            decreases n - i,
        {
            let c = &old_v[i];
            if c.connection_dropped {
                let ghost prev = removed@;
                proof {
                    assert forall|k: int| 0 <= k < prev.len() implies prev[k] != c.uuid by {
                        let j = dropped[k];
                        assert(key(s[j]) != key(s[i as int]));
                    }
                }
                removed.push(c.uuid);
                proof {
                    dropped = dropped.push(i as int);
                    assert forall|k: int| 0 <= k < i + 1 && (#[trigger] s[k]).connection_dropped implies removed@.contains(s[k].uuid) by {
                        if k < i {
                            let j = choose|j: int| 0 <= j < prev.len() && prev[j] == s[k].uuid;
                            assert(removed@[j] == s[k].uuid);
                        } else {
                            assert(removed@[prev.len() as int] == s[k].uuid);
                        }
                    }
                }
            } else {
                let copy = ClientComponent {
                    connection_name: c.connection_name.clone(),
                    network_side: c.network_side,
                    listening: c.listening,
                    connection_dropped: c.connection_dropped,
                    uuid: c.uuid,
                };
                let ghost prev = kept@;
                proof {
                    assert(copy == s[i as int]);
                    if keyed_map(prev, key).contains_key(c.uuid) {
                        let j = lemma_keyed_map_key(prev, key, c.uuid);
                        assert(key(s[origin[j]]) == key(s[i as int]));
                    }
                    lemma_keyed_map_push(prev, key, copy);
                }
                kept.push(copy);
                proof {
                    origin = origin.push(i as int);
                    assert forall|k: int| 0 <= k < i + 1 && !(#[trigger] s[k]).connection_dropped implies has_key(kept@, key, s[k].uuid) by {
                        if k < i {
                            assert(has_key(prev, key, s[k].uuid));
                            let j = choose|j: int| 0 <= j < prev.len() && key(#[trigger] prev[j]) == s[k].uuid;
                            assert(kept@[j] == prev[j]);
                            assert(key(kept@[j]) == s[k].uuid);
                        } else {
                            assert(kept@[prev.len() as int] == s[k]);
                            assert(key(kept@[prev.len() as int]) == s[k].uuid);
                        }
                    }
                }
            }
            i = i + 1;
        }
        proof {
            assert forall|j: int| 0 <= j < kept@.len() implies (#[trigger] kept@[j]).network_side == NetworkSide::Server by {
                assert(kept@[j] == s[origin[j]]);
            }
            assert forall|id: u128| #[trigger] keyed_map(kept@, key).contains_key(id) <==> (old(self)@.contains_key(id) && !old(self)@[id].connection_dropped) by {
                if keyed_map(kept@, key).contains_key(id) {
                    let j = lemma_keyed_map_key(kept@, key, id);
                    lemma_keyed_map_index(s, key, origin[j]);
                }
                if old(self)@.contains_key(id) && !old(self)@[id].connection_dropped {
                    let k = lemma_keyed_map_key(s, key, id);
                    assert(has_key(kept@, key, s[k].uuid));
                    let j = choose|j: int| 0 <= j < kept@.len() && key(#[trigger] kept@[j]) == s[k].uuid;
                    lemma_keyed_map_index(kept@, key, j);
                }
            }
            assert forall|id: u128| #[trigger] keyed_map(kept@, key).contains_key(id) implies keyed_map(kept@, key)[id] == old(self)@[id] by {
                let j = lemma_keyed_map_key(kept@, key, id);
                lemma_keyed_map_index(s, key, origin[j]);
            }
            assert(keyed_map(kept@, key) =~= remaining_view(old(self)@));
            assert forall|id: u128| #[trigger] removed@.contains(id) <==> (old(self)@.contains_key(id) && old(self)@[id].connection_dropped) by {
                if removed@.contains(id) {
                    let j = choose|j: int| 0 <= j < removed@.len() && removed@[j] == id;
                    lemma_keyed_map_index(s, key, dropped[j]);
                }
                if old(self)@.contains_key(id) && old(self)@[id].connection_dropped {
                    let k = lemma_keyed_map_key(s, key, id);
                }
            }
        }
        self.clients = kept;
        removed
    }
}


/// After all peers are marked as listened to, none is left to start: marking
/// again changes nothing.
pub proof fn lemma_listening_view_idempotent(m: Map<u128, ClientComponent>)
    ensures
        listening_view(listening_view(m)) == listening_view(m),
        listening_view(m).dom() == m.dom(),
        forall|id: u128| #[trigger] listening_view(m).contains_key(id) ==> listening_view(m)[id].listening,
{
    assert(listening_view(listening_view(m)) =~= listening_view(m));
}

/// After the peers that went away are removed, none that went away is left,
/// every other peer is kept as it was, and removing again changes nothing.
pub proof fn lemma_remaining_view(m: Map<u128, ClientComponent>)
    ensures
        forall|id: u128| #[trigger] remaining_view(m).contains_key(id) ==> !remaining_view(m)[id].connection_dropped,
        forall|id: u128| #[trigger] m.contains_key(id) && !m[id].connection_dropped ==> remaining_view(m).contains_key(id)
            && remaining_view(m)[id] == m[id],
        remaining_view(remaining_view(m)) == remaining_view(m),
{
    assert(remaining_view(remaining_view(m)) =~= remaining_view(m));
}

/// Registering a peer under an identifier not in use, then removing it,
/// gives back the registry as it was.
pub proof fn lemma_register_then_remove(m: Map<u128, ClientComponent>, id: u128, connection_name: String)
    requires
        !m.contains_key(id),
    ensures
        m.insert(id, ClientComponent::accepted(connection_name, id)).remove(id) == m,
{
    assert(m.insert(id, ClientComponent::accepted(connection_name, id)).remove(id) =~= m);
}

/// A peer that the server accepted and registered is, once it goes away
/// and the gone peers are removed, no longer registered.
pub proof fn lemma_dropped_peer_is_removed(m: Map<u128, ClientComponent>, id: u128)
    requires
        m.contains_key(id),
    ensures
        !remaining_view(m.insert(id, ClientComponent { connection_dropped: true, ..m[id] })).contains_key(id),
{
}

/// The reading task delivers every non-empty body and reads on; it stops
/// (dropping the peer) only when the socket is gone, the length read failed
/// or the body is empty, and skips a failed body read.
pub proof fn lemma_read_step_decisions(event: ServerReadEvent)
    ensures
        (event matches ServerReadEvent::BodyRead { length } && length > 0) ==> spec_read_step(event) == ReadStep::Deliver,
        spec_read_step(event) == ReadStep::Stop <==> (event == ServerReadEvent::ReaderGone || event
            == ServerReadEvent::HeaderFailed || event == (ServerReadEvent::BodyRead { length: 0 })),
        spec_read_step(event) == ReadStep::Continue <==> event == ServerReadEvent::BodyFailed,
{
}

/// Marking peers as listened to touches nothing but the `listening` field:
/// the same peers stay registered, each now listened to, with its name,
/// side, identifier and `connection_dropped` mark as before.
pub proof fn lemma_listening_view_only_marks(m: Map<u128, ClientComponent>)
    ensures
        listening_view(m).dom() == m.dom(),
        forall|id: u128| #[trigger] m.contains_key(id) ==> {
            let c = listening_view(m)[id];
            &&& c.listening
            &&& c.connection_dropped == m[id].connection_dropped
            &&& c.connection_name == m[id].connection_name
            &&& c.network_side == m[id].network_side
            &&& c.uuid == m[id].uuid
        },
{
}
} // verus!
