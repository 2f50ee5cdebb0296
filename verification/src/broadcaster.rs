//! The hub: which clients watch which map, whom an event goes to, and who is
//! dropped by a sweep.
//!
//! The hub keeps the sending end of every client's channel and never sends
//! on it. A client stands in the registry as the number it was given at
//! registration; the caller performs the sends that the hub asks for, on the
//! channels that the hub hands out, and reports back what became of them.
use crate::registry::{kept, lemma_subscribed_registers_one, lemma_subscribed_well_formed,
    lemma_sweep_reaps_the_silent, lemma_swept_well_formed, lemma_unissued_is_unregistered,
    recipients, registered, subscribed, swept, well_formed};
use actix_web_lab::sse::Sender;
use std::collections::{HashMap, HashSet};
use vstd::prelude::*;

verus! {

/// Map that clients are connected to.
#[derive(Debug)]
struct ConnectedMap {
    /// The id of the map.
    map_id: i32,
    /// The clients connected to the map, in the order in which they came.
    clients: Vec<u64>,
}

/// Why a client was not registered.
#[derive(Debug, Clone, Copy, PartialEq, Eq, Structural)]
pub enum SetupError {
    /// The client's channel did not take the first frame.
    HandshakeNotSent,
}

/// Why an event was not published.
#[derive(Debug)]
pub enum BroadcastError<E> {
    /// The payload could not be put into its wire form.
    Serialization(E),
}

/// One event and the clients that it is to be sent to.
#[derive(Debug)]
pub struct Delivery<P> {
    /// The event in its wire form, the same for every recipient.
    pub event: P,
    /// The clients to send it to, in the order in which they registered.
    pub recipients: Vec<u64>,
}

/// The hub's registry.
#[derive(Debug)]
pub struct Broadcaster {
    maps: HashMap<i32, ConnectedMap>,
    channels: HashMap<u64, Sender>,
    issued: u64,
}

impl View for Broadcaster {
    type V = Map<i32, Seq<u64>>;

    /// The clients of each map that has any.
    closed spec fn view(&self) -> Map<i32, Seq<u64>> {
        Map::new(|map_id: i32| self.maps@.contains_key(map_id), |map_id: i32| self.maps@[map_id].clients@)
    }
}

/// The clients of `clients` that are in `alive`, in their old order.
fn live_clients(clients: &Vec<u64>, alive: &HashSet<u64>) -> (ok_clients: Vec<u64>)
    ensures
        ok_clients@ == kept(clients@, alive@),
{
    let mut ok_clients: Vec<u64> = Vec::new();
    let mut i: usize = 0;
    while i < clients.len()
        invariant
            i <= clients.len(),
            ok_clients@ == kept(clients@.take(i as int), alive@),
        decreases clients.len() - i,
    {
        let client: u64 = clients[i];
        proof {
            let next = clients@.take(i + 1);
            assert(next.drop_last() =~= clients@.take(i as int));
            assert(next.last() == client);
        }
        if alive.contains(&client) {
            ok_clients.push(client);
        }
        i = i + 1;
    }
    proof {
        assert(clients@.take(clients.len() as int) =~= clients@);
    }
    ok_clients
}

/// A copy of `clients`.
fn copy_clients(clients: &Vec<u64>) -> (copy: Vec<u64>)
    ensures
        copy@ == clients@,
{
    let mut copy: Vec<u64> = Vec::new();
    let mut i: usize = 0;
    while i < clients.len()
        invariant
            i <= clients.len(),
            copy@ == clients@.take(i as int),
        decreases clients.len() - i,
    {
        copy.push(clients[i]);
        assert(clients@.take(i + 1) =~= clients@.take(i as int).push(clients@[i as int]));
        i = i + 1;
    }
    assert(clients@.take(clients.len() as int) =~= clients@);
    copy
}

/// Puts `clients` behind what `all` holds.
fn append_clients(all: &mut Vec<u64>, clients: &Vec<u64>)
    ensures
        final(all)@ == old(all)@ + clients@,
{
    let mut i: usize = 0;
    while i < clients.len()
        invariant
            i <= clients.len(),
            all@ == old(all)@ + clients@.take(i as int),
        decreases clients.len() - i,
    {
        all.push(clients[i]);
        assert(clients@.take(i + 1) =~= clients@.take(i as int).push(clients@[i as int]));
        assert(all@ =~= old(all)@ + clients@.take(i + 1));
        i = i + 1;
    }
    assert(clients@.take(clients.len() as int) =~= clients@);
}

impl Default for Broadcaster {
    /// A hub that nobody watches.
    fn default() -> (broadcaster: Self)
        ensures
            broadcaster.wf(),
            broadcaster@ == Map::<i32, Seq<u64>>::empty(),
            broadcaster.channels() == Map::<u64, Sender>::empty(),
            broadcaster.issued() == 0,
    {
        Broadcaster::new()
    }
}

impl Broadcaster {
    /// The number of clients registered so far, which is the number that the
    /// next client gets.
    pub closed spec fn issued(&self) -> u64 {
        self.issued
    }

    /// The sending end of each client's channel.
    pub closed spec fn channels(&self) -> Map<u64, Sender> {
        self.channels@
    }

    /// The registry's invariant: see [`well_formed`]. Besides, the hub holds
    /// a channel for exactly the clients that watch a map.
    pub closed spec fn wf(&self) -> bool {
        &&& well_formed(self@, self.issued)
        &&& forall|map_id: i32| #[trigger]
            self.maps@.contains_key(map_id) ==> self.maps@[map_id].map_id == map_id
        &&& forall|client: u64| #[trigger]
            self.channels@.contains_key(client) <==> registered(self@, client)
    }

    /// A hub that meets its invariant has a registry that meets
    /// [`well_formed`], and holds a channel for a client if and only if the
    /// client watches a map.
    pub proof fn lemma_wf(&self, client: u64)
        requires
            self.wf(),
        ensures
            well_formed(self@, self.issued()),
            self.channels().contains_key(client) <==> registered(self@, client),
    {
    }

    /// A hub that nobody watches.
    pub fn new() -> (broadcaster: Broadcaster)
        ensures
            broadcaster.wf(),
            broadcaster@ == Map::<i32, Seq<u64>>::empty(),
            broadcaster.channels() == Map::<u64, Sender>::empty(),
            broadcaster.issued() == 0,
    {
        let broadcaster = Broadcaster { maps: HashMap::new(), channels: HashMap::new(), issued: 0 };
        assert(broadcaster@ =~= Map::<i32, Seq<u64>>::empty());
        assert(broadcaster.channels() =~= Map::<u64, Sender>::empty());
        broadcaster
    }

    /// The channel of `client`, if it watches a map.
    pub fn sender(&self, client: u64) -> (sender: Option<&Sender>)
        ensures
            match sender {
                Some(sender) => self.channels().contains_key(client) && *sender
                    == self.channels()[client],
                None => !self.channels().contains_key(client),
            },
            self.wf() ==> (sender is Some <==> registered(self@, client)),
    {
        self.channels.get(&client)
    }

    /// The number that the next client gets.
    pub fn clients_issued(&self) -> (n: u64)
        ensures
            n == self.issued(),
    {
        self.issued
    }

    /// Whether anybody watches `map_id`.
    pub fn has_map(&self, map_id: i32) -> (found: bool)
        ensures
            found == self@.contains_key(map_id),
    {
        self.maps.contains_key(&map_id)
    }

    /// The number of maps that somebody watches.
    pub fn map_count(&self) -> (n: usize)
        ensures
            n == self@.dom().len(),
    {
        assert(self@.dom() =~= self.maps@.dom());
        self.maps.len()
    }

    /// The clients that watch `map_id`, in the order in which they came.
    pub fn clients(&self, map_id: i32) -> (clients: Vec<u64>)
        ensures
            clients@ == recipients(self@, map_id),
    {
        match self.maps.get(&map_id) {
            Some(map) => copy_clients(&map.clients),
            None => Vec::new(),
        }
    }

    /// The number of clients that watch `map_id`.
    pub fn client_count(&self, map_id: i32) -> (n: usize)
        ensures
            n == recipients(self@, map_id).len(),
    {
        match self.maps.get(&map_id) {
            Some(map) => map.clients.len(),
            None => 0,
        }
    }

    /// The clients that a sweep has to probe: every client that watches a
    /// map, each once. Their order is not fixed.
    pub fn probe_targets(&self) -> (targets: Vec<u64>)
        requires
            self.wf(),
        ensures
            targets@.no_duplicates(),
            forall|client: u64| #[trigger] targets@.contains(client) <==> registered(self@, client),
    {
        let ghost maps = self.maps@;
        let ghost r = self@;
        let ghost mut done: Set<i32> = Set::empty();
        let mut targets: Vec<u64> = Vec::new();
        for entry in it: self.maps.iter()
            invariant
                maps == self.maps@,
                r == self@,
                self.wf(),
                it.seq().no_duplicates(),
                forall|j: int|
                    0 <= j < it.seq().len() ==> maps.contains_key(*(#[trigger] it.seq()[j]).0)
                        && maps[*it.seq()[j].0] == *it.seq()[j].1,
                forall|k: i32|
                    maps.contains_key(k) ==> exists|j: int|
                        0 <= j < it.seq().len() && *(#[trigger] it.seq()[j]).0 == k,
                forall|k: i32| #[trigger]
                    done.contains(k) <==> exists|j: int|
                        0 <= j < it.index() && *(#[trigger] it.seq()[j]).0 == k,
                targets@.no_duplicates(),
                forall|client: u64| #[trigger]
                    targets@.contains(client) <==> exists|k: i32| #[trigger]
                        done.contains(k) && r[k].contains(client),
        {
            let (map_id, map) = entry;
            let ghost before = targets@;
            let ghost done_before = done;
            let ghost at = it.index();
            append_clients(&mut targets, &map.clients);
            proof {
                let added = map.clients@;
                done = done.insert(*map_id);
                assert(it.seq()[at] == entry);
                assert(r.contains_key(*map_id) && r[*map_id] == added);
                assert forall|k: i32| #[trigger]
                    done.contains(k) <==> exists|j: int|
                        0 <= j < at + 1 && *(#[trigger] it.seq()[j]).0 == k by {
                    if done_before.contains(k) {
                        let j = choose|j: int| 0 <= j < at && *(#[trigger] it.seq()[j]).0 == k;
                        assert(0 <= j < at + 1 && *it.seq()[j].0 == k);
                    }
                    if exists|j: int| 0 <= j < at + 1 && *(#[trigger] it.seq()[j]).0 == k {
                        let j = choose|j: int| 0 <= j < at + 1 && *(#[trigger] it.seq()[j]).0 == k;
                        if j < at {
                            assert(done_before.contains(k));
                        }
                    }
                }
                assert(!done_before.contains(*map_id)) by {
                    if done_before.contains(*map_id) {
                        let j = choose|j: int| 0 <= j < at && *(#[trigger] it.seq()[j]).0 == *map_id;
                        assert(it.seq()[j] == it.seq()[at]);
                    }
                }
                assert forall|client: u64| before.contains(client) implies !added.contains(
                    client,
                ) by {
                    if added.contains(client) {
                        let other = choose|k: i32| #[trigger]
                            done_before.contains(k) && r[k].contains(client);
                        let j = choose|j: int| 0 <= j < at && *(#[trigger] it.seq()[j]).0 == other;
                        assert(r.contains_key(other));
                        assert(r[*map_id].contains(client));
                        assert(other == *map_id);
                    }
                }
                assert forall|i: int, j: int|
                    0 <= i < targets@.len() && 0 <= j < targets@.len() && i != j implies targets@[i]
                    != targets@[j] by {
                    if i < before.len() && j >= before.len() {
                        assert(before.contains(before[i]));
                        assert(added.contains(added[j - before.len()]));
                    } else if j < before.len() && i >= before.len() {
                        assert(before.contains(before[j]));
                        assert(added.contains(added[i - before.len()]));
                    } else if i >= before.len() {
                        assert(added[i - before.len()] != added[j - before.len()]);
                    }
                }
                assert forall|client: u64| #[trigger]
                    targets@.contains(client) <==> exists|k: i32| #[trigger]
                        done.contains(k) && r[k].contains(client) by {
                    if targets@.contains(client) {
                        let i = choose|i: int| 0 <= i < targets@.len() && targets@[i] == client;
                        if i < before.len() {
                            assert(before.contains(client));
                            let k = choose|k: i32| #[trigger]
                                done_before.contains(k) && r[k].contains(client);
                            assert(done.contains(k) && r[k].contains(client));
                        } else {
                            assert(added[i - before.len()] == client);
                            assert(done.contains(*map_id) && r[*map_id].contains(client));
                        }
                    }
                    if exists|k: i32| #[trigger] done.contains(k) && r[k].contains(client) {
                        let k = choose|k: i32| #[trigger] done.contains(k) && r[k].contains(client);
                        if k == *map_id {
                            let i = choose|i: int| 0 <= i < added.len() && added[i] == client;
                            assert(targets@[before.len() + i] == client);
                        } else {
                            assert(done_before.contains(k));
                            assert(before.contains(client));
                            let i = choose|i: int| 0 <= i < before.len() && before[i] == client;
                            assert(targets@[i] == client);
                        }
                    }
                }
            }
        }
        proof {
            assert forall|k: i32| maps.contains_key(k) implies done.contains(k) by {}
            assert forall|client: u64| #[trigger]
                targets@.contains(client) <==> registered(r, client) by {
                if registered(r, client) {
                    let k = choose|k: i32| #[trigger] r.contains_key(k) && r[k].contains(client);
                    assert(maps.contains_key(k));
                    assert(done.contains(k) && r[k].contains(client));
                }
                if targets@.contains(client) {
                    let k = choose|k: i32| #[trigger] done.contains(k) && r[k].contains(client);
                    assert(r.contains_key(k) && r[k].contains(client));
                }
            }
        }
        targets
    }

    /// Registers a client on `map_id`, given the sending end of its channel
    /// and whether the channel took the handshake frame. A client whose
    /// channel took it gets the next number and comes last among the map's
    /// clients, and the hub keeps its channel; otherwise nothing changes.
    pub fn new_client(&mut self, map_id: i32, sender: Sender, handshake_sent: bool) -> (result:
        Result<u64, SetupError>)
        requires
            old(self).wf(),
            old(self).issued() < u64::MAX,
        ensures
            final(self).wf(),
            handshake_sent ==> result == Ok::<u64, SetupError>(old(self).issued())
                && final(self)@ == subscribed(old(self)@, map_id, old(self).issued())
                && final(self).channels() == old(self).channels().insert(
                old(self).issued(),
                sender,
            ) && final(self).issued() == old(self).issued() + 1 && !registered(
                old(self)@,
                old(self).issued(),
            ),
            !handshake_sent ==> result == Err::<u64, SetupError>(SetupError::HandshakeNotSent)
                && final(self)@ == old(self)@ && final(self).channels() == old(self).channels()
                && final(self).issued() == old(self).issued(),
    {
        if !handshake_sent {
            return Err(SetupError::HandshakeNotSent);
        }
        let id: u64 = self.issued;
        let ghost before = self@;
        proof {
            lemma_unissued_is_unregistered(before, id, id);
        }
        let mut map = match self.maps.remove(&map_id) {
            Some(map) => map,
            None => ConnectedMap { map_id, clients: Vec::new() },
        };
        assert(map.clients@ == recipients(before, map_id));
        map.clients.push(id);
        self.maps.insert(map_id, map);
        self.channels.insert(id, sender);
        self.issued = id + 1;
        proof {
            assert(self@ =~= subscribed(before, map_id, id));
            lemma_subscribed_well_formed(before, id, map_id);
            assert forall|client: u64| #[trigger]
                self.channels@.contains_key(client) <==> registered(self@, client) by {
                lemma_subscribed_registers_one(before, map_id, id, client);
            }
        }
        Ok(id)
    }

    /// Says whom the event is to be sent to, given the outcome of putting
    /// the payload into its wire form: every client of `map_id`, each once,
    /// with the one event, whatever becomes of the sends. Where the payload
    /// had no wire form, nothing is to be sent and the failure is handed
    /// back.
    pub fn broadcast<P, E>(&self, map_id: i32, serialized: Result<P, E>) -> (result: Result<
        Delivery<P>,
        BroadcastError<E>,
    >)
        ensures
            match serialized {
                Ok(event) => result is Ok && result->Ok_0.event == event
                    && result->Ok_0.recipients@ == recipients(self@, map_id),
                Err(e) => result is Err && result->Err_0 == BroadcastError::Serialization(e),
            },
    {
        match serialized {
            Ok(event) => {
                let recipients = match self.maps.get(&map_id) {
                    Some(map) => copy_clients(&map.clients),
                    None => Vec::new(),
                };
                Ok(Delivery { event, recipients })
            },
            Err(e) => Err(BroadcastError::Serialization(e)),
        }
    }

    /// Drops the clients that did not answer the probe: a map keeps, in
    /// their order, its clients that are in `alive`, and a map that keeps
    /// none is forgotten.
    pub fn remove_stale_clients(&mut self, alive: &HashSet<u64>)
        requires
            old(self).wf(),
        ensures
            final(self).wf(),
            final(self)@ == swept(old(self)@, alive@),
            final(self).channels() == old(self).channels().restrict(alive@),
            final(self).issued() == old(self).issued(),
    {
        let ghost before = self@;
        let ghost before_maps = self.maps@;
        let ghost before_channels = self.channels@;
        let targets = self.probe_targets();
        let mut ok_maps: HashMap<i32, ConnectedMap> = HashMap::new();
        for entry in it: self.maps.iter()
            invariant
                before_maps == self.maps@,
                before == self@,
                forall|j: int| 0 <= j < it.seq().len() ==> before_maps.contains_key(*(#[trigger] it.seq()[j]).0)
                    && before_maps[*it.seq()[j].0] == *it.seq()[j].1,
                forall|k: i32| #[trigger] ok_maps@.contains_key(k) ==> before_maps.contains_key(k)
                    && ok_maps@[k].map_id == k
                    && ok_maps@[k].clients@ == kept(before_maps[k].clients@, alive@)
                    && ok_maps@[k].clients@.len() > 0,
                forall|k: i32| before_maps.contains_key(k) ==> exists|j: int| 0 <= j < it.seq().len() && *(#[trigger] it.seq()[j]).0 == k,
                forall|j: int| 0 <= j < it.index() && kept(before_maps[*(#[trigger] it.seq()[j]).0].clients@, alive@).len() > 0
                    ==> ok_maps@.contains_key(*it.seq()[j].0),
        {
            let (map_id, map) = entry;
            let ok_clients = live_clients(&map.clients, alive);
            if ok_clients.len() > 0 {
                ok_maps.insert(*map_id, ConnectedMap { map_id: *map_id, clients: ok_clients });
            }
        }
        self.maps = ok_maps;
        proof {
            assert(self@ =~= swept(before, alive@));
            lemma_swept_well_formed(before, alive@, self.issued);
        }
        let mut i: usize = 0;
        while i < targets.len()
            invariant
                i <= targets.len(),
                self@ == swept(before, alive@),
                self.issued == old(self).issued,
                well_formed(self@, self.issued),
                forall|map_id: i32| #[trigger]
                    self.maps@.contains_key(map_id) ==> self.maps@[map_id].map_id == map_id,
                forall|client: u64| #[trigger]
                    targets@.contains(client) <==> before_channels.contains_key(client),
                forall|client: u64| #[trigger]
                    self.channels@.contains_key(client) <==> before_channels.contains_key(client) && (
                    alive@.contains(client) || !targets@.take(i as int).contains(client)),
                forall|client: u64| #[trigger]
                    self.channels@.contains_key(client) ==> self.channels@[client]
                        == before_channels[client],
            decreases targets.len() - i,
        {
            let client: u64 = targets[i];
            let ghost maps = self.maps@;
            if !alive.contains(&client) {
                self.channels.remove(&client);
            }
            proof {
                assert(self.maps@ == maps);
                assert(self@ =~= swept(before, alive@));
                let seen = targets@.take(i as int);
                let next = targets@.take(i + 1);
                assert(next =~= seen.push(client));
                assert forall|c: u64| next.contains(c) <==> seen.contains(c) || c == client by {
                    if next.contains(c) {
                        let j = choose|j: int| 0 <= j < next.len() && next[j] == c;
                        if j < seen.len() {
                            assert(seen[j] == c);
                        }
                    }
                    if seen.contains(c) {
                        let j = choose|j: int| 0 <= j < seen.len() && seen[j] == c;
                        assert(next[j] == c);
                    }
                    if c == client {
                        assert(next[i as int] == c);
                    }
                }
            }
            i = i + 1;
        }
        proof {
            assert(targets@.take(targets.len() as int) =~= targets@);
            assert(self.channels@ =~= before_channels.restrict(alive@));
            assert forall|client: u64| #[trigger]
                self.channels@.contains_key(client) <==> registered(self@, client) by {
                lemma_sweep_reaps_the_silent(before, alive@, client);
            }
        }
    }
}

} // verus!
