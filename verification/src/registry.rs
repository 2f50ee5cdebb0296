//! The mathematical model of the hub's registry, and the laws of its three
//! operations.
//!
//! A registry is a map from a topic (the id of a map) to the sequence of the
//! clients that watch it, each client standing as the number it was given at
//! registration. A topic without clients has no entry.
use vstd::prelude::*;

verus! {

/// The clients of `clients` that answered the probe, in their old order.
pub open spec fn kept(clients: Seq<u64>, alive: Set<u64>) -> Seq<u64>
    decreases clients.len(),
{
    if clients.len() == 0 {
        Seq::empty()
    } else if alive.contains(clients.last()) {
        kept(clients.drop_last(), alive).push(clients.last())
    } else {
        kept(clients.drop_last(), alive)
    }
}

/// The registry after a sweep in which exactly the clients in `alive`
/// answered the probe: every topic keeps its live clients, and a topic that
/// keeps none has no entry.
pub open spec fn swept(r: Map<i32, Seq<u64>>, alive: Set<u64>) -> Map<i32, Seq<u64>> {
    Map::new(
        |topic: i32| r.contains_key(topic) && kept(r[topic], alive).len() > 0,
        |topic: i32| kept(r[topic], alive),
    )
}

/// The clients that an event published on `topic` is sent to.
pub open spec fn recipients(r: Map<i32, Seq<u64>>, topic: i32) -> Seq<u64> {
    if r.contains_key(topic) {
        r[topic]
    } else {
        Seq::empty()
    }
}

/// The registry after `client` was registered on `topic`: it comes last
/// among the topic's clients, and opens the topic if it had no entry.
pub open spec fn subscribed(r: Map<i32, Seq<u64>>, topic: i32, client: u64) -> Map<i32, Seq<u64>> {
    r.insert(topic, recipients(r, topic).push(client))
}

/// Whether `client` watches some topic.
pub open spec fn registered(r: Map<i32, Seq<u64>>, client: u64) -> bool {
    exists|topic: i32| #[trigger] r.contains_key(topic) && r[topic].contains(client)
}

/// What holds of every registry that the hub can reach, `issued` being the
/// number of clients registered so far: no topic is empty, no client occurs
/// twice, be it in one topic or in two, and every client's number is below
/// `issued`.
pub open spec fn well_formed(r: Map<i32, Seq<u64>>, issued: u64) -> bool {
    &&& r.dom().finite()
    &&& forall|topic: i32| #[trigger] r.contains_key(topic) ==> r[topic].len() > 0
    &&& forall|topic: i32| #[trigger] r.contains_key(topic) ==> r[topic].no_duplicates()
    &&& forall|s: i32, t: i32, c: u64|
        r.contains_key(s) && r.contains_key(t) && #[trigger] r[s].contains(c)
            && #[trigger] r[t].contains(c) ==> s == t
    &&& forall|topic: i32, i: int|
        r.contains_key(topic) && 0 <= i < r[topic].len() ==> #[trigger] r[topic][i] < issued
}

/// What `kept` keeps: live clients of the old sequence, and every one of them.
pub proof fn lemma_kept_members(clients: Seq<u64>, alive: Set<u64>)
    ensures
        kept(clients, alive).len() <= clients.len(),
        forall|c: u64|
            #[trigger] kept(clients, alive).contains(c) <==> clients.contains(c) && alive.contains(
                c,
            ),
    decreases clients.len(),
{
    if clients.len() > 0 {
        let front = clients.drop_last();
        let last = clients.last();
        lemma_kept_members(front, alive);
        let k = kept(clients, alive);
        let kf = kept(front, alive);
        assert forall|c: u64| #[trigger] k.contains(c) <==> clients.contains(c) && alive.contains(
            c,
        ) by {
            if k.contains(c) {
                let i = choose|i: int| 0 <= i < k.len() && k[i] == c;
                if alive.contains(last) && i == kf.len() {
                    assert(clients[clients.len() - 1] == c);
                } else {
                    assert(kf[i] == c);
                    assert(kf.contains(c));
                    let j = choose|j: int| 0 <= j < front.len() && front[j] == c;
                    assert(clients[j] == c);
                }
            }
            if clients.contains(c) && alive.contains(c) {
                let j = choose|j: int| 0 <= j < clients.len() && clients[j] == c;
                if j == clients.len() - 1 {
                    assert(k[kf.len() as int] == c);
                } else {
                    assert(front[j] == c);
                    assert(kf.contains(c));
                    let i = choose|i: int| 0 <= i < kf.len() && kf[i] == c;
                    assert(k[i] == c);
                }
            }
        }
    }
}

/// A sequence whose clients all answered is kept as it is.
pub proof fn lemma_kept_all_alive(clients: Seq<u64>, alive: Set<u64>)
    requires
        forall|i: int| 0 <= i < clients.len() ==> alive.contains(#[trigger] clients[i]),
    ensures
        kept(clients, alive) == clients,
    decreases clients.len(),
{
    if clients.len() > 0 {
        let front = clients.drop_last();
        assert forall|i: int| 0 <= i < front.len() implies alive.contains(#[trigger] front[i]) by {
            assert(front[i] == clients[i]);
        }
        lemma_kept_all_alive(front, alive);
        assert(alive.contains(clients[clients.len() - 1]));
        assert(front.push(clients.last()) =~= clients);
    } else {
        assert(clients =~= Seq::empty());
    }
}

/// A sequence none of whose clients answered is emptied.
pub proof fn lemma_kept_none_alive(clients: Seq<u64>, alive: Set<u64>)
    requires
        forall|i: int| 0 <= i < clients.len() ==> !alive.contains(#[trigger] clients[i]),
    ensures
        kept(clients, alive).len() == 0,
    decreases clients.len(),
{
    if clients.len() > 0 {
        let front = clients.drop_last();
        assert forall|i: int| 0 <= i < front.len() implies !alive.contains(#[trigger] front[i]) by {
            assert(front[i] == clients[i]);
        }
        lemma_kept_none_alive(front, alive);
        assert(!alive.contains(clients[clients.len() - 1]));
    }
}

/// Keeping the live clients of a sequence without repetition leaves a
/// sequence without repetition.
pub proof fn lemma_kept_no_duplicates(clients: Seq<u64>, alive: Set<u64>)
    requires
        clients.no_duplicates(),
    ensures
        kept(clients, alive).no_duplicates(),
    decreases clients.len(),
{
    if clients.len() > 0 {
        let front = clients.drop_last();
        let last = clients.last();
        assert forall|i: int, j: int| 0 <= i < front.len() && 0 <= j < front.len() && i != j implies front[i] != front[j] by {
            assert(front[i] == clients[i] && front[j] == clients[j]);
        }
        lemma_kept_no_duplicates(front, alive);
        lemma_kept_members(front, alive);
        let kf = kept(front, alive);
        if alive.contains(last) {
            if kf.contains(last) {
                let j = choose|j: int| 0 <= j < front.len() && front[j] == last;
                assert(clients[j] == clients[clients.len() - 1]);
            }
            let k = kf.push(last);
            assert forall|i: int, j: int| 0 <= i < k.len() && 0 <= j < k.len() && i != j implies k[i] != k[j] by {
                if i < kf.len() {
                    assert(kf.contains(k[i]));
                }
                if j < kf.len() {
                    assert(kf.contains(k[j]));
                }
            }
        }
    }
}

/// Keeping the live clients once more changes nothing.
pub proof fn lemma_kept_idempotent(clients: Seq<u64>, alive: Set<u64>)
    ensures
        kept(kept(clients, alive), alive) == kept(clients, alive),
{
    let k = kept(clients, alive);
    lemma_kept_members(clients, alive);
    assert forall|i: int| 0 <= i < k.len() implies alive.contains(#[trigger] k[i]) by {
        assert(k.contains(k[i]));
    }
    lemma_kept_all_alive(k, alive);
}

/// A number that was not issued yet belongs to no client: so a client that a
/// sweep dropped never comes back under its old number.
pub proof fn lemma_unissued_is_unregistered(r: Map<i32, Seq<u64>>, issued: u64, client: u64)
    requires
        well_formed(r, issued),
        client >= issued,
    ensures
        !registered(r, client),
{
    if registered(r, client) {
        let t = choose|t: i32| #[trigger] r.contains_key(t) && r[t].contains(client);
        let i = choose|i: int| 0 <= i < r[t].len() && r[t][i] == client;
        assert(r[t][i] < issued);
    }
}

/// A client that was dropped stays dropped: whoever watches no topic under a
/// number that was issued watches none after the next registration, and
/// none after the next sweep.
pub proof fn lemma_no_resurrection(
    r: Map<i32, Seq<u64>>,
    issued: u64,
    client: u64,
    topic: i32,
    alive: Set<u64>,
)
    requires
        well_formed(r, issued),
        client < issued,
        !registered(r, client),
    ensures
        !registered(subscribed(r, topic, issued), client),
        !registered(swept(r, alive), client),
{
    lemma_subscribed_registers_one(r, topic, issued, client);
    lemma_sweep_reaps_the_silent(r, alive, client);
}

/// After a registration the clients that watch a map are those that did so
/// before and the new one, each on its old topic, the new one on `topic`.
pub proof fn lemma_subscribed_registers_one(
    r: Map<i32, Seq<u64>>,
    topic: i32,
    new_client: u64,
    client: u64,
)
    ensures
        registered(subscribed(r, topic, new_client), client) <==> registered(r, client) || client
            == new_client,
        forall|t: i32|
            recipients(subscribed(r, topic, new_client), t).contains(client) <==> #[trigger] recipients(
                r,
                t,
            ).contains(client) || (t == topic && client == new_client),
{
    let after = subscribed(r, topic, new_client);
    let grown = recipients(r, topic).push(new_client);
    assert(after[topic] == grown);
    assert(grown.last() == new_client);
    assert forall|t: i32|
        recipients(after, t).contains(client) <==> #[trigger] recipients(r, t).contains(client) || (t
            == topic && client == new_client) by {
        if t == topic {
            if grown.contains(client) {
                let i = choose|i: int| 0 <= i < grown.len() && grown[i] == client;
                if i < grown.len() - 1 {
                    assert(recipients(r, t)[i] == client);
                }
            }
            if recipients(r, t).contains(client) {
                let i = choose|i: int| 0 <= i < recipients(r, t).len() && recipients(r, t)[i] == client;
                assert(grown[i] == client);
            }
            if client == new_client {
                assert(grown[grown.len() - 1] == client);
            }
        }
    }
    if registered(after, client) {
        let t = choose|t: i32| #[trigger] after.contains_key(t) && after[t].contains(client);
        assert(recipients(after, t).contains(client));
        assert(recipients(r, t).contains(client) || (t == topic && client == new_client));
        if client != new_client {
            assert(r.contains_key(t) && r[t].contains(client));
        }
    }
    if registered(r, client) {
        let t = choose|t: i32| #[trigger] r.contains_key(t) && r[t].contains(client);
        assert(recipients(r, t).contains(client));
        assert(recipients(after, t).contains(client));
        assert(after.contains_key(t) && after[t].contains(client));
    }
    if client == new_client {
        assert(recipients(after, topic).contains(client));
        assert(after.contains_key(topic) && after[topic].contains(client));
    }
}

/// Registering the client with the next number leaves a registry as the hub
/// can reach it.
pub proof fn lemma_subscribed_well_formed(r: Map<i32, Seq<u64>>, issued: u64, topic: i32)
    requires
        well_formed(r, issued),
        issued < u64::MAX,
    ensures
        well_formed(subscribed(r, topic, issued), (issued + 1) as u64),
{
    let after = subscribed(r, topic, issued);
    let grown = recipients(r, topic).push(issued);
    assert(after.dom() =~= r.dom().insert(topic));
    assert forall|t: i32, c: u64| after.contains_key(t) && #[trigger] after[t].contains(c) implies (c
        == issued && t == topic) || (r.contains_key(t) && r[t].contains(c) && c < issued) by {
        lemma_subscribed_registers_one(r, topic, issued, c);
        assert(recipients(after, t).contains(c));
        assert(recipients(r, t).contains(c) || (t == topic && c == issued));
        if recipients(r, t).contains(c) {
            let i = choose|i: int| 0 <= i < r[t].len() && r[t][i] == c;
            assert(r[t][i] < issued);
        }
    }
    assert forall|t: i32| #[trigger] after.contains_key(t) implies after[t].no_duplicates() by {
        if t == topic {
            assert forall|i: int, j: int|
                0 <= i < grown.len() && 0 <= j < grown.len() && i != j implies grown[i] != grown[j] by {
                if i < grown.len() - 1 {
                    assert(r[t][i] < issued);
                }
                if j < grown.len() - 1 {
                    assert(r[t][j] < issued);
                }
            }
        } else {
            assert(r.contains_key(t));
        }
    }
    assert forall|s: i32, t: i32, c: u64|
        after.contains_key(s) && after.contains_key(t) && #[trigger] after[s].contains(c)
            && #[trigger] after[t].contains(c) implies s == t by {
        if c != issued {
            assert(r.contains_key(s) && r[s].contains(c));
            assert(r.contains_key(t) && r[t].contains(c));
        }
    }
    assert forall|t: i32, i: int|
        after.contains_key(t) && 0 <= i < after[t].len() implies #[trigger] after[t][i] < issued
        + 1 by {
        assert(after[t].contains(after[t][i]));
    }
}

/// A sweep leaves a registry as the hub can reach it.
pub proof fn lemma_swept_well_formed(r: Map<i32, Seq<u64>>, alive: Set<u64>, issued: u64)
    requires
        well_formed(r, issued),
    ensures
        well_formed(swept(r, alive), issued),
{
    let after = swept(r, alive);
    assert(after.dom().subset_of(r.dom()));
    vstd::set_lib::lemma_len_subset(after.dom(), r.dom());
    assert forall|topic: i32| #[trigger] after.contains_key(topic) implies after[topic].no_duplicates() by {
        lemma_kept_no_duplicates(r[topic], alive);
    }
    assert forall|s: i32, t: i32, c: u64|
        after.contains_key(s) && after.contains_key(t) && #[trigger] after[s].contains(c)
            && #[trigger] after[t].contains(c) implies s == t by {
        lemma_kept_members(r[s], alive);
        lemma_kept_members(r[t], alive);
    }
    assert forall|topic: i32, i: int|
        after.contains_key(topic) && 0 <= i < after[topic].len() implies #[trigger] after[topic][i]
        < issued by {
        lemma_kept_members(r[topic], alive);
        let c = after[topic][i];
        assert(after[topic].contains(c));
        let j = choose|j: int| 0 <= j < r[topic].len() && r[topic][j] == c;
        assert(r[topic][j] < issued);
    }
}

/// Two clients that a sweep keeps in a topic stand in the order in which they
/// stood before.
pub proof fn lemma_kept_order(clients: Seq<u64>, alive: Set<u64>, i: int, j: int)
    requires
        0 <= i < j < kept(clients, alive).len(),
    ensures
        exists|p: int, q: int|
            0 <= p < q < clients.len() && #[trigger] clients[p] == kept(clients, alive)[i]
                && #[trigger] clients[q] == kept(clients, alive)[j],
    decreases clients.len(),
{
    let front = clients.drop_last();
    let kf = kept(front, alive);
    if alive.contains(clients.last()) && j == kf.len() {
        lemma_kept_members(front, alive);
        assert(kf.contains(kf[i]));
        let p = choose|p: int| 0 <= p < front.len() && front[p] == kf[i];
        let q = clients.len() - 1;
        assert(clients[p] == kept(clients, alive)[i] && clients[q] == kept(clients, alive)[j]);
    } else {
        lemma_kept_order(front, alive, i, j);
        let (p, q) = choose|p: int, q: int|
            0 <= p < q < front.len() && #[trigger] front[p] == kf[i] && #[trigger] front[q] == kf[j];
        assert(clients[p] == kept(clients, alive)[i] && clients[q] == kept(clients, alive)[j]);
    }
}

/// After a sweep a client watches a topic if and only if it watched that
/// topic before and answered the probe. So a client that failed its probe
/// watches no topic, and one that answered is where it was.
pub proof fn lemma_sweep_reaps_the_silent(r: Map<i32, Seq<u64>>, alive: Set<u64>, client: u64)
    ensures
        forall|topic: i32|
            recipients(swept(r, alive), topic).contains(client) <==> #[trigger] recipients(
                r,
                topic,
            ).contains(client) && alive.contains(client),
        registered(swept(r, alive), client) <==> registered(r, client) && alive.contains(client),
{
    let after = swept(r, alive);
    assert forall|topic: i32|
        recipients(after, topic).contains(client) <==> #[trigger] recipients(r, topic).contains(
            client,
        ) && alive.contains(client) by {
        if r.contains_key(topic) {
            lemma_kept_members(r[topic], alive);
            if r[topic].contains(client) && alive.contains(client) {
                assert(kept(r[topic], alive).contains(client));
                assert(after.contains_key(topic));
            }
        }
    }
    if registered(after, client) {
        let topic = choose|topic: i32| #[trigger] after.contains_key(topic) && after[topic].contains(client);
        assert(recipients(after, topic).contains(client));
        assert(recipients(r, topic).contains(client));
        assert(r.contains_key(topic) && r[topic].contains(client));
    }
    if registered(r, client) && alive.contains(client) {
        let topic = choose|topic: i32| #[trigger] r.contains_key(topic) && r[topic].contains(client);
        assert(recipients(r, topic).contains(client));
        assert(recipients(after, topic).contains(client));
        assert(after.contains_key(topic) && after[topic].contains(client));
    }
}

/// A topic none of whose clients answered the probe has no entry after the
/// sweep, and the registry is the one that the sweep would have left had the
/// topic never been there: so the next client to come to it finds what the
/// first client of a new topic finds, and is alone on it.
pub proof fn lemma_dead_topic_is_forgotten(
    r: Map<i32, Seq<u64>>,
    alive: Set<u64>,
    topic: i32,
    client: u64,
)
    requires
        r.contains_key(topic),
        forall|i: int| 0 <= i < r[topic].len() ==> !alive.contains(#[trigger] r[topic][i]),
    ensures
        !swept(r, alive).contains_key(topic),
        swept(r, alive) == swept(r.remove(topic), alive),
        recipients(swept(r, alive), topic) == Seq::<u64>::empty(),
        subscribed(swept(r, alive), topic, client)[topic] == seq![client],
        subscribed(swept(r, alive), topic, client) == subscribed(
            swept(r.remove(topic), alive),
            topic,
            client,
        ),
{
    lemma_kept_none_alive(r[topic], alive);
    assert(swept(r, alive) =~= swept(r.remove(topic), alive));
    assert(Seq::<u64>::empty().push(client) =~= seq![client]);
}

/// A second sweep in which the same clients answer changes nothing.
pub proof fn lemma_sweep_idempotent(r: Map<i32, Seq<u64>>, alive: Set<u64>)
    ensures
        swept(swept(r, alive), alive) == swept(r, alive),
{
    let once = swept(r, alive);
    assert forall|topic: i32| #[trigger] r.contains_key(topic) implies kept(kept(r[topic], alive), alive)
        == kept(r[topic], alive) by {
        lemma_kept_idempotent(r[topic], alive);
    }
    assert(swept(once, alive) =~= once);
}

/// A sweep in which every client answers changes nothing.
pub proof fn lemma_sweep_of_the_living(r: Map<i32, Seq<u64>>, alive: Set<u64>, issued: u64)
    requires
        well_formed(r, issued),
        forall|client: u64| registered(r, client) ==> alive.contains(client),
    ensures
        swept(r, alive) == r,
{
    assert forall|topic: i32| #[trigger] r.contains_key(topic) implies kept(r[topic], alive) == r[topic] by {
        assert forall|i: int| 0 <= i < r[topic].len() implies alive.contains(#[trigger] r[topic][i]) by {
            assert(r[topic].contains(r[topic][i]));
            assert(registered(r, r[topic][i]));
        }
        lemma_kept_all_alive(r[topic], alive);
    }
    assert(swept(r, alive) =~= r);
}

} // verus!
