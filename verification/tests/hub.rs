use actix_web::body::MessageBody;
use actix_web_lab::sse::{self, ChannelStream, Sse, TrySendError};
use broadcast_hub::broadcaster::{BroadcastError, Broadcaster, SetupError};
use broadcast_hub::channel::open_channel;
use broadcast_hub::event::{handshake, ping, Event, CHANNEL_CAPACITY, PING_INTERVAL_SECS, SEND_CONCURRENCY};
use futures_util::task::noop_waker;
use futures_util::FutureExt;
use serde::ser::{Error, SerializeMap};
use serde::{Serialize, Serializer};
use std::collections::HashSet;
use std::pin::Pin;
use std::task::{Context, Poll};

/// The receiving end of a client's channel, ready to be polled.
type Stream = Pin<Box<Sse<ChannelStream>>>;

fn to_sse(event: Event) -> sse::Event {
    match event {
        Event::Data(text) => sse::Event::Data(sse::Data::new(text)),
        Event::Comment(text) => sse::Event::Comment(text.into()),
    }
}

/// Sends on a channel that has room or is closed, and says whether it took
/// the frame.
fn send(sender: &sse::Sender, event: sse::Event) -> bool {
    let sent = sender.send(event).now_or_never().expect("the channel is full");
    sent.is_ok()
}

/// The hub, driven as a server drives it.
struct Server {
    hub: Broadcaster,
    attempts: usize,
}

fn server() -> Server {
    Server { hub: Broadcaster::new(), attempts: 0 }
}

fn subscribe(server: &mut Server, map_id: i32) -> (u64, Stream) {
    let (sender, stream) = open_channel();
    let sent = send(&sender, to_sse(handshake()));
    assert!(server.hub.clients_issued() < u64::MAX);
    let id = server.hub.new_client(map_id, sender, sent).expect("the handshake was sent");
    (id, Box::pin(stream))
}

fn publish<T: Serialize>(server: &mut Server, map_id: i32, msg: T) -> Result<(), String> {
    match server.hub.broadcast(map_id, sse::Data::new_json(msg)) {
        Ok(delivery) => {
            for id in delivery.recipients.iter() {
                let sender = server.hub.sender(*id).expect("a recipient has a channel");
                server.attempts += 1;
                let _ = send(sender, delivery.event.clone().into());
            }
            Ok(())
        }
        Err(BroadcastError::Serialization(why)) => Err(why.to_string()),
    }
}

fn sweep(server: &mut Server) {
    let mut alive = HashSet::new();
    for id in server.hub.probe_targets() {
        let sender = server.hub.sender(id).expect("a target has a channel");
        if send(sender, to_sse(ping())) {
            alive.insert(id);
        }
    }
    server.hub.remove_stale_clients(&alive);
}

/// The frames that wait on a stream, as they go over the wire.
fn drain(stream: &mut Stream) -> Vec<String> {
    let waker = noop_waker();
    let mut cx = Context::from_waker(&waker);
    let mut frames = Vec::new();
    while let Poll::Ready(Some(Ok(bytes))) = stream.as_mut().poll_next(&mut cx) {
        frames.push(String::from_utf8(bytes.to_vec()).expect("a frame is text"));
    }
    frames
}

/// The event that tells of a deleted planting.
struct DeletePlanting {
    id: &'static str,
}

struct DeletePlantingPayload {
    id: &'static str,
}

impl Serialize for DeletePlantingPayload {
    fn serialize<S: Serializer>(&self, serializer: S) -> Result<S::Ok, S::Error> {
        let mut map = serializer.serialize_map(Some(1))?;
        map.serialize_entry("id", self.id)?;
        map.end()
    }
}

impl Serialize for DeletePlanting {
    fn serialize<S: Serializer>(&self, serializer: S) -> Result<S::Ok, S::Error> {
        let mut map = serializer.serialize_map(Some(2))?;
        map.serialize_entry("type", "DeletePlanting")?;
        map.serialize_entry("payload", &DeletePlantingPayload { id: self.id })?;
        map.end()
    }
}

/// A payload that has no wire form.
struct Unserializable;

impl Serialize for Unserializable {
    fn serialize<S: Serializer>(&self, _serializer: S) -> Result<S::Ok, S::Error> {
        Err(S::Error::custom("no wire form"))
    }
}

fn data(text: &str) -> String {
    format!("data: {}\n\n", text)
}

fn delete_planting(id: &str) -> String {
    data(&format!("{{\"type\":\"DeletePlanting\",\"payload\":{{\"id\":\"{}\"}}}}", id))
}

fn connected() -> String {
    "data: connected\n\n".to_owned()
}

fn pinged() -> String {
    ": ping\n\n".to_owned()
}

fn register(hub: &mut Broadcaster, map_id: i32) -> u64 {
    let (sender, _stream) = open_channel();
    hub.new_client(map_id, sender, true).expect("the handshake was sent")
}

#[test]
fn limits_are_the_fixed_ones() {
    assert_eq!(PING_INTERVAL_SECS, 600);
    assert_eq!(CHANNEL_CAPACITY, 10);
    assert_eq!(SEND_CONCURRENCY, 15);
}

#[test]
fn handshake_is_a_connected_data_frame() {
    match handshake() {
        Event::Data(text) => assert_eq!(text, "connected"),
        Event::Comment(_) => panic!("the handshake is no comment"),
    }
}

#[test]
fn ping_is_a_comment_frame() {
    match ping() {
        Event::Comment(text) => assert_eq!(text, "ping"),
        Event::Data(_) => panic!("the ping carries no data"),
    }
}

#[test]
fn new_channel_holds_ten_unsent_messages() {
    let (sender, stream) = open_channel();
    let mut stream: Stream = Box::pin(stream);
    for _ in 0..10 {
        assert!(sender.try_send(to_sse(ping())).is_ok());
    }
    assert!(matches!(sender.try_send(to_sse(ping())), Err(TrySendError::Full(_))));
    assert_eq!(drain(&mut stream).len(), 10);
    assert!(sender.try_send(to_sse(ping())).is_ok());
}

#[test]
fn new_hub_is_empty() {
    let hub = Broadcaster::new();
    assert_eq!(hub.map_count(), 0);
    assert_eq!(hub.clients_issued(), 0);
    assert!(!hub.has_map(5));
    assert_eq!(hub.client_count(5), 0);
    assert!(hub.clients(5).is_empty());
    assert!(hub.probe_targets().is_empty());
    assert!(hub.sender(0).is_none());
    let other = Broadcaster::default();
    assert_eq!(other.map_count(), 0);
    assert_eq!(other.clients_issued(), 0);
}

#[test]
fn clients_get_consecutive_numbers_in_order_of_arrival() {
    let mut hub = Broadcaster::new();
    assert_eq!(hub.new_client(5, open_channel().0, true), Ok(0));
    assert_eq!(hub.new_client(7, open_channel().0, true), Ok(1));
    assert_eq!(hub.new_client(5, open_channel().0, true), Ok(2));
    assert_eq!(hub.clients(5), vec![0, 2]);
    assert_eq!(hub.clients(7), vec![1]);
    assert_eq!(hub.client_count(5), 2);
    assert_eq!(hub.map_count(), 2);
    assert_eq!(hub.clients_issued(), 3);
    assert!(hub.sender(0).is_some() && hub.sender(1).is_some() && hub.sender(2).is_some());
    assert!(hub.sender(3).is_none());
}

#[test]
fn hub_keeps_the_channel_that_it_was_given() {
    let mut hub = Broadcaster::new();
    let (first, first_stream) = open_channel();
    let (second, second_stream) = open_channel();
    let mut first_stream: Stream = Box::pin(first_stream);
    let mut second_stream: Stream = Box::pin(second_stream);
    let a = hub.new_client(5, first, true).unwrap();
    let b = hub.new_client(5, second, true).unwrap();
    assert!(send(hub.sender(b).unwrap(), to_sse(ping())));
    assert!(drain(&mut first_stream).is_empty());
    assert_eq!(drain(&mut second_stream), vec![pinged()]);
    assert!(send(hub.sender(a).unwrap(), to_sse(handshake())));
    assert_eq!(drain(&mut first_stream), vec![connected()]);
    assert!(drain(&mut second_stream).is_empty());
}

#[test]
fn failed_handshake_registers_nobody() {
    let mut hub = Broadcaster::new();
    assert_eq!(hub.new_client(5, open_channel().0, false), Err(SetupError::HandshakeNotSent));
    assert!(!hub.has_map(5));
    assert_eq!(hub.map_count(), 0);
    assert_eq!(hub.clients_issued(), 0);
    assert!(hub.sender(0).is_none());
    assert_eq!(hub.new_client(5, open_channel().0, true), Ok(0));
    assert_eq!(hub.new_client(5, open_channel().0, false), Err(SetupError::HandshakeNotSent));
    assert_eq!(hub.clients(5), vec![0]);
    assert_eq!(hub.clients_issued(), 1);
}

#[test]
fn closed_channel_fails_the_handshake() {
    let mut server = server();
    let (sender, stream) = open_channel();
    drop(stream);
    let sent = send(&sender, to_sse(handshake()));
    assert!(!sent);
    assert_eq!(server.hub.new_client(5, sender, sent), Err(SetupError::HandshakeNotSent));
    assert!(!server.hub.has_map(5));
}

#[test]
fn broadcast_names_every_client_of_the_map_once() {
    let mut hub = Broadcaster::new();
    for _ in 0..20 {
        register(&mut hub, 5);
    }
    register(&mut hub, 6);
    let payload: Result<String, String> = Ok("{}".to_owned());
    let delivery = hub.broadcast(5, payload).expect("the payload has a wire form");
    assert_eq!(delivery.event, "{}");
    assert_eq!(delivery.recipients, (0..20).collect::<Vec<u64>>());
    assert_eq!(hub.client_count(5), 20);
}

#[test]
fn broadcast_to_an_unwatched_map_names_nobody() {
    let mut hub = Broadcaster::new();
    register(&mut hub, 5);
    let payload: Result<String, String> = Ok("{}".to_owned());
    let delivery = hub.broadcast(6, payload).expect("the payload has a wire form");
    assert!(delivery.recipients.is_empty());
    assert_eq!(delivery.event, "{}");
}

#[test]
fn broadcast_hands_back_a_serialization_failure() {
    let mut hub = Broadcaster::new();
    register(&mut hub, 5);
    let payload: Result<String, String> = Err("key must be a string".to_owned());
    match hub.broadcast(5, payload) {
        Err(BroadcastError::Serialization(why)) => assert_eq!(why, "key must be a string"),
        Ok(_) => panic!("a payload without a wire form was published"),
    }
}

#[test]
fn publish_succeeds_whatever_becomes_of_the_sends() {
    let mut server = server();
    let (_a, stream_a) = subscribe(&mut server, 5);
    let (_b, mut stream_b) = subscribe(&mut server, 5);
    let (_c, _stream_c) = subscribe(&mut server, 5);
    drop(stream_a);
    assert_eq!(publish(&mut server, 5, DeletePlanting { id: "x" }), Ok(()));
    assert_eq!(server.attempts, 3);
    assert_eq!(server.hub.client_count(5), 3);
    assert_eq!(publish(&mut server, 5, Unserializable), Err("no wire form".to_owned()));
    assert_eq!(server.attempts, 3);
    assert_eq!(drain(&mut stream_b), vec![connected(), delete_planting("x")]);
}

#[test]
fn handshake_comes_before_any_published_event() {
    let mut server = server();
    let (_a, mut stream) = subscribe(&mut server, 9);
    publish(&mut server, 9, 1).unwrap();
    publish(&mut server, 9, 2).unwrap();
    assert_eq!(drain(&mut stream), vec![connected(), data("1"), data("2")]);
}

#[test]
fn subscriber_gets_connected_then_the_event_and_nothing_from_other_maps() {
    let mut server = server();
    let (_a, mut stream) = subscribe(&mut server, 5);
    let id = "6f2c1c1e-2b3a-4d5e-8f90-123456789abc";
    publish(&mut server, 5, DeletePlanting { id }).unwrap();
    assert_eq!(drain(&mut stream), vec![connected(), delete_planting(id)]);
    assert_eq!(
        delete_planting(id),
        "data: {\"type\":\"DeletePlanting\",\"payload\":{\"id\":\"6f2c1c1e-2b3a-4d5e-8f90-123456789abc\"}}\n\n"
    );
    publish(&mut server, 6, DeletePlanting { id: "other" }).unwrap();
    assert!(drain(&mut stream).is_empty());
    assert_eq!(server.attempts, 1);
}

#[test]
fn sweep_drops_the_closed_client_and_keeps_the_open_one() {
    let mut server = server();
    let (a, stream_a) = subscribe(&mut server, 5);
    let (b, mut stream_b) = subscribe(&mut server, 5);
    drop(stream_a);
    sweep(&mut server);
    assert_eq!(server.hub.client_count(5), 1);
    assert_eq!(server.hub.clients(5), vec![b]);
    assert!(!server.hub.probe_targets().contains(&a));
    assert!(server.hub.sender(a).is_none());
    assert!(server.hub.sender(b).is_some());
    publish(&mut server, 5, DeletePlanting { id: "x" }).unwrap();
    assert_eq!(server.attempts, 1);
    assert_eq!(drain(&mut stream_b), vec![connected(), pinged(), delete_planting("x")]);
}

#[test]
fn sweeping_twice_leaves_the_dead_map_absent_both_times() {
    let mut server = server();
    let (a, stream_a) = subscribe(&mut server, 5);
    drop(stream_a);
    sweep(&mut server);
    assert!(!server.hub.has_map(5));
    assert_eq!(server.hub.map_count(), 0);
    sweep(&mut server);
    assert!(!server.hub.has_map(5));
    assert_eq!(server.hub.map_count(), 0);
    assert_eq!(server.hub.client_count(5), 0);
    assert!(server.hub.sender(a).is_none());
}

#[test]
fn sweep_keeps_the_order_of_the_living() {
    let mut hub = Broadcaster::new();
    for _ in 0..6 {
        register(&mut hub, 1);
    }
    register(&mut hub, 2);
    register(&mut hub, 3);
    let alive: HashSet<u64> = [5, 0, 3, 7, 99].into_iter().collect();
    hub.remove_stale_clients(&alive);
    assert_eq!(hub.clients(1), vec![0, 3, 5]);
    assert!(!hub.has_map(2));
    assert_eq!(hub.clients(3), vec![7]);
    assert_eq!(hub.map_count(), 2);
    assert_eq!(hub.clients_issued(), 8);
    let mut targets = hub.probe_targets();
    targets.sort();
    assert_eq!(targets, vec![0, 3, 5, 7]);
    for id in 0..8 {
        assert_eq!(hub.sender(id).is_some(), alive.contains(&id));
    }
}

#[test]
fn sweep_with_the_same_answers_is_idempotent() {
    let mut hub = Broadcaster::new();
    for map_id in [1, 1, 2, 3, 3, 3] {
        register(&mut hub, map_id);
    }
    let alive: HashSet<u64> = [1, 3, 5].into_iter().collect();
    hub.remove_stale_clients(&alive);
    let once = (hub.clients(1), hub.clients(2), hub.clients(3), hub.map_count());
    hub.remove_stale_clients(&alive);
    let twice = (hub.clients(1), hub.clients(2), hub.clients(3), hub.map_count());
    assert_eq!(once, twice);
    assert_eq!(once, (vec![1], vec![], vec![3, 5], 2));
}

#[test]
fn sweep_in_which_all_answer_changes_nothing() {
    let mut server = server();
    let (_a, _stream_a) = subscribe(&mut server, 4);
    let (_b, _stream_b) = subscribe(&mut server, 4);
    let (_c, _stream_c) = subscribe(&mut server, 8);
    sweep(&mut server);
    assert_eq!(server.hub.clients(4), vec![0, 1]);
    assert_eq!(server.hub.clients(8), vec![2]);
    assert_eq!(server.hub.map_count(), 2);
}

#[test]
fn swept_map_takes_a_new_client_like_a_new_map() {
    let mut swept = Broadcaster::new();
    register(&mut swept, 5);
    swept.remove_stale_clients(&HashSet::new());
    assert!(!swept.has_map(5));
    let id = register(&mut swept, 5);
    assert_eq!(id, 1);
    assert_eq!(swept.clients(5), vec![id]);

    let mut fresh = Broadcaster::new();
    let first = register(&mut fresh, 5);
    assert_eq!(fresh.clients(5), vec![first]);
    assert_eq!(fresh.client_count(5), swept.client_count(5));
    assert_eq!(fresh.map_count(), swept.map_count());
}

#[test]
fn reaped_client_is_not_brought_back() {
    let mut server = server();
    let (a, stream_a) = subscribe(&mut server, 5);
    drop(stream_a);
    sweep(&mut server);
    let (b, mut stream_b) = subscribe(&mut server, 5);
    assert_ne!(a, b);
    assert_eq!(server.hub.clients(5), vec![b]);
    sweep(&mut server);
    assert_eq!(server.hub.clients(5), vec![b]);
    assert_eq!(drain(&mut stream_b), vec![connected(), pinged()]);
}

#[test]
fn probe_targets_are_all_clients_each_once() {
    let mut hub = Broadcaster::new();
    for map_id in [3, 1, 3, 2, 1, 3] {
        register(&mut hub, map_id);
    }
    let mut targets = hub.probe_targets();
    targets.sort();
    assert_eq!(targets, vec![0, 1, 2, 3, 4, 5]);
}
