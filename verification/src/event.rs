//! The frames that the hub itself puts on a client's stream, and the fixed
//! limits of the hub.
use vstd::prelude::*;

verus! {

/// Seconds between two liveness sweeps.
pub const PING_INTERVAL_SECS: u64 = 600;

/// Number of pending messages that a new client's channel can hold.
pub const CHANNEL_CAPACITY: usize = 10;

/// Number of sends that may be in flight at once during one fan-out or sweep.
pub const SEND_CONCURRENCY: usize = 15;

/// A frame of the hub's own making.
#[derive(Debug)]
pub enum Event {
    /// A data frame with the given text.
    Data(String),
    /// A comment frame, which clients ignore.
    Comment(String),
}

impl Event {
    /// The text that the frame carries.
    pub open spec fn text(self) -> Seq<char> {
        match self {
            Event::Data(s) => s@,
            Event::Comment(s) => s@,
        }
    }
}

/// The frame that confirms a registration: the first one on every stream.
pub fn handshake() -> (e: Event)
    ensures
        e is Data,
        e.text() == "connected"@,
{
    Event::Data("connected".to_string())
}

/// The frame that probes whether a client still accepts sends.
pub fn ping() -> (e: Event)
    ensures
        e is Comment,
        e.text() == "ping"@,
{
    Event::Comment("ping".to_string())
}

} // verus!
