//! The channel between the hub and one client, as `actix_web_lab::sse` makes
//! it. The hub keeps the sending end and never looks into it.
use crate::event::CHANNEL_CAPACITY;
use vstd::prelude::*;

verus! {

/// `actix_web_lab::sse::Sender`, the sending end of a client's channel.
#[verifier::external_type_specification]
#[verifier::external_body]
pub struct ExSender(actix_web_lab::sse::Sender);

/// `actix_web_lab::sse::ChannelStream`, the receiving end of a client's
/// channel.
#[verifier::external_type_specification]
#[verifier::external_body]
pub struct ExChannelStream(actix_web_lab::sse::ChannelStream);

/// `actix_web_lab::sse::Sse`, the response body that streams what a
/// receiving end yields.
#[verifier::external_type_specification]
#[verifier::external_body]
#[verifier::reject_recursive_types(S)]
pub struct ExSse<S>(actix_web_lab::sse::Sse<S>);

/// The number of unsent messages that the channel of `sender` was made to
/// hold.
pub uninterp spec fn capacity(sender: actix_web_lab::sse::Sender) -> nat;

/// `actix_web_lab::sse::channel`: a new channel that holds up to `buffer`
/// unsent messages, as its sending end and the response body that streams
/// from its receiving end. Not proved: that the channel is made with that
/// capacity. The bounds are those outside which the call panics.
#[verifier::external_body]
fn channel(buffer: usize) -> (ends: (
    actix_web_lab::sse::Sender,
    actix_web_lab::sse::Sse<actix_web_lab::sse::ChannelStream>,
))
    requires
        0 < buffer <= usize::MAX / 8,
    ensures
        capacity(ends.0) == buffer,
{
    actix_web_lab::sse::channel(buffer)
}

/// A channel for a new client, with room for [`CHANNEL_CAPACITY`] unsent
/// messages.
pub fn open_channel() -> (ends: (
    actix_web_lab::sse::Sender,
    actix_web_lab::sse::Sse<actix_web_lab::sse::ChannelStream>,
))
    ensures
        capacity(ends.0) == CHANNEL_CAPACITY,
{
    channel(CHANNEL_CAPACITY)
}

} // verus!
