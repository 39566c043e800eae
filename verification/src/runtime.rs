use vstd::prelude::*;

use tokio::sync::broadcast::{Receiver, Sender};

use crate::hub_message::HubMessage;

verus! {

// The hub fans messages out over tokio broadcast channels and names each
// local subscriber by a fresh UUID.  The channel handles are opaque values
// here: the registries carry them, the runtime outside the library awaits
// on them.  Each item below trusts exactly one function of an outside crate.

#[verifier::external_type_specification]
#[verifier::external_body]
#[verifier::reject_recursive_types(T)]
pub struct ExSender<T>(Sender<T>);

#[verifier::external_type_specification]
#[verifier::external_body]
#[verifier::reject_recursive_types(T)]
pub struct ExReceiver<T>(Receiver<T>);

/// Relies on `tokio::sync::broadcast::channel`: returns a connected
/// sender/receiver pair for a fresh channel of the given capacity.  It
/// panics on capacity zero, so that is kept out.
#[verifier::external_body]
pub(crate) fn broadcast_channel(capacity: usize) -> (Sender<HubMessage>, Receiver<HubMessage>)
    requires
        1 <= capacity <= 0x4000_0000,
{
    tokio::sync::broadcast::channel(capacity)
}

/// Relies on `tokio::sync::broadcast::Sender::send`: queues the message for
/// every receiver subscribed at that moment.  Whether any receiver existed
/// depends on the runtime's state, so only the success flag comes back.
#[verifier::external_body]
pub(crate) fn broadcast_send(sender: &Sender<HubMessage>, message: HubMessage) -> bool {
    sender.send(message).is_ok()
}

/// Relies on `tokio::sync::broadcast::Sender::subscribe`: a new receiver on
/// this channel, seeing the messages sent after this call.
#[verifier::external_body]
pub(crate) fn broadcast_subscribe(sender: &Sender<HubMessage>) -> Receiver<HubMessage> {
    sender.subscribe()
}

/// Relies on `tokio::sync::broadcast::Receiver::resubscribe`: a new receiver
/// on the same channel, starting at the messages sent after this call.
#[verifier::external_body]
pub(crate) fn broadcast_resubscribe(receiver: &Receiver<HubMessage>) -> Receiver<HubMessage> {
    receiver.resubscribe()
}

/// Relies on `tokio::sync::broadcast::Sender::clone`: another handle sending
/// into the same channel.
#[verifier::external_body]
pub(crate) fn broadcast_sender_clone(sender: &Sender<HubMessage>) -> Sender<HubMessage> {
    sender.clone()
}

/// Relies on `uuid::Uuid::new_v4`: a freshly drawn random 128-bit
/// identifier.  Randomness promises nothing provable, so no clause does.
#[verifier::external_body]
pub(crate) fn new_subscriber_id() -> u128 {
    uuid::Uuid::new_v4().as_u128()
}

} // verus!
