//! The broadcast channel of a room.
//!
//! Delivery is tokio's: every live subscriber normally sees every published
//! event in publish order, and one that falls behind by more than the
//! channel's capacity loses the oldest events and is told how many. What this
//! module adds is a record, kept for proofs only, of what each publishing
//! handle has handed to the channel.

use vstd::prelude::*;
use crate::event::{Event, EventView};

verus! {

/// Capacity of every room's broadcast channel.
pub const BROADCAST_CHANNEL_CAPACITY: usize = 100;

/// Largest capacity a channel may be opened with.
pub const MAX_CHANNEL_CAPACITY: usize = 0xFFFF;

/// `tokio::sync::broadcast::Sender`, the sending half of a broadcast channel.
/// Nothing of its inside is known here.
#[verifier::external_type_specification]
#[verifier::external_body]
#[verifier::reject_recursive_types(T)]
pub struct ExBroadcastSender<T>(tokio::sync::broadcast::Sender<T>);

/// `tokio::sync::broadcast::Receiver`, one subscription to a broadcast
/// channel. Nothing of its inside is known here.
#[verifier::external_type_specification]
#[verifier::external_body]
#[verifier::reject_recursive_types(T)]
pub struct ExBroadcastReceiver<T>(tokio::sync::broadcast::Receiver<T>);

/// `tokio::sync::broadcast::channel`, keeping the sending half only. The call
/// panics on a capacity of zero or above `usize::MAX / 2` and allocates one
/// slot per unit of capacity, hence the bound. Nothing is claimed of the
/// sender that comes back.
#[verifier::external_body]
fn channel_open(capacity: usize) -> (tx: tokio::sync::broadcast::Sender<Event>)
    requires
        0 < capacity <= MAX_CHANNEL_CAPACITY,
{
    tokio::sync::broadcast::channel(capacity).0
}

/// `tokio::sync::broadcast::Sender::subscribe`: a receiver for what is sent
/// from now on. The call panics only once `usize::MAX / 4` receivers are alive
/// at the same time. Nothing is claimed of the receiver that comes back.
#[verifier::external_body]
fn channel_subscribe(tx: &tokio::sync::broadcast::Sender<Event>) -> (rx:
    tokio::sync::broadcast::Receiver<Event>) {
    tx.subscribe()
}

/// `Clone::clone` of `tokio::sync::broadcast::Sender`: another sender for the
/// same channel. Nothing is claimed of it.
#[verifier::external_body]
fn channel_sender(tx: &tokio::sync::broadcast::Sender<Event>) -> (other:
    tokio::sync::broadcast::Sender<Event>) {
    tx.clone()
}

/// `tokio::sync::broadcast::Sender::send`. With at least one live receiver the
/// call stores the event and returns how many receivers there are; with none
/// it hands the event back.
#[verifier::external_body]
fn channel_send(tx: &tokio::sync::broadcast::Sender<Event>, event: Event) -> (outcome: Result<
    usize,
    Event,
>)
    ensures
        outcome matches Ok(receivers) ==> receivers >= 1,
        outcome matches Err(returned) ==> returned == event,
{
    match tx.send(event) {
        Ok(receivers) => Ok(receivers),
        Err(tokio::sync::broadcast::error::SendError(returned)) => Err(returned),
    }
}

/// How many subscribers a send reached: none when the event came back.
pub fn receivers_reached(outcome: Result<usize, Event>) -> (receivers: usize)
    ensures
        receivers == match outcome {
            Ok(n) => n,
            Err(_) => 0,
        },
{
    match outcome {
        Ok(n) => n,
        Err(_) => 0,
    }
}

/// A publishing handle of one broadcast channel.
pub struct Publisher {
    tx: tokio::sync::broadcast::Sender<Event>,
    sent: Ghost<Seq<EventView>>,
}

impl Publisher {
    /// The events handed to the channel through this handle, oldest first.
    pub closed spec fn sent(&self) -> Seq<EventView> {
        self.sent@
    }

    /// Opens a channel that retains up to `capacity` events for subscribers
    /// that lag behind.
    pub fn open(capacity: usize) -> (publisher: Self)
        requires
            0 < capacity <= MAX_CHANNEL_CAPACITY,
        ensures
            publisher.sent() == Seq::<EventView>::empty(),
    {
        Publisher { tx: channel_open(capacity), sent: Ghost(Seq::empty()) }
    }

    /// A new subscription: it yields what is published from now on.
    pub fn subscribe(&self) -> (subscription: tokio::sync::broadcast::Receiver<Event>) {
        channel_subscribe(&self.tx)
    }

    /// Another publishing handle of the same channel, which has published
    /// nothing yet.
    pub fn handle(&self) -> (other: Self)
        ensures
            other.sent() == Seq::<EventView>::empty(),
    {
        Publisher { tx: channel_sender(&self.tx), sent: Ghost(Seq::empty()) }
    }

    /// Hands `event` to the channel, whether or not anybody is subscribed, and
    /// returns the number of subscribers at that moment.
    pub fn publish(&mut self, event: Event) -> (receivers: usize)
        ensures
            final(self).sent() == old(self).sent().push(event@),
    {
        let ghost published = event@;
        let outcome = channel_send(&self.tx, event);
        self.sent = Ghost(self.sent@.push(published));
        receivers_reached(outcome)
    }
}

} // verus!
