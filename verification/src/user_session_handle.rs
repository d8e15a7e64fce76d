//! The capability a session holds for each room it has joined.

use vstd::prelude::*;
use crate::channel::Publisher;
use crate::event::{Event, EventView, UserMessageBroadcastEvent};
use crate::identity::{IdentityView, SessionAndUserId};

verus! {

/// Mathematical value of a [`UserSessionHandle`].
pub struct HandleView {
    /// Name of the room the handle belongs to.
    pub room: Seq<char>,
    /// The connection the handle was given to.
    pub identity: IdentityView,
    /// The events published through the handle, oldest first.
    pub sent: Seq<EventView>,
}

/// Proof of one connection's membership of one room, with the right to publish
/// to that room. It is neither copied nor shared: handing it back to the room
/// is how the connection leaves.
pub struct UserSessionHandle {
    room: String,
    identity: SessionAndUserId,
    publisher: Publisher,
}

impl View for UserSessionHandle {
    type V = HandleView;

    closed spec fn view(&self) -> HandleView {
        HandleView { room: self.room@, identity: self.identity@, sent: self.publisher.sent() }
    }
}

/// The event that carries `content` from the holder of `handle` to its room.
pub open spec fn message_of(handle: HandleView, content: Seq<char>) -> EventView {
    EventView::UserMessage { room: handle.room, user_id: handle.identity.user_id, content }
}

impl UserSessionHandle {
    /// A handle for `identity` in the room called `room`, publishing through
    /// `publisher`.
    pub fn new(room: String, publisher: Publisher, identity: SessionAndUserId) -> (handle: Self)
        ensures
            handle@ == (HandleView {
                room: room@,
                identity: identity@,
                sent: publisher.sent(),
            }),
    {
        UserSessionHandle { room, identity, publisher }
    }

    /// Name of the room.
    pub fn room(&self) -> (name: &str)
        ensures
            name@ == self@.room,
    {
        self.room.as_str()
    }

    /// The connection this handle was given to.
    pub fn identity(&self) -> (identity: &SessionAndUserId)
        ensures
            identity@ == self@.identity,
    {
        &self.identity
    }

    /// Id of the connection.
    pub fn session_id(&self) -> (id: &str)
        ensures
            id@ == self@.identity.session_id,
    {
        self.identity.session_id.as_str()
    }

    /// Id of the user.
    pub fn user_id(&self) -> (id: &str)
        ensures
            id@ == self@.identity.user_id,
    {
        self.identity.user_id.as_str()
    }

    /// The event that `send_message` publishes for `content`.
    pub fn message_event(&self, content: String) -> (event: Event)
        ensures
            event@ == message_of(self@, content@),
    {
        Event::UserMessage(
            UserMessageBroadcastEvent {
                room: self.room.clone(),
                user_id: self.identity.user_id.clone(),
                content,
            },
        )
    }

    /// Publishes `content` to the room in the holder's name. Nobody listening
    /// is no failure. Returns the number of subscribers at that moment.
    pub fn send_message(&mut self, content: String) -> (receivers: usize)
        ensures
            final(self)@ == (HandleView {
                sent: old(self)@.sent.push(message_of(old(self)@, content@)),
                ..old(self)@
            }),
    {
        let event = self.message_event(content);
        self.publisher.publish(event)
    }
}

} // verus!
