//! One room: who is in it, what was said last, and its broadcast channel.

use vstd::prelude::*;
use std::collections::VecDeque;
use crate::channel::{Publisher, BROADCAST_CHANNEL_CAPACITY};
use crate::event::{participation_event, Event, EventView, RoomParticipationStatus};
use crate::identity::{IdentityView, SessionAndUserId};
use crate::user_registry::{present_users, user_present, UserRegistry};
use crate::user_session_handle::{HandleView, UserSessionHandle};

verus! {

/// How many messages a room remembers.
pub const MESSAGE_HISTORY_CAPACITY: usize = 10;

/// What identifies a room. The name is the key; neither field changes once
/// the room exists.
#[derive(Debug, PartialEq, Eq)]
pub struct ChatRoomMetadata {
    pub name: String,
    pub description: String,
}

/// Mathematical value of a [`ChatRoomMetadata`].
pub struct MetadataView {
    pub name: Seq<char>,
    pub description: Seq<char>,
}

impl View for ChatRoomMetadata {
    type V = MetadataView;

    open spec fn view(&self) -> MetadataView {
        MetadataView { name: self.name@, description: self.description@ }
    }
}

impl DeepView for ChatRoomMetadata {
    type V = MetadataView;

    open spec fn deep_view(&self) -> MetadataView {
        self@
    }
}

impl Clone for ChatRoomMetadata {
    fn clone(&self) -> (copy: Self)
        ensures
            copy@ == self@,
    {
        ChatRoomMetadata { name: self.name.clone(), description: self.description.clone() }
    }
}

/// One remembered message.
#[derive(Debug, PartialEq, Eq)]
pub struct ChatMessage {
    user_id: String,
    content: String,
}

impl View for ChatMessage {
    type V = (Seq<char>, Seq<char>);

    /// The author's user id, then the content.
    closed spec fn view(&self) -> (Seq<char>, Seq<char>) {
        (self.user_id@, self.content@)
    }
}

impl DeepView for ChatMessage {
    type V = (Seq<char>, Seq<char>);

    open spec fn deep_view(&self) -> (Seq<char>, Seq<char>) {
        self@
    }
}

impl Clone for ChatMessage {
    fn clone(&self) -> (copy: Self)
        ensures
            copy@ == self@,
    {
        ChatMessage { user_id: self.user_id.clone(), content: self.content.clone() }
    }
}

impl ChatMessage {
    /// The message `content` written by `user_id`.
    pub fn new(user_id: String, content: String) -> (message: Self)
        ensures
            message@ == (user_id@, content@),
    {
        ChatMessage { user_id, content }
    }

    /// Id of the author.
    pub fn user_id(&self) -> (id: &str)
        ensures
            id@ == self@.0,
    {
        self.user_id.as_str()
    }

    /// What was written.
    pub fn content(&self) -> (content: &str)
        ensures
            content@ == self@.1,
    {
        self.content.as_str()
    }
}

/// Mathematical value of a [`ChatRoom`].
pub struct RoomView {
    pub name: Seq<char>,
    pub description: Seq<char>,
    /// The connections present.
    pub members: Set<IdentityView>,
    /// The remembered messages as `(user id, content)`, oldest first.
    pub history: Seq<(Seq<char>, Seq<char>)>,
    /// The participation events the room has published, oldest first.
    pub announced: Seq<EventView>,
}

/// The event that tells `room` that `user` became present or absent.
pub open spec fn participation_of(
    room: Seq<char>,
    user: Seq<char>,
    status: RoomParticipationStatus,
) -> EventView {
    EventView::RoomParticipation { room, user_id: user, status }
}

/// Whether the connection `id` entering `room` makes its user present.
pub open spec fn join_announces(room: RoomView, id: IdentityView) -> bool {
    !user_present(room.members, id.user_id)
}

/// Whether the connection `id` leaving `room` makes its user absent.
pub open spec fn leave_announces(room: RoomView, id: IdentityView) -> bool {
    room.members.contains(id) && !user_present(room.members.remove(id), id.user_id)
}

/// `room` after the connection `id` has entered it.
pub open spec fn room_joined(room: RoomView, id: IdentityView) -> RoomView {
    RoomView {
        members: room.members.insert(id),
        announced: if join_announces(room, id) {
            room.announced.push(
                participation_of(room.name, id.user_id, RoomParticipationStatus::Joined),
            )
        } else {
            room.announced
        },
        ..room
    }
}

/// `room` after the connection `id` has left it.
pub open spec fn room_left(room: RoomView, id: IdentityView) -> RoomView {
    RoomView {
        members: room.members.remove(id),
        announced: if leave_announces(room, id) {
            room.announced.push(
                participation_of(room.name, id.user_id, RoomParticipationStatus::Left),
            )
        } else {
            room.announced
        },
        ..room
    }
}

/// `history` after one more message: at capacity the oldest one goes.
pub open spec fn history_recorded(
    history: Seq<(Seq<char>, Seq<char>)>,
    user: Seq<char>,
    content: Seq<char>,
) -> Seq<(Seq<char>, Seq<char>)> {
    if history.len() >= MESSAGE_HISTORY_CAPACITY {
        history.drop_first().push((user, content))
    } else {
        history.push((user, content))
    }
}

/// `room` after it has recorded `content` written by `user`.
pub open spec fn room_recorded(room: RoomView, user: Seq<char>, content: Seq<char>) -> RoomView {
    RoomView { history: history_recorded(room.history, user, content), ..room }
}

/// A connection coming or going.
pub enum RoomOp {
    Join(IdentityView),
    Leave(IdentityView),
}

/// `room` after the connections of `ops` have come and gone, in that order.
pub open spec fn room_after(room: RoomView, ops: Seq<RoomOp>) -> RoomView
    decreases ops.len(),
{
    if ops.len() == 0 {
        room
    } else {
        let before = room_after(room, ops.drop_last());
        match ops.last() {
            RoomOp::Join(id) => room_joined(before, id),
            RoomOp::Leave(id) => room_left(before, id),
        }
    }
}

/// The connections that are live after those of `ops` have come and gone.
pub open spec fn members_after(members: Set<IdentityView>, ops: Seq<RoomOp>) -> Set<IdentityView>
    decreases ops.len(),
{
    if ops.len() == 0 {
        members
    } else {
        let before = members_after(members, ops.drop_last());
        match ops.last() {
            RoomOp::Join(id) => before.insert(id),
            RoomOp::Leave(id) => before.remove(id),
        }
    }
}

/// How often `events` tell `room` that `user` took on `status`.
pub open spec fn announced_count(
    events: Seq<EventView>,
    room: Seq<char>,
    user: Seq<char>,
    status: RoomParticipationStatus,
) -> int
    decreases events.len(),
{
    if events.len() == 0 {
        0
    } else {
        announced_count(events.drop_last(), room, user, status) + if events.last()
            == participation_of(room, user, status) {
            1int
        } else {
            0int
        }
    }
}

/// By how much the announced joins of `user` exceed the announced leaves.
pub open spec fn announced_balance(room: RoomView, user: Seq<char>) -> int {
    announced_count(room.announced, room.name, user, RoomParticipationStatus::Joined)
        - announced_count(room.announced, room.name, user, RoomParticipationStatus::Left)
}

/// One for a user with a connection among `members`, zero for any other.
pub open spec fn presence(members: Set<IdentityView>, user: Seq<char>) -> int {
    if user_present(members, user) {
        1
    } else {
        0
    }
}

/// A connection coming in makes its own user present and changes nobody
/// else's presence.
pub proof fn lemma_present_after_insert(members: Set<IdentityView>, id: IdentityView, user: Seq<char>)
    ensures
        user_present(members.insert(id), user) == (user == id.user_id || user_present(
            members,
            user,
        )),
{
    let after = members.insert(id);
    if user_present(after, user) && user != id.user_id {
        let session = choose|session: Seq<char>| #[trigger]
            after.contains(IdentityView { session_id: session, user_id: user });
        assert(members.contains(IdentityView { session_id: session, user_id: user }));
    }
    if user_present(members, user) {
        let session = choose|session: Seq<char>| #[trigger]
            members.contains(IdentityView { session_id: session, user_id: user });
        assert(after.contains(IdentityView { session_id: session, user_id: user }));
    }
    if user == id.user_id {
        assert(after.contains(IdentityView { session_id: id.session_id, user_id: user }));
    }
}

/// A connection going away changes nobody's presence but its own user's.
pub proof fn lemma_present_after_remove(members: Set<IdentityView>, id: IdentityView, user: Seq<char>)
    ensures
        user != id.user_id ==> user_present(members.remove(id), user) == user_present(members, user),
        user_present(members.remove(id), user) ==> user_present(members, user),
        members.contains(id) ==> user_present(members, id.user_id),
{
    let after = members.remove(id);
    if user_present(after, user) {
        let session = choose|session: Seq<char>| #[trigger]
            after.contains(IdentityView { session_id: session, user_id: user });
        assert(members.contains(IdentityView { session_id: session, user_id: user }));
    }
    if user_present(members, user) && user != id.user_id {
        let session = choose|session: Seq<char>| #[trigger]
            members.contains(IdentityView { session_id: session, user_id: user });
        assert(after.contains(IdentityView { session_id: session, user_id: user }));
    }
    if members.contains(id) {
        assert(members.contains(IdentityView { session_id: id.session_id, user_id: id.user_id }));
    }
}

/// A join is announced exactly when it changes the set of present users, and
/// then by one event, which names the user that became present.
pub proof fn lemma_join_announces_transition(room: RoomView, id: IdentityView)
    ensures
        present_users(room_joined(room, id).members) == present_users(room.members).insert(
            id.user_id,
        ),
        room_joined(room, id).announced == if present_users(room_joined(room, id).members)
            == present_users(room.members) {
            room.announced
        } else {
            room.announced.push(
                participation_of(room.name, id.user_id, RoomParticipationStatus::Joined),
            )
        },
{
    let after = room_joined(room, id);
    assert forall|user: Seq<char>| present_users(after.members).contains(user) == present_users(
        room.members,
    ).insert(id.user_id).contains(user) by {
        lemma_present_after_insert(room.members, id, user);
    }
    assert(present_users(after.members) =~= present_users(room.members).insert(id.user_id));
    if join_announces(room, id) {
        assert(!present_users(room.members).contains(id.user_id));
        assert(present_users(after.members).contains(id.user_id));
    } else {
        assert(present_users(room.members).contains(id.user_id));
        assert(present_users(room.members).insert(id.user_id) =~= present_users(room.members));
    }
}

/// A leave is announced exactly when it changes the set of present users, and
/// then by one event, which names the user that became absent.
pub proof fn lemma_leave_announces_transition(room: RoomView, id: IdentityView)
    ensures
        present_users(room_left(room, id).members) == if leave_announces(room, id) {
            present_users(room.members).remove(id.user_id)
        } else {
            present_users(room.members)
        },
        room_left(room, id).announced == if present_users(room_left(room, id).members)
            == present_users(room.members) {
            room.announced
        } else {
            room.announced.push(
                participation_of(room.name, id.user_id, RoomParticipationStatus::Left),
            )
        },
{
    let after = room_left(room, id);
    let expected = if leave_announces(room, id) {
        present_users(room.members).remove(id.user_id)
    } else {
        present_users(room.members)
    };
    assert forall|user: Seq<char>| present_users(after.members).contains(user) == expected.contains(
        user,
    ) by {
        lemma_present_after_remove(room.members, id, user);
        if !room.members.contains(id) {
            assert(room.members.remove(id) =~= room.members);
        }
    }
    assert(present_users(after.members) =~= expected);
    lemma_present_after_remove(room.members, id, id.user_id);
    if leave_announces(room, id) {
        assert(present_users(room.members).contains(id.user_id));
        assert(!present_users(after.members).contains(id.user_id));
    }
}

/// However the connections of users come and go, the room's members are the
/// live connections, and for every user the announced joins exceed the
/// announced leaves by one while the user is present and by nothing while
/// they are absent, counted from where the room started. So each change of a
/// user's presence is announced once, and a connection that comes or goes
/// without changing it is not announced.
pub proof fn lemma_announcements_track_presence(room: RoomView, ops: Seq<RoomOp>, user: Seq<char>)
    ensures
        room_after(room, ops).name == room.name,
        room_after(room, ops).members == members_after(room.members, ops),
        announced_balance(room_after(room, ops), user) - presence(
            room_after(room, ops).members,
            user,
        ) == announced_balance(room, user) - presence(room.members, user),
    decreases ops.len(),
{
    if ops.len() > 0 {
        lemma_announcements_track_presence(room, ops.drop_last(), user);
        let before = room_after(room, ops.drop_last());
        match ops.last() {
            RoomOp::Join(id) => {
                let after = room_joined(before, id);
                lemma_present_after_insert(before.members, id, user);
                if join_announces(before, id) {
                    assert(after.announced.drop_last() =~= before.announced);
                }
            },
            RoomOp::Leave(id) => {
                let after = room_left(before, id);
                lemma_present_after_remove(before.members, id, user);
                lemma_present_after_remove(before.members, id, id.user_id);
                if leave_announces(before, id) {
                    assert(after.announced.drop_last() =~= before.announced);
                } else if !before.members.contains(id) {
                    assert(before.members.remove(id) =~= before.members);
                }
            },
        }
    }
}

/// In a room that started empty, a user is present exactly when one more join
/// than leaves was announced for them, and else as many of the one as of the
/// other.
pub proof fn lemma_fresh_room_announcements(room: RoomView, ops: Seq<RoomOp>, user: Seq<char>)
    requires
        room.members == Set::<IdentityView>::empty(),
        room.announced == Seq::<EventView>::empty(),
    ensures
        announced_balance(room_after(room, ops), user) == presence(
            members_after(room.members, ops),
            user,
        ),
{
    lemma_announcements_track_presence(room, ops, user);
}

/// `history` after the messages of `entries` were recorded in order.
pub open spec fn history_after(
    history: Seq<(Seq<char>, Seq<char>)>,
    entries: Seq<(Seq<char>, Seq<char>)>,
) -> Seq<(Seq<char>, Seq<char>)>
    decreases entries.len(),
{
    if entries.len() == 0 {
        history
    } else {
        history_recorded(
            history_after(history, entries.drop_last()),
            entries.last().0,
            entries.last().1,
        )
    }
}

/// The last `MESSAGE_HISTORY_CAPACITY` of `entries`, or all of them where
/// there are fewer.
pub open spec fn latest(entries: Seq<(Seq<char>, Seq<char>)>) -> Seq<(Seq<char>, Seq<char>)> {
    if entries.len() <= MESSAGE_HISTORY_CAPACITY {
        entries
    } else {
        entries.subrange(entries.len() - MESSAGE_HISTORY_CAPACITY, entries.len() as int)
    }
}

/// A history within capacity stays within capacity whatever is recorded, and
/// holds the latest of all that was ever recorded, oldest first.
pub proof fn lemma_history_is_latest(
    history: Seq<(Seq<char>, Seq<char>)>,
    entries: Seq<(Seq<char>, Seq<char>)>,
)
    requires
        history.len() <= MESSAGE_HISTORY_CAPACITY,
    ensures
        history_after(history, entries).len() <= MESSAGE_HISTORY_CAPACITY,
        history_after(history, entries) == latest(history + entries),
    decreases entries.len(),
{
    if entries.len() == 0 {
        assert(history + entries =~= history);
    } else {
        lemma_history_is_latest(history, entries.drop_last());
        let shorter = history + entries.drop_last();
        assert(shorter.push(entries.last()) =~= history + entries);
        assert(history_after(history, entries) =~= latest(history + entries));
    }
}

/// A room: its broadcast channel, the connections present in it and the last
/// messages sent to it. A [`UserSessionHandle`] is handed out for each
/// connection that joins.
pub struct ChatRoom {
    metadata: ChatRoomMetadata,
    broadcast: Publisher,
    user_registry: UserRegistry,
    message_history: VecDeque<ChatMessage>,
}

impl View for ChatRoom {
    type V = RoomView;

    closed spec fn view(&self) -> RoomView {
        RoomView {
            name: self.metadata.name@,
            description: self.metadata.description@,
            members: self.user_registry@,
            history: self.message_history.deep_view(),
            announced: self.broadcast.sent(),
        }
    }
}

impl ChatRoom {
    /// The registry is consistent and the history holds at most
    /// [`MESSAGE_HISTORY_CAPACITY`] messages.
    pub closed spec fn wf(&self) -> bool {
        &&& self.user_registry.wf()
        &&& self.message_history@.len() <= MESSAGE_HISTORY_CAPACITY
    }

    /// A well-formed room remembers at most [`MESSAGE_HISTORY_CAPACITY`]
    /// messages.
    pub proof fn lemma_history_bounded(&self)
        requires
            self.wf(),
        ensures
            self@.history.len() <= MESSAGE_HISTORY_CAPACITY,
    {
    }

    /// An empty room with a channel of its own.
    pub fn new(metadata: ChatRoomMetadata) -> (room: Self)
        ensures
            room.wf(),
            room@ == (RoomView {
                name: metadata@.name,
                description: metadata@.description,
                members: Set::empty(),
                history: Seq::empty(),
                announced: Seq::empty(),
            }),
    {
        let room = ChatRoom {
            metadata,
            broadcast: Publisher::open(BROADCAST_CHANNEL_CAPACITY),
            user_registry: UserRegistry::new(),
            message_history: VecDeque::with_capacity(MESSAGE_HISTORY_CAPACITY),
        };
        assert(room@.history =~= Seq::empty());
        room
    }

    /// Name and description of the room.
    pub fn metadata(&self) -> (metadata: &ChatRoomMetadata)
        ensures
            metadata@.name == self@.name,
            metadata@.description == self@.description,
    {
        &self.metadata
    }

    /// The distinct users present, each once.
    pub fn get_unique_user_ids(&self) -> (ids: Vec<String>)
        requires
            self.wf(),
        ensures
            ids.deep_view().no_duplicates(),
            ids.deep_view().to_set() == present_users(self@.members),
    {
        self.user_registry.get_unique_user_ids()
    }

    /// Lets the connection `session_and_user_id` in. Every call gives a fresh
    /// subscription and a fresh handle. If the user had no connection in the
    /// room, the room publishes that they joined; the new subscription sees
    /// that event too.
    pub fn join(&mut self, session_and_user_id: &SessionAndUserId) -> (joined: (
        tokio::sync::broadcast::Receiver<Event>,
        UserSessionHandle,
    ))
        requires
            old(self).wf(),
        ensures
            final(self).wf(),
            final(self)@ == room_joined(old(self)@, session_and_user_id@),
            joined.1@ == (HandleView {
                room: old(self)@.name,
                identity: session_and_user_id@,
                sent: Seq::empty(),
            }),
    {
        let subscription = self.broadcast.subscribe();
        let user_session_handle = UserSessionHandle::new(
            self.metadata.name.clone(),
            self.broadcast.handle(),
            session_and_user_id.clone(),
        );
        if self.user_registry.insert(session_and_user_id) {
            let _ = self.broadcast.publish(
                participation_event(
                    &self.metadata.name,
                    &session_and_user_id.user_id,
                    RoomParticipationStatus::Joined,
                ),
            );
        }
        (subscription, user_session_handle)
    }

    /// Takes the handle back. If no other connection of its user remains in
    /// the room, the room publishes that they left.
    pub fn leave(&mut self, user_session_handle: UserSessionHandle)
        requires
            old(self).wf(),
        ensures
            final(self).wf(),
            final(self)@ == room_left(old(self)@, user_session_handle@.identity),
    {
        if self.user_registry.remove(user_session_handle.identity()) {
            let user_id = user_session_handle.identity().user_id.clone();
            let _ = self.broadcast.publish(
                participation_event(&self.metadata.name, &user_id, RoomParticipationStatus::Left),
            );
        }
    }

    /// Remembers a message; at capacity the oldest one is forgotten. Nothing
    /// is published.
    pub fn add_message_to_history(&mut self, user_id: String, content: String)
        requires
            old(self).wf(),
        ensures
            final(self).wf(),
            final(self)@ == room_recorded(old(self)@, user_id@, content@),
    {
        let message = ChatMessage::new(user_id, content);
        if self.message_history.len() >= MESSAGE_HISTORY_CAPACITY {
            self.message_history.pop_front();
        }
        self.message_history.push_back(message);
        assert(self@.history =~= history_recorded(old(self)@.history, user_id@, content@));
    }

    /// The remembered messages as `(user id, content)`, oldest first.
    pub fn get_message_history(&self) -> (history: Vec<(String, String)>)
        ensures
            history.deep_view() == self@.history,
    {
        let mut history: Vec<(String, String)> = Vec::new();
        let mut i: usize = 0;
        while i < self.message_history.len()
            invariant
                i <= self.message_history.len(),
                history.len() == i,
                forall|j: int|
                    0 <= j < i ==> (#[trigger] history[j]).deep_view() == self.message_history@[j]@,
            decreases self.message_history.len() - i,
        {
            let message = &self.message_history[i];
            history.push((message.user_id.clone(), message.content.clone()));
            i += 1;
        }
        assert(history.deep_view() =~= self@.history);
        history
    }
}

} // verus!
