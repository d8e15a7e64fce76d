//! The per-connection session: which rooms the connection has joined, what
//! each command does to them, and what the runtime around the session has to
//! do next.
//!
//! The session decides; it neither waits nor spawns. After each command it
//! names one action for its runtime: start forwarding a room's subscription
//! into the connection's outbound queue, stop doing so, or put a reply on the
//! queue.

use vstd::prelude::*;
use crate::event::{
    Event, EventView, HistoryResponseEvent, UserCommand, UserCommandView, UserJoinedRoomReplyEvent,
};
use crate::identity::{IdentityView, SessionAndUserId};
use crate::room_manager::{
    directory_joined, directory_left, directory_recorded, has_room, resolves, room_at, room_index,
    DirectoryView, RoomError, RoomManager,
};
use crate::user_registry::present_users;
use crate::user_session_handle::{message_of, HandleView, UserSessionHandle};

verus! {

/// Capacity of the outbound queue that all forwarding tasks of one session
/// share.
pub const OUTBOUND_QUEUE_CAPACITY: usize = 100;

/// Why a command failed.
#[derive(Debug, Clone, Copy, PartialEq, Eq, Structural)]
pub enum SessionError {
    /// The session has joined that room already.
    AlreadyJoined,
    /// The room is unknown and the directory does not create rooms on demand.
    RoomNotFound,
    /// The room of a membership is not in the directory.
    InvalidHandle,
}

impl SessionError {
    /// The session's word for a failure of the directory.
    pub fn from_room_error(error: RoomError) -> (e: SessionError)
        ensures
            e == match error {
                RoomError::RoomNotFound => SessionError::RoomNotFound,
                RoomError::InvalidHandle => SessionError::InvalidHandle,
            },
    {
        match error {
            RoomError::RoomNotFound => SessionError::RoomNotFound,
            RoomError::InvalidHandle => SessionError::InvalidHandle,
        }
    }

    /// The failure in words.
    pub fn message(&self) -> (text: &'static str)
        ensures
            text@ == match *self {
                SessionError::AlreadyJoined => "already joined room"@,
                SessionError::RoomNotFound => "room not found"@,
                SessionError::InvalidHandle => "room of the membership not found"@,
            },
    {
        match self {
            SessionError::AlreadyJoined => "already joined room",
            SessionError::RoomNotFound => "room not found",
            SessionError::InvalidHandle => "room of the membership not found",
        }
    }
}

/// What the runtime around a session has to do after a command.
pub enum SessionAction {
    /// Nothing.
    Nothing,
    /// Put `reply` on the outbound queue and only then start a task that moves
    /// every event of `subscription` to the queue, until it is cancelled or
    /// the channel closes for good.
    StartForwarding {
        room: String,
        reply: Event,
        subscription: tokio::sync::broadcast::Receiver<Event>,
    },
    /// Cancel the forwarding task of `room` at once. What it has put on the
    /// queue stays there.
    StopForwarding { room: String },
    /// Put `event` on the outbound queue.
    Reply { event: Event },
}

/// Mathematical value of a [`SessionAction`]; the subscription has none.
pub enum ActionView {
    Nothing,
    StartForwarding { room: Seq<char>, reply: EventView },
    StopForwarding { room: Seq<char> },
    Reply { event: EventView },
}

impl View for SessionAction {
    type V = ActionView;

    open spec fn view(&self) -> ActionView {
        match *self {
            SessionAction::Nothing => ActionView::Nothing,
            SessionAction::StartForwarding { room, reply, subscription } => {
                ActionView::StartForwarding { room: room@, reply: reply@ }
            },
            SessionAction::StopForwarding { room } => ActionView::StopForwarding { room: room@ },
            SessionAction::Reply { event } => ActionView::Reply { event: event@ },
        }
    }
}

/// A command's two results: whether it succeeded, and what is to be done now.
pub struct SessionStep {
    pub action: SessionAction,
    pub result: Result<(), SessionError>,
}

/// How a session ended: whether every membership could be handed back, and
/// the rooms whose forwarding tasks are to be cancelled.
pub struct SessionEnd {
    pub stop_forwarding: Vec<String>,
    pub result: Result<(), SessionError>,
}

/// Mathematical value of a [`ChatSession`].
pub struct SessionView {
    pub identity: IdentityView,
    /// The memberships held, in the order in which the rooms were joined.
    pub joined: Seq<HandleView>,
}

/// Whether the membership at position `i` of `joined` is one of `room`.
pub open spec fn joined_at(joined: Seq<HandleView>, room: Seq<char>, i: int) -> bool {
    0 <= i < joined.len() && joined[i].room == room
}

/// Whether one of the memberships is one of `room`.
pub open spec fn is_joined(joined: Seq<HandleView>, room: Seq<char>) -> bool {
    exists|i: int| joined_at(joined, room, i)
}

/// Position of the membership of `room`, where there is one.
pub open spec fn joined_index(joined: Seq<HandleView>, room: Seq<char>) -> int {
    choose|i: int| joined_at(joined, room, i)
}

/// No two memberships are of the same room.
pub open spec fn distinct_rooms(joined: Seq<HandleView>) -> bool {
    forall|i: int, j: int|
        0 <= i < j < joined.len() ==> (#[trigger] joined[i]).room != (#[trigger] joined[j]).room
}

/// The directory after all of `handles` have been handed back, the last one
/// first.
pub open spec fn directory_left_all(directory: DirectoryView, handles: Seq<HandleView>) -> DirectoryView
    decreases handles.len(),
{
    if handles.len() == 0 {
        directory
    } else {
        directory_left_all(directory_left(directory, handles.last()), handles.drop_last())
    }
}

/// The rooms of `handles`, the last one first.
pub open spec fn rooms_latest_first(handles: Seq<HandleView>) -> Seq<Seq<char>> {
    Seq::new(handles.len(), |i: int| handles[handles.len() - 1 - i].room)
}

/// Whether the room of each of `handles` is in the directory.
pub open spec fn all_rooms_known(directory: DirectoryView, handles: Seq<HandleView>) -> bool {
    forall|i: int| 0 <= i < handles.len() ==> has_room(directory.rooms, (#[trigger] handles[i]).room)
}

/// What `JoinRoom` of `room` does.
pub open spec fn join_step(
    session: SessionView,
    directory: DirectoryView,
    room: Seq<char>,
    session_after: SessionView,
    directory_after: DirectoryView,
    action: ActionView,
    result: Result<(), SessionError>,
) -> bool {
    if is_joined(session.joined, room) {
        &&& result == Err::<(), SessionError>(SessionError::AlreadyJoined)
        &&& action == ActionView::Nothing
        &&& session_after == session
        &&& directory_after == directory
    } else if !resolves(directory, room) {
        &&& result == Err::<(), SessionError>(SessionError::RoomNotFound)
        &&& action == ActionView::Nothing
        &&& session_after == session
        &&& directory_after == directory
    } else {
        &&& result == Ok::<(), SessionError>(())
        &&& directory_after == directory_joined(directory, room, session.identity)
        &&& session_after == (SessionView {
            joined: session.joined.push(
                HandleView { room, identity: session.identity, sent: Seq::empty() },
            ),
            ..session
        })
        &&& action matches ActionView::StartForwarding { room: started, reply }
        &&& started == room
        &&& reply matches EventView::UserJoinedRoom { room: replied, users }
        &&& replied == room
        &&& users.no_duplicates()
        &&& users.to_set() == present_users(
            directory_after.rooms[room_index(directory_after.rooms, room)].members,
        )
    }
}

/// What `SendMessage` of `content` to `room` does.
pub open spec fn send_step(
    session: SessionView,
    directory: DirectoryView,
    room: Seq<char>,
    content: Seq<char>,
    session_after: SessionView,
    directory_after: DirectoryView,
    action: ActionView,
    result: Result<(), SessionError>,
) -> bool {
    &&& action == ActionView::Nothing
    &&& if !is_joined(session.joined, room) {
        &&& result == Ok::<(), SessionError>(())
        &&& session_after == session
        &&& directory_after == directory
    } else if !has_room(directory.rooms, room) {
        &&& result == Err::<(), SessionError>(SessionError::InvalidHandle)
        &&& session_after == session
        &&& directory_after == directory
    } else {
        let at = joined_index(session.joined, room);
        let handle = session.joined[at];
        &&& result == Ok::<(), SessionError>(())
        &&& directory_after == directory_recorded(directory, handle, content)
        &&& session_after == (SessionView {
            joined: session.joined.update(
                at,
                HandleView { sent: handle.sent.push(message_of(handle, content)), ..handle },
            ),
            ..session
        })
    }
}

/// What `LeaveRoom` of `room` does.
pub open spec fn leave_step(
    session: SessionView,
    directory: DirectoryView,
    room: Seq<char>,
    session_after: SessionView,
    directory_after: DirectoryView,
    action: ActionView,
    result: Result<(), SessionError>,
) -> bool {
    if !is_joined(session.joined, room) {
        &&& result == Ok::<(), SessionError>(())
        &&& action == ActionView::Nothing
        &&& session_after == session
        &&& directory_after == directory
    } else {
        let at = joined_index(session.joined, room);
        &&& action == (ActionView::StopForwarding { room })
        &&& session_after == (SessionView { joined: session.joined.remove(at), ..session })
        &&& directory_after == directory_left(directory, session.joined[at])
        &&& result == if has_room(directory.rooms, room) {
            Ok::<(), SessionError>(())
        } else {
            Err::<(), SessionError>(SessionError::InvalidHandle)
        }
    }
}

/// What `GetHistory` of `room` does.
pub open spec fn history_step(
    session: SessionView,
    directory: DirectoryView,
    room: Seq<char>,
    session_after: SessionView,
    directory_after: DirectoryView,
    action: ActionView,
    result: Result<(), SessionError>,
) -> bool {
    &&& session_after == session
    &&& directory_after == directory
    &&& if !is_joined(session.joined, room) {
        &&& result == Ok::<(), SessionError>(())
        &&& action == ActionView::Nothing
    } else if !has_room(directory.rooms, room) {
        &&& result == Err::<(), SessionError>(SessionError::InvalidHandle)
        &&& action == ActionView::Nothing
    } else {
        &&& result == Ok::<(), SessionError>(())
        &&& action == (ActionView::Reply {
            event: EventView::HistoryResponse {
                room,
                history: directory.rooms[room_index(directory.rooms, room)].history,
            },
        })
    }
}

/// What a command does to the session and the directory, what it asks of the
/// runtime, and whether it succeeds.
pub open spec fn command_step(
    session: SessionView,
    directory: DirectoryView,
    command: UserCommandView,
    session_after: SessionView,
    directory_after: DirectoryView,
    action: ActionView,
    result: Result<(), SessionError>,
) -> bool {
    match command {
        UserCommandView::JoinRoom { room } => join_step(
            session,
            directory,
            room,
            session_after,
            directory_after,
            action,
            result,
        ),
        UserCommandView::SendMessage { room, content } => send_step(
            session,
            directory,
            room,
            content,
            session_after,
            directory_after,
            action,
            result,
        ),
        UserCommandView::LeaveRoom { room } => leave_step(
            session,
            directory,
            room,
            session_after,
            directory_after,
            action,
            result,
        ),
        UserCommandView::GetHistory { room } => history_step(
            session,
            directory,
            room,
            session_after,
            directory_after,
            action,
            result,
        ),
    }
}

/// What comes out of a room's subscription.
#[derive(Debug, Clone, PartialEq, Eq)]
pub enum Received {
    /// The next event.
    Event(Event),
    /// The subscription fell behind and this many events were lost to it. It
    /// stays subscribed.
    Lagged(u64),
    /// The channel is closed for good.
    Closed,
}

/// What a forwarding task does with what it received.
#[derive(Debug, Clone, PartialEq, Eq)]
pub enum ForwardStep {
    /// Put the event on the outbound queue, waiting while the queue is full,
    /// and go on.
    Deliver(Event),
    /// Go on.
    Skip,
    /// End the task.
    Stop,
}

/// One turn of a forwarding task. Losing events to lag does not end the task:
/// only a closed channel does.
pub fn forward_step(received: Received) -> (step: ForwardStep)
    ensures
        step == match received {
            Received::Event(event) => ForwardStep::Deliver(event),
            Received::Lagged(_) => ForwardStep::Skip,
            Received::Closed => ForwardStep::Stop,
        },
{
    match received {
        Received::Event(event) => ForwardStep::Deliver(event),
        Received::Lagged(_) => ForwardStep::Skip,
        Received::Closed => ForwardStep::Stop,
    }
}

/// One connection's memberships.
pub struct ChatSession {
    session_and_user_id: SessionAndUserId,
    joined_rooms: Vec<UserSessionHandle>,
}

impl View for ChatSession {
    type V = SessionView;

    closed spec fn view(&self) -> SessionView {
        SessionView {
            identity: self.session_and_user_id@,
            joined: Seq::new(self.joined_rooms@.len(), |i: int| self.joined_rooms@[i]@),
        }
    }
}

/// Among memberships of distinct rooms, a room is found at one position only.
pub proof fn lemma_joined_index(joined: Seq<HandleView>, room: Seq<char>, i: int)
    requires
        distinct_rooms(joined),
        joined_at(joined, room, i),
    ensures
        is_joined(joined, room),
        joined_index(joined, room) == i,
{
    let j = joined_index(joined, room);
    assert(joined_at(joined, room, j));
    if i < j {
        assert(joined[i].room != joined[j].room);
    }
    if j < i {
        assert(joined[j].room != joined[i].room);
    }
}

/// Handing a membership back changes neither how many rooms the directory
/// has nor what they are called.
pub proof fn lemma_left_keeps_names(directory: DirectoryView, handle: HandleView)
    ensures
        directory_left(directory, handle).rooms.len() == directory.rooms.len(),
        forall|i: int|
            0 <= i < directory.rooms.len() ==> (#[trigger] directory_left(
                directory,
                handle,
            ).rooms[i]).name == directory.rooms[i].name,
        forall|name: Seq<char>|
            has_room(directory_left(directory, handle).rooms, name) <==> has_room(
                directory.rooms,
                name,
            ),
{
    let after = directory_left(directory, handle);
    if has_room(directory.rooms, handle.room) {
        let at = room_index(directory.rooms, handle.room);
        assert(room_at(directory.rooms, handle.room, at));
    }
    assert forall|i: int| 0 <= i < directory.rooms.len() implies (#[trigger] after.rooms[i]).name
        == directory.rooms[i].name by {}
    assert forall|name: Seq<char>| has_room(after.rooms, name) <==> has_room(
        directory.rooms,
        name,
    ) by {
        if has_room(after.rooms, name) {
            let i = choose|i: int| room_at(after.rooms, name, i);
            assert(room_at(directory.rooms, name, i));
        }
        if has_room(directory.rooms, name) {
            let i = choose|i: int| room_at(directory.rooms, name, i);
            assert(room_at(after.rooms, name, i));
        }
    }
}

/// Once a session has joined a room, joining it again is refused and changes
/// neither the session, whose first membership stays as it is, nor the
/// directory.
pub proof fn lemma_second_join_refused(
    session: SessionView,
    directory: DirectoryView,
    room: Seq<char>,
    joined: SessionView,
    directory_joined: DirectoryView,
    first_action: ActionView,
    again: SessionView,
    directory_again: DirectoryView,
    second_action: ActionView,
    second_result: Result<(), SessionError>,
)
    requires
        join_step(
            session,
            directory,
            room,
            joined,
            directory_joined,
            first_action,
            Ok::<(), SessionError>(()),
        ),
        join_step(
            joined,
            directory_joined,
            room,
            again,
            directory_again,
            second_action,
            second_result,
        ),
    ensures
        second_result == Err::<(), SessionError>(SessionError::AlreadyJoined),
        second_action == ActionView::Nothing,
        again == joined,
        directory_again == directory_joined,
        is_joined(again.joined, room),
{
    assert(joined_at(joined.joined, room, session.joined.len() as int));
}

/// Leaving a room that the session has joined stops the forwarding of that
/// room and of no other: the membership of that room is gone, every other
/// membership is as it was.
pub proof fn lemma_leave_stops_only_that_room(
    session: SessionView,
    directory: DirectoryView,
    room: Seq<char>,
    session_after: SessionView,
    directory_after: DirectoryView,
    action: ActionView,
    result: Result<(), SessionError>,
)
    requires
        distinct_rooms(session.joined),
        is_joined(session.joined, room),
        leave_step(session, directory, room, session_after, directory_after, action, result),
    ensures
        action == (ActionView::StopForwarding { room }),
        !is_joined(session_after.joined, room),
        distinct_rooms(session_after.joined),
        forall|other: Seq<char>|
            other != room ==> (is_joined(session_after.joined, other) <==> is_joined(
                session.joined,
                other,
            )),
        forall|other: Seq<char>|
            other != room && is_joined(session.joined, other) ==> session_after.joined[joined_index(
                session_after.joined,
                other,
            )] == session.joined[joined_index(session.joined, other)],
{
    let at = joined_index(session.joined, room);
    assert(joined_at(session.joined, room, at));
    let after = session_after.joined;
    assert(after =~= session.joined.remove(at));
    assert forall|i: int, j: int| 0 <= i < j < after.len() implies (#[trigger] after[i]).room != (
    #[trigger] after[j]).room by {
        let a = if i < at { i } else { i + 1 };
        let b = if j < at { j } else { j + 1 };
        assert(session.joined[a].room != session.joined[b].room);
    }
    if is_joined(after, room) {
        let i = choose|i: int| joined_at(after, room, i);
        let a = if i < at { i } else { i + 1 };
        assert(joined_at(session.joined, room, a));
        lemma_joined_index(session.joined, room, a);
    }
    assert forall|other: Seq<char>| other != room implies (is_joined(after, other) <==> is_joined(
        session.joined,
        other,
    )) by {
        if is_joined(after, other) {
            let i = choose|i: int| joined_at(after, other, i);
            let a = if i < at { i } else { i + 1 };
            assert(joined_at(session.joined, other, a));
        }
        if is_joined(session.joined, other) {
            let a = choose|a: int| joined_at(session.joined, other, a);
            let i = if a < at { a } else { a - 1 };
            assert(joined_at(after, other, i));
        }
    }
    assert forall|other: Seq<char>| other != room && is_joined(
        session.joined,
        other,
    ) implies after[joined_index(after, other)] == session.joined[joined_index(
        session.joined,
        other,
    )] by {
        let a = joined_index(session.joined, other);
        assert(joined_at(session.joined, other, a));
        let i = if a < at { a } else { a - 1 };
        assert(joined_at(after, other, i));
        lemma_joined_index(after, other, i);
    }
}

/// The rooms of the memberships `joined`.
pub open spec fn joined_rooms(joined: Seq<HandleView>) -> Set<Seq<char>> {
    Set::new(|room: Seq<char>| is_joined(joined, room))
}

/// The rooms that are being forwarded once the runtime has carried out
/// `action`, where `forwarding` were being forwarded before.
pub open spec fn forwarding_after(forwarding: Set<Seq<char>>, action: ActionView) -> Set<Seq<char>> {
    match action {
        ActionView::StartForwarding { room, reply } => forwarding.insert(room),
        ActionView::StopForwarding { room } => forwarding.remove(room),
        _ => forwarding,
    }
}

/// A runtime that carries out each action forwards exactly the rooms that the
/// session has joined: whatever the command and however it ends, the rooms
/// forwarded after it are the rooms joined after it.
pub proof fn lemma_forwarding_follows_membership(
    session: SessionView,
    directory: DirectoryView,
    command: UserCommandView,
    session_after: SessionView,
    directory_after: DirectoryView,
    action: ActionView,
    result: Result<(), SessionError>,
)
    requires
        distinct_rooms(session.joined),
        command_step(session, directory, command, session_after, directory_after, action, result),
    ensures
        forwarding_after(joined_rooms(session.joined), action) == joined_rooms(
            session_after.joined,
        ),
{
    let before = session.joined;
    let after = session_after.joined;
    match command {
        UserCommandView::JoinRoom { room } => {
            if !is_joined(before, room) && resolves(directory, room) {
                assert forall|other: Seq<char>| is_joined(after, other) <==> (other == room
                    || is_joined(before, other)) by {
                    if is_joined(after, other) {
                        let i = choose|i: int| joined_at(after, other, i);
                        if i < before.len() {
                            assert(joined_at(before, other, i));
                        }
                    }
                    if is_joined(before, other) {
                        let i = choose|i: int| joined_at(before, other, i);
                        assert(joined_at(after, other, i));
                    }
                    assert(joined_at(after, room, before.len() as int));
                }
                assert(joined_rooms(after) =~= joined_rooms(before).insert(room));
            }
        },
        UserCommandView::SendMessage { room, content } => {
            if is_joined(before, room) && has_room(directory.rooms, room) {
                let at = joined_index(before, room);
                assert(joined_at(before, room, at));
                assert forall|other: Seq<char>| is_joined(after, other) <==> is_joined(
                    before,
                    other,
                ) by {
                    if is_joined(after, other) {
                        let i = choose|i: int| joined_at(after, other, i);
                        assert(joined_at(before, other, i));
                    }
                    if is_joined(before, other) {
                        let i = choose|i: int| joined_at(before, other, i);
                        assert(joined_at(after, other, i));
                    }
                }
            }
            assert(joined_rooms(after) =~= joined_rooms(before));
        },
        UserCommandView::LeaveRoom { room } => {
            if is_joined(before, room) {
                lemma_leave_stops_only_that_room(
                    session,
                    directory,
                    room,
                    session_after,
                    directory_after,
                    action,
                    result,
                );
                assert(joined_rooms(after) =~= joined_rooms(before).remove(room));
            }
        },
        UserCommandView::GetHistory { room } => {},
    }
}

/// The rooms whose forwarding is stopped when a session ends are all the rooms
/// it had joined: no forwarding task outlives its session.
pub proof fn lemma_session_end_stops_all(joined: Seq<HandleView>)
    ensures
        rooms_latest_first(joined).to_set() == joined_rooms(joined),
{
    let stopped = rooms_latest_first(joined);
    assert forall|room: Seq<char>| stopped.to_set().contains(room) <==> is_joined(
        joined,
        room,
    ) by {
        if stopped.contains(room) {
            let i = choose|i: int| 0 <= i < stopped.len() && stopped[i] == room;
            assert(joined_at(joined, room, joined.len() - 1 - i));
        }
        if is_joined(joined, room) {
            let i = choose|i: int| joined_at(joined, room, i);
            assert(stopped[joined.len() - 1 - i] == room);
        }
    }
    assert(stopped.to_set() =~= joined_rooms(joined));
}

impl ChatSession {
    /// The session holds at most one membership per room, and each of them is
    /// its own connection's.
    pub closed spec fn wf(&self) -> bool {
        &&& distinct_rooms(self@.joined)
        &&& forall|i: int|
            0 <= i < self@.joined.len() ==> (#[trigger] self@.joined[i]).identity == self@.identity
    }

    /// A well-formed session holds at most one membership per room.
    pub proof fn lemma_distinct_rooms(&self)
        requires
            self.wf(),
        ensures
            distinct_rooms(self@.joined),
    {
    }

    /// The session of connection `session_id` of user `user_id`, in no room.
    pub fn new(session_id: &str, user_id: &str) -> (session: Self)
        ensures
            session.wf(),
            session@ == (SessionView {
                identity: IdentityView { session_id: session_id@, user_id: user_id@ },
                joined: Seq::empty(),
            }),
    {
        let session = ChatSession {
            session_and_user_id: SessionAndUserId::new(session_id, user_id),
            joined_rooms: Vec::new(),
        };
        assert(session@.joined =~= Seq::empty());
        session
    }

    /// The connection this session belongs to.
    pub fn identity(&self) -> (identity: &SessionAndUserId)
        ensures
            identity@ == self@.identity,
    {
        &self.session_and_user_id
    }

    /// Position of the membership of `room`, if the session has joined it.
    fn find(&self, room: &String) -> (found: Option<usize>)
        ensures
            found matches Some(i) ==> joined_at(self@.joined, room@, i as int),
            found is None ==> !is_joined(self@.joined, room@),
    {
        let mut i: usize = 0;
        while i < self.joined_rooms.len()
            invariant
                i <= self.joined_rooms.len(),
                forall|j: int| 0 <= j < i ==> !joined_at(self@.joined, room@, j),
            decreases self.joined_rooms.len() - i,
        {
            if self.joined_rooms[i].room().to_owned() == *room {
                return Some(i);
            }
            i += 1;
        }
        None
    }

    /// Whether the session has joined `room`.
    pub fn has_joined(&self, room: &String) -> (joined: bool)
        ensures
            joined == is_joined(self@.joined, room@),
    {
        self.find(room).is_some()
    }

    /// Carries out one command of the connection.
    ///
    /// Joining a room twice is an error and leaves the first membership as it
    /// is. Sending to, leaving, or asking the history of a room that the
    /// session has not joined does nothing and succeeds. A message is recorded
    /// in the room's history first and published only if that succeeded.
    pub fn handle_user_command(&mut self, room_manager: &mut RoomManager, cmd: UserCommand) -> (step:
        SessionStep)
        requires
            old(self).wf(),
            old(room_manager).wf(),
        ensures
            final(self).wf(),
            final(room_manager).wf(),
            command_step(
                old(self)@,
                old(room_manager)@,
                cmd@,
                final(self)@,
                final(room_manager)@,
                step.action@,
                step.result,
            ),
    {
        match cmd {
            UserCommand::JoinRoom(cmd) => self.join_room(room_manager, cmd.room),
            UserCommand::SendMessage(cmd) => self.send_message(room_manager, cmd.room, cmd.content),
            UserCommand::LeaveRoom(cmd) => self.leave_room(room_manager, cmd.room),
            UserCommand::GetHistory(cmd) => self.get_history(room_manager, cmd.room),
        }
    }

    /// Joins `room`, unless the session is in it already.
    pub fn join_room(&mut self, room_manager: &mut RoomManager, room: String) -> (step: SessionStep)
        requires
            old(self).wf(),
            old(room_manager).wf(),
        ensures
            final(self).wf(),
            final(room_manager).wf(),
            join_step(
                old(self)@,
                old(room_manager)@,
                room@,
                final(self)@,
                final(room_manager)@,
                step.action@,
                step.result,
            ),
    {
        if self.find(&room).is_some() {
            return SessionStep {
                action: SessionAction::Nothing,
                result: Err(SessionError::AlreadyJoined),
            };
        }
        let ghost before = self@;
        match room_manager.join_room(room.as_str(), &self.session_and_user_id) {
            Err(e) => SessionStep {
                action: SessionAction::Nothing,
                result: Err(SessionError::from_room_error(e)),
            },
            Ok((subscription, user_session_handle, users)) => {
                self.joined_rooms.push(user_session_handle);
                proof {
                    let handle = HandleView {
                        room: room@,
                        identity: before.identity,
                        sent: Seq::empty(),
                    };
                    assert(self@.joined =~= before.joined.push(handle));
                    assert forall|i: int, j: int| 0 <= i < j < self@.joined.len() implies (
                    #[trigger] self@.joined[i]).room != (#[trigger] self@.joined[j]).room by {
                        if j == before.joined.len() {
                            assert(!joined_at(before.joined, room@, i));
                        } else {
                            assert(before.joined[i].room != before.joined[j].room);
                        }
                    }
                }
                let reply = Event::UserJoinedRoom(
                    UserJoinedRoomReplyEvent { room: room.clone(), users },
                );
                SessionStep {
                    action: SessionAction::StartForwarding { room, reply, subscription },
                    result: Ok(()),
                }
            },
        }
    }

    /// Records `content` in the history of `room` and publishes it there, if
    /// the session has joined `room`.
    pub fn send_message(&mut self, room_manager: &mut RoomManager, room: String, content: String) -> (step:
        SessionStep)
        requires
            old(self).wf(),
            old(room_manager).wf(),
        ensures
            final(self).wf(),
            final(room_manager).wf(),
            send_step(
                old(self)@,
                old(room_manager)@,
                room@,
                content@,
                final(self)@,
                final(room_manager)@,
                step.action@,
                step.result,
            ),
    {
        let at = match self.find(&room) {
            Some(at) => at,
            None => {
                return SessionStep { action: SessionAction::Nothing, result: Ok(()) };
            },
        };
        let ghost before = self@;
        proof {
            lemma_joined_index(before.joined, room@, at as int);
        }
        if let Err(e) = room_manager.add_room_history(&self.joined_rooms[at], content.clone()) {
            return SessionStep {
                action: SessionAction::Nothing,
                result: Err(SessionError::from_room_error(e)),
            };
        }
        let _ = self.joined_rooms[at].send_message(content);
        proof {
            let handle = before.joined[at as int];
            let sent = HandleView { sent: handle.sent.push(message_of(handle, content@)), ..handle };
            assert(self@.joined =~= before.joined.update(at as int, sent));
            assert forall|i: int, j: int| 0 <= i < j < self@.joined.len() implies (
            #[trigger] self@.joined[i]).room != (#[trigger] self@.joined[j]).room by {
                assert(before.joined[i].room != before.joined[j].room);
            }
            assert forall|i: int| 0 <= i < self@.joined.len() implies (
            #[trigger] self@.joined[i]).identity == self@.identity by {
                assert(before.joined[i].identity == before.identity);
            }
        }
        SessionStep { action: SessionAction::Nothing, result: Ok(()) }
    }

    /// Leaves `room`, if the session has joined it: the membership goes back
    /// to the room and the room's forwarding task is to be cancelled.
    pub fn leave_room(&mut self, room_manager: &mut RoomManager, room: String) -> (step: SessionStep)
        requires
            old(self).wf(),
            old(room_manager).wf(),
        ensures
            final(self).wf(),
            final(room_manager).wf(),
            leave_step(
                old(self)@,
                old(room_manager)@,
                room@,
                final(self)@,
                final(room_manager)@,
                step.action@,
                step.result,
            ),
    {
        let at = match self.find(&room) {
            Some(at) => at,
            None => {
                return SessionStep { action: SessionAction::Nothing, result: Ok(()) };
            },
        };
        let ghost before = self@;
        proof {
            lemma_joined_index(before.joined, room@, at as int);
        }
        let user_session_handle = self.joined_rooms.remove(at);
        proof {
            assert(self@.joined =~= before.joined.remove(at as int));
            assert forall|i: int, j: int| 0 <= i < j < self@.joined.len() implies (
            #[trigger] self@.joined[i]).room != (#[trigger] self@.joined[j]).room by {
                let a = if i < at { i } else { i + 1 };
                let b = if j < at { j } else { j + 1 };
                assert(before.joined[a].room != before.joined[b].room);
            }
            assert forall|i: int| 0 <= i < self@.joined.len() implies (
            #[trigger] self@.joined[i]).identity == self@.identity by {
                let a = if i < at { i } else { i + 1 };
                assert(before.joined[a].identity == before.identity);
            }
        }
        let result = match room_manager.drop_user_session_handle(user_session_handle) {
            Ok(()) => Ok(()),
            Err(e) => Err(SessionError::from_room_error(e)),
        };
        SessionStep { action: SessionAction::StopForwarding { room }, result }
    }

    /// Ends every membership, the latest first, as on disconnect. All of them
    /// are handed back and all forwarding tasks are to be cancelled, even
    /// where a room turns out to be missing from the directory.
    pub fn leave_all_rooms(&mut self, room_manager: &mut RoomManager) -> (end: SessionEnd)
        requires
            old(self).wf(),
            old(room_manager).wf(),
        ensures
            final(self).wf(),
            final(room_manager).wf(),
            final(self)@ == (SessionView { joined: Seq::empty(), ..old(self)@ }),
            final(room_manager)@ == directory_left_all(old(room_manager)@, old(self)@.joined),
            end.stop_forwarding.deep_view() == rooms_latest_first(old(self)@.joined),
            end.result == if all_rooms_known(old(room_manager)@, old(self)@.joined) {
                Ok::<(), SessionError>(())
            } else {
                Err::<(), SessionError>(SessionError::InvalidHandle)
            },
    {
        let ghost session = self@;
        let ghost directory = room_manager@;
        let mut stop_forwarding: Vec<String> = Vec::new();
        let mut result: Result<(), SessionError> = Ok(());
        assert(self@.joined =~= session.joined.subrange(0, session.joined.len() as int));
        while self.joined_rooms.len() > 0
            invariant
                self.wf(),
                room_manager.wf(),
                self@.identity == session.identity,
                self@.joined.len() <= session.joined.len(),
                self@.joined == session.joined.subrange(0, self@.joined.len() as int),
                directory_left_all(room_manager@, self@.joined) == directory_left_all(
                    directory,
                    session.joined,
                ),
                forall|name: Seq<char>|
                    has_room(room_manager@.rooms, name) <==> has_room(directory.rooms, name),
                stop_forwarding.len() == session.joined.len() - self@.joined.len(),
                forall|i: int|
                    0 <= i < stop_forwarding.len() ==> (#[trigger] stop_forwarding[i])@
                        == session.joined[session.joined.len() - 1 - i].room,
                result == if forall|i: int|
                    self@.joined.len() <= i < session.joined.len() ==> has_room(
                        directory.rooms,
                        (#[trigger] session.joined[i]).room,
                    ) {
                    Ok::<(), SessionError>(())
                } else {
                    Err::<(), SessionError>(SessionError::InvalidHandle)
                },
            decreases self.joined_rooms.len(),
        {
            let ghost before = self@;
            let ghost directory_before = room_manager@;
            let user_session_handle = self.joined_rooms.pop().unwrap();
            let ghost handle = user_session_handle@;
            proof {
                let m = before.joined.len() as int - 1;
                assert(handle == before.joined.last());
                assert(self@.joined =~= before.joined.drop_last());
                assert(self@.joined =~= session.joined.subrange(0, m));
                assert(handle == session.joined[m]);
                assert forall|i: int, j: int| 0 <= i < j < self@.joined.len() implies (
                #[trigger] self@.joined[i]).room != (#[trigger] self@.joined[j]).room by {
                    assert(before.joined[i].room != before.joined[j].room);
                }
                assert forall|i: int| 0 <= i < self@.joined.len() implies (
                #[trigger] self@.joined[i]).identity == self@.identity by {
                    assert(before.joined[i].identity == before.identity);
                }
                lemma_left_keeps_names(directory_before, handle);
            }
            stop_forwarding.push(user_session_handle.room().to_owned());
            if room_manager.drop_user_session_handle(user_session_handle).is_err() {
                result = Err(SessionError::InvalidHandle);
            }
        }
        proof {
            assert(self@.joined =~= Seq::empty());
            assert(stop_forwarding.deep_view() =~= rooms_latest_first(session.joined));
        }
        SessionEnd { stop_forwarding, result }
    }

    /// Fetches the history of `room` as a reply for the connection, if the
    /// session has joined `room`.
    pub fn get_history(&self, room_manager: &RoomManager, room: String) -> (step: SessionStep)
        requires
            self.wf(),
            room_manager.wf(),
        ensures
            history_step(
                self@,
                room_manager@,
                room@,
                self@,
                room_manager@,
                step.action@,
                step.result,
            ),
    {
        let at = match self.find(&room) {
            Some(at) => at,
            None => {
                return SessionStep { action: SessionAction::Nothing, result: Ok(()) };
            },
        };
        match room_manager.get_room_history(&self.joined_rooms[at]) {
            Err(e) => SessionStep {
                action: SessionAction::Nothing,
                result: Err(SessionError::from_room_error(e)),
            },
            Ok(history) => SessionStep {
                action: SessionAction::Reply {
                    event: Event::HistoryResponse(HistoryResponseEvent { room, history }),
                },
                result: Ok(()),
            },
        }
    }
}

} // verus!
