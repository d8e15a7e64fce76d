//! The commands a connection may issue and the events it may receive.

use vstd::prelude::*;

verus! {

/// Whether a user became present in a room or stopped being present.
#[derive(Debug, Clone, Copy, PartialEq, Eq, Structural)]
pub enum RoomParticipationStatus {
    Joined,
    Left,
}

/// Name and description of a room, as announced at login.
#[derive(Debug, Clone, PartialEq, Eq)]
pub struct RoomDetail {
    pub name: String,
    pub description: String,
}

/// Seeds the client with its user id and the rooms that exist.
#[derive(Debug, Clone, PartialEq, Eq)]
pub struct LoginSuccessfulReplyEvent {
    pub user_id: String,
    pub rooms: Vec<RoomDetail>,
}

/// Broadcast to a room when a user becomes present or absent.
#[derive(Debug, Clone, PartialEq, Eq)]
pub struct RoomParticipationBroadcastEvent {
    pub room: String,
    pub user_id: String,
    pub status: RoomParticipationStatus,
}

/// Reply to a successful join: the distinct users present in the room.
#[derive(Debug, Clone, PartialEq, Eq)]
pub struct UserJoinedRoomReplyEvent {
    pub room: String,
    pub users: Vec<String>,
}

/// Broadcast to a room when one of its members sends a message.
#[derive(Debug, Clone, PartialEq, Eq)]
pub struct UserMessageBroadcastEvent {
    pub room: String,
    pub user_id: String,
    pub content: String,
}

/// Reply to a history request: `(user id, content)` pairs, oldest first.
#[derive(Debug, Clone, PartialEq, Eq)]
pub struct HistoryResponseEvent {
    pub room: String,
    pub history: Vec<(String, String)>,
}

/// Everything the hub may deliver to a connection.
#[derive(Debug, Clone, PartialEq, Eq)]
pub enum Event {
    LoginSuccessful(LoginSuccessfulReplyEvent),
    RoomParticipation(RoomParticipationBroadcastEvent),
    UserJoinedRoom(UserJoinedRoomReplyEvent),
    UserMessage(UserMessageBroadcastEvent),
    HistoryResponse(HistoryResponseEvent),
}

#[derive(Debug, Clone, PartialEq, Eq)]
pub struct JoinRoomCommand {
    pub room: String,
}

#[derive(Debug, Clone, PartialEq, Eq)]
pub struct SendMessageCommand {
    pub room: String,
    pub content: String,
}

#[derive(Debug, Clone, PartialEq, Eq)]
pub struct LeaveRoomCommand {
    pub room: String,
}

#[derive(Debug, Clone, PartialEq, Eq)]
pub struct GetHistoryCommand {
    pub room: String,
}

/// Everything a connection may ask of the hub.
#[derive(Debug, Clone, PartialEq, Eq)]
pub enum UserCommand {
    JoinRoom(JoinRoomCommand),
    SendMessage(SendMessageCommand),
    LeaveRoom(LeaveRoomCommand),
    GetHistory(GetHistoryCommand),
}

/// Mathematical value of a [`RoomDetail`].
pub struct RoomDetailView {
    pub name: Seq<char>,
    pub description: Seq<char>,
}

/// Mathematical value of an [`Event`]: strings as character sequences.
pub enum EventView {
    LoginSuccessful { user_id: Seq<char>, rooms: Seq<RoomDetailView> },
    RoomParticipation { room: Seq<char>, user_id: Seq<char>, status: RoomParticipationStatus },
    UserJoinedRoom { room: Seq<char>, users: Seq<Seq<char>> },
    UserMessage { room: Seq<char>, user_id: Seq<char>, content: Seq<char> },
    HistoryResponse { room: Seq<char>, history: Seq<(Seq<char>, Seq<char>)> },
}

/// Mathematical value of a [`UserCommand`].
pub enum UserCommandView {
    JoinRoom { room: Seq<char> },
    SendMessage { room: Seq<char>, content: Seq<char> },
    LeaveRoom { room: Seq<char> },
    GetHistory { room: Seq<char> },
}

impl View for RoomDetail {
    type V = RoomDetailView;

    open spec fn view(&self) -> RoomDetailView {
        RoomDetailView { name: self.name@, description: self.description@ }
    }
}

impl DeepView for RoomDetail {
    type V = RoomDetailView;

    open spec fn deep_view(&self) -> RoomDetailView {
        self@
    }
}

impl View for Event {
    type V = EventView;

    open spec fn view(&self) -> EventView {
        match *self {
            Event::LoginSuccessful(e) => EventView::LoginSuccessful {
                user_id: e.user_id@,
                rooms: e.rooms.deep_view(),
            },
            Event::RoomParticipation(e) => EventView::RoomParticipation {
                room: e.room@,
                user_id: e.user_id@,
                status: e.status,
            },
            Event::UserJoinedRoom(e) => EventView::UserJoinedRoom {
                room: e.room@,
                users: e.users.deep_view(),
            },
            Event::UserMessage(e) => EventView::UserMessage {
                room: e.room@,
                user_id: e.user_id@,
                content: e.content@,
            },
            Event::HistoryResponse(e) => EventView::HistoryResponse {
                room: e.room@,
                history: e.history.deep_view(),
            },
        }
    }
}

impl View for UserCommand {
    type V = UserCommandView;

    open spec fn view(&self) -> UserCommandView {
        match *self {
            UserCommand::JoinRoom(c) => UserCommandView::JoinRoom { room: c.room@ },
            UserCommand::SendMessage(c) => UserCommandView::SendMessage {
                room: c.room@,
                content: c.content@,
            },
            UserCommand::LeaveRoom(c) => UserCommandView::LeaveRoom { room: c.room@ },
            UserCommand::GetHistory(c) => UserCommandView::GetHistory { room: c.room@ },
        }
    }
}

impl DeepView for UserCommand {
    type V = UserCommandView;

    open spec fn deep_view(&self) -> UserCommandView {
        self@
    }
}

/// The event that tells a room that `user_id` became present or absent.
pub fn participation_event(room: &String, user_id: &String, status: RoomParticipationStatus) -> (e:
    Event)
    ensures
        e@ == (EventView::RoomParticipation { room: room@, user_id: user_id@, status }),
{
    Event::RoomParticipation(
        RoomParticipationBroadcastEvent { room: room.clone(), user_id: user_id.clone(), status },
    )
}

} // verus!
