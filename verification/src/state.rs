//! The state of a client, as the events of the hub shape it.

use vstd::prelude::*;
use vstd::string::StringExecFns;
use crate::event::{Event, EventView, RoomDetail, RoomDetailView, RoomParticipationStatus};
use crate::message_queue::{
    queue_capacity, queue_clone, queue_items, queue_push, queue_snapshot, queue_with_capacity,
};
use crate::text::str_equal;
use crate::user_set::UserSet;

verus! {

/// How many messages and notifications the client keeps per room.
pub const MAX_MESSAGES_TO_STORE_PER_ROOM: usize = 100;

/// One line of a room's message box.
#[derive(Debug, Clone, PartialEq, Eq)]
pub enum MessageBoxItem {
    Message { user_id: String, content: String },
    Notification(String),
}

/// Mathematical value of a [`MessageBoxItem`].
pub enum MessageBoxItemView {
    Message { user_id: Seq<char>, content: Seq<char> },
    Notification(Seq<char>),
}

impl View for MessageBoxItem {
    type V = MessageBoxItemView;

    open spec fn view(&self) -> MessageBoxItemView {
        match *self {
            MessageBoxItem::Message { user_id, content } => MessageBoxItemView::Message {
                user_id: user_id@,
                content: content@,
            },
            MessageBoxItem::Notification(text) => MessageBoxItemView::Notification(text@),
        }
    }
}

/// The values of `items`, in the same order.
pub open spec fn item_views(items: Seq<MessageBoxItem>) -> Seq<MessageBoxItemView> {
    Seq::new(items.len(), |i: int| items[i]@)
}

/// A room's message box after one more line: at capacity the oldest line goes.
pub open spec fn messages_pushed(messages: Seq<MessageBoxItemView>, item: MessageBoxItemView) -> Seq<
    MessageBoxItemView,
> {
    if messages.len() >= MAX_MESSAGES_TO_STORE_PER_ROOM {
        messages.drop_first().push(item)
    } else {
        messages.push(item)
    }
}

/// A room's message box after the messages of `history` were added in order.
pub open spec fn history_pushed(
    messages: Seq<MessageBoxItemView>,
    history: Seq<(Seq<char>, Seq<char>)>,
) -> Seq<MessageBoxItemView>
    decreases history.len(),
{
    if history.len() == 0 {
        messages
    } else {
        messages_pushed(
            history_pushed(messages, history.drop_last()),
            MessageBoxItemView::Message { user_id: history.last().0, content: history.last().1 },
        )
    }
}

/// What a client knows of one room.
#[derive(Debug)]
pub struct RoomData {
    /// The name of the room
    pub name: String,
    /// The description of the room
    pub description: String,
    /// The users in the room
    pub users: UserSet,
    /// The last messages and notifications, oldest first
    pub messages: circular_queue::CircularQueue<MessageBoxItem>,
    /// Whether this client's user is in the room
    pub has_joined: bool,
    /// Whether messages arrived while another room was active
    pub has_unread: bool,
    /// Whether the room's history was never fetched
    pub first_time: bool,
}

/// Mathematical value of a [`RoomData`].
pub struct RoomDataView {
    pub name: Seq<char>,
    pub description: Seq<char>,
    pub users: Set<Seq<char>>,
    pub messages: Seq<MessageBoxItemView>,
    pub has_joined: bool,
    pub has_unread: bool,
    pub first_time: bool,
}

impl View for RoomData {
    type V = RoomDataView;

    open spec fn view(&self) -> RoomDataView {
        RoomDataView {
            name: self.name@,
            description: self.description@,
            users: self.users@,
            messages: item_views(queue_items(self.messages)),
            has_joined: self.has_joined,
            has_unread: self.has_unread,
            first_time: self.first_time,
        }
    }
}

/// What a client knows of a room it has only heard the name of.
pub open spec fn new_room_data(name: Seq<char>, description: Seq<char>) -> RoomDataView {
    RoomDataView {
        name,
        description,
        users: Set::empty(),
        messages: Seq::empty(),
        has_joined: false,
        has_unread: false,
        first_time: true,
    }
}

/// The notification for `user` becoming present or absent.
pub open spec fn participation_text(user: Seq<char>, status: RoomParticipationStatus) -> Seq<char> {
    match status {
        RoomParticipationStatus::Joined => user + " has joined the room"@,
        RoomParticipationStatus::Left => user + " has left the room"@,
    }
}

/// `room` after `user` became present or absent in it, as seen by the client
/// of user `me`.
pub open spec fn room_participated(
    room: RoomDataView,
    me: Seq<char>,
    user: Seq<char>,
    status: RoomParticipationStatus,
) -> RoomDataView {
    RoomDataView {
        users: match status {
            RoomParticipationStatus::Joined => room.users.insert(user),
            RoomParticipationStatus::Left => room.users.remove(user),
        },
        has_joined: if user == me {
            status == RoomParticipationStatus::Joined
        } else {
            room.has_joined
        },
        messages: messages_pushed(
            room.messages,
            MessageBoxItemView::Notification(participation_text(user, status)),
        ),
        ..room
    }
}

impl RoomData {
    /// The user set is consistent and the message box has its capacity of
    /// [`MAX_MESSAGES_TO_STORE_PER_ROOM`].
    pub open spec fn wf(&self) -> bool {
        &&& self.users.wf()
        &&& queue_capacity(self.messages) == MAX_MESSAGES_TO_STORE_PER_ROOM
        &&& queue_items(self.messages).len() <= MAX_MESSAGES_TO_STORE_PER_ROOM
    }

    /// A room nobody is known to be in and nothing was said in.
    pub fn new(name: String, description: String) -> (room: Self)
        ensures
            room.wf(),
            room@ == new_room_data(name@, description@),
    {
        let room = RoomData {
            name,
            description,
            users: UserSet::new(),
            messages: queue_with_capacity(MAX_MESSAGES_TO_STORE_PER_ROOM),
            has_joined: false,
            has_unread: false,
            first_time: true,
        };
        assert(room@.messages =~= Seq::empty());
        room
    }

    /// Adds a line to the message box.
    pub fn push_message(&mut self, item: MessageBoxItem)
        requires
            old(self).wf(),
        ensures
            final(self).wf(),
            final(self)@ == (RoomDataView {
                messages: messages_pushed(old(self)@.messages, item@),
                ..old(self)@
            }),
    {
        queue_push(&mut self.messages, item);
        assert(self@.messages =~= messages_pushed(old(self)@.messages, item@));
    }

    /// The message box, oldest line first.
    pub fn message_list(&self) -> (items: Vec<MessageBoxItem>)
        ensures
            item_views(items@) == self@.messages,
    {
        queue_snapshot(&self.messages)
    }

    /// Notes that `user` became present or absent. `me` is the client's own
    /// user.
    pub fn note_participation(&mut self, me: &str, user: &String, status: RoomParticipationStatus)
        requires
            old(self).wf(),
        ensures
            final(self).wf(),
            final(self)@ == room_participated(old(self)@, me@, user@, status),
    {
        let mut text = user.clone();
        match status {
            RoomParticipationStatus::Joined => {
                self.users.insert(user.clone());
                text.append(" has joined the room");
            },
            RoomParticipationStatus::Left => {
                self.users.remove(user.as_str());
                text.append(" has left the room");
            },
        }
        if str_equal(user.as_str(), me) {
            self.has_joined = match status {
                RoomParticipationStatus::Joined => true,
                RoomParticipationStatus::Left => false,
            };
        }
        self.push_message(MessageBoxItem::Notification(text));
    }

    /// Adds the messages of `history` to the message box, in order, and notes
    /// that the history was fetched.
    pub fn note_history(&mut self, history: &Vec<(String, String)>)
        requires
            old(self).wf(),
        ensures
            final(self).wf(),
            final(self)@ == (RoomDataView {
                messages: history_pushed(old(self)@.messages, history.deep_view()),
                first_time: false,
                ..old(self)@
            }),
    {
        let ghost all = history.deep_view();
        let mut i: usize = 0;
        assert(all.subrange(0, 0) =~= Seq::empty());
        while i < history.len()
            invariant
                i <= history.len(),
                all == history.deep_view(),
                self.wf(),
                self@ == (RoomDataView {
                    messages: history_pushed(old(self)@.messages, all.subrange(0, i as int)),
                    ..old(self)@
                }),
            decreases history.len() - i,
        {
            proof {
                let longer = all.subrange(0, i as int + 1);
                assert(longer.drop_last() =~= all.subrange(0, i as int));
                assert(longer.last() == all[i as int]);
            }
            self.push_message(
                MessageBoxItem::Message {
                    user_id: history[i].0.clone(),
                    content: history[i].1.clone(),
                },
            );
            i += 1;
        }
        assert(all.subrange(0, i as int) =~= all);
        self.first_time = false;
    }
}

impl Default for RoomData {
    fn default() -> (room: Self)
        ensures
            room.wf(),
            room@ == new_room_data(Seq::empty(), Seq::empty()),
    {
        RoomData::new(String::new(), String::new())
    }
}

impl Clone for RoomData {
    fn clone(&self) -> (copy: Self)
        ensures
            copy@ == self@,
            copy.wf() == self.wf(),
    {
        RoomData {
            name: self.name.clone(),
            description: self.description.clone(),
            users: self.users.clone(),
            messages: queue_clone(&self.messages),
            has_joined: self.has_joined,
            has_unread: self.has_unread,
            first_time: self.first_time,
        }
    }
}

/// Where the client stands with its server.
#[derive(Debug, Clone, PartialEq, Eq)]
pub enum ServerConnectionStatus {
    Uninitialized,
    Connecting,
    Connected { addr: String },
    Errored { err: String },
}

/// Mathematical value of a [`ServerConnectionStatus`].
pub enum StatusView {
    Uninitialized,
    Connecting,
    Connected { addr: Seq<char> },
    Errored { err: Seq<char> },
}

impl View for ServerConnectionStatus {
    type V = StatusView;

    open spec fn view(&self) -> StatusView {
        match *self {
            ServerConnectionStatus::Uninitialized => StatusView::Uninitialized,
            ServerConnectionStatus::Connecting => StatusView::Connecting,
            ServerConnectionStatus::Connected { addr } => StatusView::Connected { addr: addr@ },
            ServerConnectionStatus::Errored { err } => StatusView::Errored { err: err@ },
        }
    }
}

/// A status in words.
pub open spec fn status_text(status: StatusView) -> Seq<char> {
    match status {
        StatusView::Uninitialized => "Uninitialized"@,
        StatusView::Connecting => "Connecting"@,
        StatusView::Connected { addr } => "Connected to "@ + addr,
        StatusView::Errored { err } => "Errored: "@ + err,
    }
}

impl ServerConnectionStatus {
    /// The status in words, as the client shows it.
    pub fn to_text(&self) -> (text: String)
        ensures
            text@ == status_text(self@),
    {
        match self {
            ServerConnectionStatus::Uninitialized => "Uninitialized".to_owned(),
            ServerConnectionStatus::Connecting => "Connecting".to_owned(),
            ServerConnectionStatus::Connected { addr } => {
                let mut text = "Connected to ".to_owned();
                text.append(addr.as_str());
                text
            },
            ServerConnectionStatus::Errored { err } => {
                let mut text = "Errored: ".to_owned();
                text.append(err.as_str());
                text
            },
        }
    }

    /// A copy of the status.
    pub fn duplicate(&self) -> (copy: Self)
        ensures
            copy@ == self@,
    {
        match self {
            ServerConnectionStatus::Uninitialized => ServerConnectionStatus::Uninitialized,
            ServerConnectionStatus::Connecting => ServerConnectionStatus::Connecting,
            ServerConnectionStatus::Connected { addr } => ServerConnectionStatus::Connected {
                addr: addr.clone(),
            },
            ServerConnectionStatus::Errored { err } => ServerConnectionStatus::Errored {
                err: err.clone(),
            },
        }
    }
}

/// The values of `rooms`, in the same order.
pub open spec fn room_views(rooms: Seq<RoomData>) -> Seq<RoomDataView> {
    Seq::new(rooms.len(), |i: int| rooms[i]@)
}

/// Whether the room at position `i` of `views` is called `name`.
pub open spec fn view_named(views: Seq<RoomDataView>, name: Seq<char>, i: int) -> bool {
    0 <= i < views.len() && views[i].name == name
}

/// Whether the room at position `i` of `rooms` is called `name`.
#[verifier::inline]
pub open spec fn room_named(rooms: Seq<RoomData>, name: Seq<char>, i: int) -> bool {
    view_named(room_views(rooms), name, i)
}

/// No two of `rooms` share a name.
pub open spec fn distinct_room_names(rooms: Seq<RoomData>) -> bool {
    forall|i: int, j: int|
        0 <= i < j < rooms.len() ==> (#[trigger] rooms[i]).name@ != (#[trigger] rooms[j]).name@
}

/// The rooms of `views` by name.
pub open spec fn views_map(views: Seq<RoomDataView>) -> Map<Seq<char>, RoomDataView> {
    Map::new(
        |name: Seq<char>| exists|i: int| view_named(views, name, i),
        |name: Seq<char>| views[choose|i: int| view_named(views, name, i)],
    )
}

/// The rooms by name.
pub open spec fn rooms_map(rooms: Seq<RoomData>) -> Map<Seq<char>, RoomDataView> {
    views_map(room_views(rooms))
}

/// The rooms that a login announces: one per name, described by the last
/// entry of that name.
pub open spec fn rooms_announced(details: Seq<RoomDetailView>) -> Map<Seq<char>, RoomDataView>
    decreases details.len(),
{
    if details.len() == 0 {
        Map::empty()
    } else {
        rooms_announced(details.drop_last()).insert(
            details.last().name,
            new_room_data(details.last().name, details.last().description),
        )
    }
}

/// The state of a client.
#[derive(Debug)]
pub struct State {
    pub server_connection_status: ServerConnectionStatus,
    /// Currently active room
    pub active_room: Option<String>,
    /// The id of the user
    pub user_id: String,
    /// What is known of each room, one entry per name
    pub room_data_map: Vec<RoomData>,
    /// Seconds since the client was opened
    pub timer: usize,
}

/// Mathematical value of a [`State`].
pub struct StateView {
    pub server_connection_status: StatusView,
    pub active_room: Option<Seq<char>>,
    pub user_id: Seq<char>,
    /// What is known of each room, by name.
    pub rooms: Map<Seq<char>, RoomDataView>,
    pub timer: nat,
}

impl View for State {
    type V = StateView;

    open spec fn view(&self) -> StateView {
        StateView {
            server_connection_status: self.server_connection_status@,
            active_room: match self.active_room {
                Some(room) => Some(room@),
                None => None,
            },
            user_id: self.user_id@,
            rooms: rooms_map(self.room_data_map@),
            timer: self.timer as nat,
        }
    }
}

/// Whether the client can take `event` in `state`: a join reply or a message
/// must be of a room the client knows.
pub open spec fn event_expected(state: StateView, event: EventView) -> bool {
    match event {
        EventView::UserJoinedRoom { room, users } => state.rooms.dom().contains(room),
        EventView::UserMessage { room, user_id, content } => state.rooms.dom().contains(room),
        _ => true,
    }
}

/// `state` after the client has taken `event`.
pub open spec fn state_after_event(state: StateView, event: EventView) -> StateView {
    match event {
        EventView::LoginSuccessful { user_id, rooms } => StateView {
            user_id,
            rooms: rooms_announced(rooms),
            ..state
        },
        EventView::RoomParticipation { room, user_id, status } => {
            if state.rooms.dom().contains(room) {
                StateView {
                    rooms: state.rooms.insert(
                        room,
                        room_participated(state.rooms[room], state.user_id, user_id, status),
                    ),
                    ..state
                }
            } else {
                state
            }
        },
        EventView::UserJoinedRoom { room, users } => StateView {
            rooms: state.rooms.insert(
                room,
                RoomDataView { users: users.to_set(), ..state.rooms[room] },
            ),
            ..state
        },
        EventView::UserMessage { room, user_id, content } => StateView {
            rooms: state.rooms.insert(
                room,
                RoomDataView {
                    messages: messages_pushed(
                        state.rooms[room].messages,
                        MessageBoxItemView::Message { user_id, content },
                    ),
                    has_unread: state.rooms[room].has_unread || (state.active_room is Some
                        && state.active_room != Some(room)),
                    ..state.rooms[room]
                },
            ),
            ..state
        },
        EventView::HistoryResponse { room, history } => {
            if state.rooms.dom().contains(room) {
                StateView {
                    rooms: state.rooms.insert(
                        room,
                        RoomDataView {
                            messages: history_pushed(state.rooms[room].messages, history),
                            first_time: false,
                            ..state.rooms[room]
                        },
                    ),
                    ..state
                }
            } else {
                state
            }
        },
    }
}

/// `state` after `room` was chosen as the active room; unchanged where the
/// client does not know `room`.
pub open spec fn state_activated(state: StateView, room: Seq<char>) -> StateView {
    if state.rooms.dom().contains(room) {
        StateView {
            active_room: Some(room),
            rooms: state.rooms.insert(room, RoomDataView { has_unread: false, ..state.rooms[room] }),
            ..state
        }
    } else {
        state
    }
}

/// Among rooms of distinct names, the room at a position is the one the map
/// holds under its name.
pub proof fn lemma_rooms_map_at(rooms: Seq<RoomData>, i: int)
    requires
        distinct_room_names(rooms),
        0 <= i < rooms.len(),
    ensures
        rooms_map(rooms).dom().contains(rooms[i].name@),
        rooms_map(rooms)[rooms[i].name@] == rooms[i]@,
{
    let name = rooms[i].name@;
    assert(room_named(rooms, name, i));
    let j = choose|j: int| room_named(rooms, name, j);
    if i < j {
        assert(rooms[i].name@ != rooms[j].name@);
    }
    if j < i {
        assert(rooms[j].name@ != rooms[i].name@);
    }
}

/// Replacing the room at one position by a room of the same name replaces the
/// map's entry of that name and nothing else.
pub proof fn lemma_rooms_map_replaced(before: Seq<RoomData>, after: Seq<RoomData>, i: int)
    requires
        distinct_room_names(before),
        0 <= i < before.len(),
        after.len() == before.len(),
        forall|j: int| 0 <= j < before.len() && j != i ==> after[j] == before[j],
        after[i].name@ == before[i].name@,
    ensures
        distinct_room_names(after),
        rooms_map(after) == rooms_map(before).insert(before[i].name@, after[i]@),
{
    assert forall|a: int, b: int| 0 <= a < b < after.len() implies (#[trigger] after[a]).name@ != (
    #[trigger] after[b]).name@ by {
        assert(before[a].name@ != before[b].name@);
    }
    let expected = rooms_map(before).insert(before[i].name@, after[i]@);
    assert forall|name: Seq<char>| rooms_map(after).dom().contains(name) == expected.dom().contains(
        name,
    ) by {
        if rooms_map(after).dom().contains(name) {
            let j = choose|j: int| room_named(after, name, j);
            assert(room_named(before, name, j));
        }
        if rooms_map(before).dom().contains(name) {
            let j = choose|j: int| room_named(before, name, j);
            assert(room_named(after, name, j));
        }
        assert(room_named(after, before[i].name@, i));
    }
    assert forall|name: Seq<char>| rooms_map(after).dom().contains(name) implies rooms_map(
        after,
    )[name] == expected[name] by {
        let j = choose|j: int| room_named(after, name, j);
        lemma_rooms_map_at(after, j);
        if j != i {
            assert(room_named(before, name, j));
            lemma_rooms_map_at(before, j);
            assert(before[j].name@ != before[i].name@) by {
                if j < i {
                    assert(before[j].name@ != before[i].name@);
                } else {
                    assert(before[i].name@ != before[j].name@);
                }
            }
        }
    }
    assert(rooms_map(after) =~= expected);
}

/// Adding a room of a new name adds its entry to the map.
pub proof fn lemma_rooms_map_pushed(before: Seq<RoomData>, room: RoomData)
    requires
        distinct_room_names(before),
        forall|i: int| !room_named(before, room.name@, i),
    ensures
        distinct_room_names(before.push(room)),
        rooms_map(before.push(room)) == rooms_map(before).insert(room.name@, room@),
{
    let after = before.push(room);
    let n = before.len() as int;
    assert forall|a: int, b: int| 0 <= a < b < after.len() implies (#[trigger] after[a]).name@ != (
    #[trigger] after[b]).name@ by {
        if b == n {
            assert(!room_named(before, room.name@, a));
        } else {
            assert(before[a].name@ != before[b].name@);
        }
    }
    let expected = rooms_map(before).insert(room.name@, room@);
    assert forall|name: Seq<char>| rooms_map(after).dom().contains(name) == expected.dom().contains(
        name,
    ) by {
        if rooms_map(after).dom().contains(name) {
            let j = choose|j: int| room_named(after, name, j);
            if j < n {
                assert(room_named(before, name, j));
            }
        }
        if rooms_map(before).dom().contains(name) {
            let j = choose|j: int| room_named(before, name, j);
            assert(room_named(after, name, j));
        }
        assert(room_named(after, room.name@, n));
    }
    assert forall|name: Seq<char>| rooms_map(after).dom().contains(name) implies rooms_map(
        after,
    )[name] == expected[name] by {
        let j = choose|j: int| room_named(after, name, j);
        lemma_rooms_map_at(after, j);
        if j < n {
            assert(room_named(before, name, j));
            lemma_rooms_map_at(before, j);
        }
    }
    assert(rooms_map(after) =~= expected);
}

/// Position of the room called `name` among `rooms`, if there is one.
fn find_room(rooms: &Vec<RoomData>, name: &str) -> (found: Option<usize>)
    ensures
        found matches Some(i) ==> room_named(rooms@, name@, i as int),
        found is None ==> !rooms_map(rooms@).dom().contains(name@),
{
    let mut i: usize = 0;
    while i < rooms.len()
        invariant
            i <= rooms.len(),
            forall|j: int| 0 <= j < i ==> !room_named(rooms@, name@, j),
        decreases rooms.len() - i,
    {
        if str_equal(rooms[i].name.as_str(), name) {
            return Some(i);
        }
        i += 1;
    }
    None
}

impl State {
    /// Every room is well-formed and no two rooms share a name.
    pub open spec fn wf(&self) -> bool {
        &&& distinct_room_names(self.room_data_map@)
        &&& forall|i: int|
            0 <= i < self.room_data_map.len() ==> (#[trigger] self.room_data_map[i]).wf()
    }

    /// The state of a client that has not connected yet.
    pub fn new() -> (state: Self)
        ensures
            state.wf(),
            state@ == (StateView {
                server_connection_status: StatusView::Uninitialized,
                active_room: None,
                user_id: Seq::empty(),
                rooms: Map::empty(),
                timer: 0,
            }),
    {
        let state = State {
            server_connection_status: ServerConnectionStatus::Uninitialized,
            active_room: None,
            user_id: String::new(),
            room_data_map: Vec::new(),
            timer: 0,
        };
        assert(state@.rooms =~= Map::empty());
        state
    }

    /// Whether the client can take `event`: a join reply or a message must be
    /// of a room the client knows.
    pub fn expects(&self, event: &Event) -> (expected: bool)
        ensures
            expected == event_expected(self@, event@),
    {
        match event {
            Event::UserJoinedRoom(event) => find_room(
                &self.room_data_map,
                event.room.as_str(),
            ).is_some(),
            Event::UserMessage(event) => find_room(
                &self.room_data_map,
                event.room.as_str(),
            ).is_some(),
            _ => true,
        }
    }

    /// What the client knows of `room`, if it knows the room.
    pub fn room_data(&self, room: &str) -> (data: Option<&RoomData>)
        requires
            self.wf(),
        ensures
            data is Some <==> self@.rooms.dom().contains(room@),
            data matches Some(d) ==> d@ == self@.rooms[room@] && d.wf(),
    {
        match find_room(&self.room_data_map, room) {
            Some(i) => {
                proof {
                    lemma_rooms_map_at(self.room_data_map@, i as int);
                }
                Some(&self.room_data_map[i])
            },
            None => None,
        }
    }

    /// Takes one event of the server.
    pub fn handle_server_event(&mut self, event: &Event)
        requires
            old(self).wf(),
            event_expected(old(self)@, event@),
        ensures
            final(self).wf(),
            final(self)@ == state_after_event(old(self)@, event@),
    {
        match event {
            Event::LoginSuccessful(event) => {
                self.user_id = event.user_id.clone();
                self.room_data_map = announced_rooms(&event.rooms);
            },
            Event::RoomParticipation(event) => {
                if let Some(i) = find_room(&self.room_data_map, event.room.as_str()) {
                    let ghost before = self.room_data_map@;
                    proof {
                        lemma_rooms_map_at(before, i as int);
                    }
                    self.room_data_map[i].note_participation(
                        self.user_id.as_str(),
                        &event.user_id,
                        event.status,
                    );
                    proof {
                        lemma_rooms_map_replaced(before, self.room_data_map@, i as int);
                    }
                }
            },
            Event::UserJoinedRoom(event) => {
                if let Some(i) = find_room(&self.room_data_map, event.room.as_str()) {
                    let ghost before = self.room_data_map@;
                    proof {
                        lemma_rooms_map_at(before, i as int);
                    }
                    self.room_data_map[i].users = UserSet::from_list(&event.users);
                    proof {
                        lemma_rooms_map_replaced(before, self.room_data_map@, i as int);
                    }
                }
            },
            Event::UserMessage(event) => {
                if let Some(i) = find_room(&self.room_data_map, event.room.as_str()) {
                    let ghost before = self.room_data_map@;
                    proof {
                        lemma_rooms_map_at(before, i as int);
                    }
                    self.room_data_map[i].push_message(
                        MessageBoxItem::Message {
                            user_id: event.user_id.clone(),
                            content: event.content.clone(),
                        },
                    );
                    let elsewhere = match &self.active_room {
                        Some(active_room) => !str_equal(active_room.as_str(), event.room.as_str()),
                        None => false,
                    };
                    if elsewhere {
                        self.room_data_map[i].has_unread = true;
                    }
                    proof {
                        lemma_rooms_map_replaced(before, self.room_data_map@, i as int);
                    }
                }
            },
            Event::HistoryResponse(event) => {
                if let Some(i) = find_room(&self.room_data_map, event.room.as_str()) {
                    let ghost before = self.room_data_map@;
                    proof {
                        lemma_rooms_map_at(before, i as int);
                    }
                    self.room_data_map[i].note_history(&event.history);
                    proof {
                        lemma_rooms_map_replaced(before, self.room_data_map@, i as int);
                    }
                }
            },
        }
    }

    /// Notes that a connection attempt has begun.
    pub fn mark_connection_request_start(&mut self)
        ensures
            *final(self) == (State {
                server_connection_status: ServerConnectionStatus::Connecting,
                ..*old(self)
            }),
    {
        self.server_connection_status = ServerConnectionStatus::Connecting;
    }

    /// Notes how a connection attempt ended: with the server's address, or
    /// with the failure in words.
    pub fn process_connection_request_result(&mut self, result: Result<String, String>)
        ensures
            final(self).room_data_map == old(self).room_data_map,
            final(self)@ == (StateView {
                server_connection_status: match result {
                    Ok(addr) => StatusView::Connected { addr: addr@ },
                    Err(err) => StatusView::Errored { err: err@ },
                },
                ..old(self)@
            }),
    {
        self.server_connection_status = match result {
            Ok(addr) => ServerConnectionStatus::Connected { addr },
            Err(err) => ServerConnectionStatus::Errored { err },
        };
    }

    /// Makes `room` the active room and marks it read, if the client knows the
    /// room. Returns what is known of the room.
    pub fn try_set_active_room(&mut self, room: &str) -> (data: Option<&RoomData>)
        requires
            old(self).wf(),
        ensures
            final(self).wf(),
            final(self)@ == state_activated(old(self)@, room@),
            data is Some <==> old(self)@.rooms.dom().contains(room@),
            data matches Some(d) ==> d@ == final(self)@.rooms[room@],
    {
        match find_room(&self.room_data_map, room) {
            Some(i) => {
                let ghost before = self.room_data_map@;
                proof {
                    lemma_rooms_map_at(before, i as int);
                }
                self.room_data_map[i].has_unread = false;
                self.active_room = Some(room.to_owned());
                proof {
                    lemma_rooms_map_replaced(before, self.room_data_map@, i as int);
                    lemma_rooms_map_at(self.room_data_map@, i as int);
                }
                Some(&self.room_data_map[i])
            },
            None => None,
        }
    }

    /// Whether the history of `room` was never fetched, if the client knows
    /// the room.
    pub fn is_room_first_time(&mut self, room: &str) -> (first_time: Option<bool>)
        requires
            old(self).wf(),
        ensures
            *final(self) == *old(self),
            first_time == if old(self)@.rooms.dom().contains(room@) {
                Some(old(self)@.rooms[room@].first_time)
            } else {
                None
            },
    {
        match find_room(&self.room_data_map, room) {
            Some(i) => {
                proof {
                    lemma_rooms_map_at(self.room_data_map@, i as int);
                }
                Some(self.room_data_map[i].first_time)
            },
            None => None,
        }
    }

    /// Counts one more second.
    pub fn tick_timer(&mut self)
        requires
            old(self).timer < usize::MAX,
        ensures
            *final(self) == (State { timer: (old(self).timer + 1) as usize, ..*old(self) }),
    {
        self.timer += 1;
    }
}

/// One fresh room per announced name; of several entries with one name the
/// last one counts.
fn announced_rooms(details: &Vec<RoomDetail>) -> (rooms: Vec<RoomData>)
    ensures
        distinct_room_names(rooms@),
        forall|i: int| 0 <= i < rooms.len() ==> (#[trigger] rooms[i]).wf(),
        rooms_map(rooms@) == rooms_announced(details.deep_view()),
{
    let mut rooms: Vec<RoomData> = Vec::new();
    let ghost all = details.deep_view();
    let mut k: usize = 0;
    assert(all.subrange(0, 0) =~= Seq::empty());
    assert(rooms_map(rooms@) =~= Map::empty());
    while k < details.len()
        invariant
            k <= details.len(),
            all == details.deep_view(),
            distinct_room_names(rooms@),
            forall|i: int| 0 <= i < rooms.len() ==> (#[trigger] rooms[i]).wf(),
            rooms_map(rooms@) == rooms_announced(all.subrange(0, k as int)),
        decreases details.len() - k,
    {
        let ghost before = rooms@;
        proof {
            let longer = all.subrange(0, k as int + 1);
            assert(longer.drop_last() =~= all.subrange(0, k as int));
            assert(longer.last() == details[k as int]@);
        }
        let room = RoomData::new(details[k].name.clone(), details[k].description.clone());
        match find_room(&rooms, details[k].name.as_str()) {
            Some(i) => {
                rooms[i] = room;
                proof {
                    lemma_rooms_map_replaced(before, rooms@, i as int);
                }
            },
            None => {
                rooms.push(room);
                proof {
                    lemma_rooms_map_pushed(before, room);
                }
            },
        }
        k += 1;
    }
    assert(all.subrange(0, k as int) =~= all);
    rooms
}

impl Clone for State {
    fn clone(&self) -> (copy: Self)
        ensures
            copy@ == self@,
            self.wf() ==> copy.wf(),
    {
        let mut rooms: Vec<RoomData> = Vec::new();
        let mut i: usize = 0;
        while i < self.room_data_map.len()
            invariant
                i <= self.room_data_map.len(),
                rooms.len() == i,
                forall|j: int|
                    0 <= j < i ==> (#[trigger] rooms[j])@ == self.room_data_map[j]@ && rooms[j].wf()
                        == self.room_data_map[j].wf(),
            decreases self.room_data_map.len() - i,
        {
            rooms.push(self.room_data_map[i].clone());
            i += 1;
        }
        let copy = State {
            server_connection_status: self.server_connection_status.duplicate(),
            active_room: match &self.active_room {
                Some(room) => Some(room.clone()),
                None => None,
            },
            user_id: self.user_id.clone(),
            room_data_map: rooms,
            timer: self.timer,
        };
        proof {
            lemma_rooms_map_same(self.room_data_map@, copy.room_data_map@);
            if self.wf() {
                assert forall|j: int| 0 <= j < copy.room_data_map.len() implies (
                #[trigger] copy.room_data_map[j]).wf() by {
                    assert(self.room_data_map[j].wf());
                }
            }
        }
        copy
    }
}

/// Rooms that agree in value, position by position, make the same map, and
/// their names are as distinct in the one list as in the other.
pub proof fn lemma_rooms_map_same(a: Seq<RoomData>, b: Seq<RoomData>)
    requires
        a.len() == b.len(),
        forall|i: int| 0 <= i < a.len() ==> (#[trigger] a[i])@ == b[i]@,
    ensures
        rooms_map(a) == rooms_map(b),
        distinct_room_names(a) ==> distinct_room_names(b),
{
    assert(room_views(a) =~= room_views(b));
    if distinct_room_names(a) {
        assert forall|i: int, j: int| 0 <= i < j < b.len() implies (#[trigger] b[i]).name@ != (
        #[trigger] b[j]).name@ by {
            assert(a[i].name@ != a[j].name@);
            assert(a[i]@.name == b[i]@.name);
            assert(a[j]@.name == b[j]@.name);
        }
    }
}

impl Default for State {
    fn default() -> (state: Self)
        ensures
            state.wf(),
            state@ == (StateView {
                server_connection_status: StatusView::Uninitialized,
                active_room: None,
                user_id: Seq::empty(),
                rooms: Map::empty(),
                timer: 0,
            }),
    {
        State::new()
    }
}

} // verus!
