use chat_hub::event::{
    Event, HistoryResponseEvent, LoginSuccessfulReplyEvent, RoomDetail,
    RoomParticipationBroadcastEvent, RoomParticipationStatus, UserJoinedRoomReplyEvent,
    UserMessageBroadcastEvent,
};
use chat_hub::state::{
    MessageBoxItem, RoomData, ServerConnectionStatus, State, MAX_MESSAGES_TO_STORE_PER_ROOM,
};

fn login(user: &str, rooms: &[(&str, &str)]) -> Event {
    Event::LoginSuccessful(LoginSuccessfulReplyEvent {
        user_id: String::from(user),
        rooms: rooms
            .iter()
            .map(|(name, description)| RoomDetail {
                name: String::from(*name),
                description: String::from(*description),
            })
            .collect(),
    })
}

fn participation(room: &str, user: &str, status: RoomParticipationStatus) -> Event {
    Event::RoomParticipation(RoomParticipationBroadcastEvent {
        room: String::from(room),
        user_id: String::from(user),
        status,
    })
}

fn user_message(room: &str, user: &str, content: &str) -> Event {
    Event::UserMessage(UserMessageBroadcastEvent {
        room: String::from(room),
        user_id: String::from(user),
        content: String::from(content),
    })
}

fn text(user: &str, content: &str) -> MessageBoxItem {
    MessageBoxItem::Message {
        user_id: String::from(user),
        content: String::from(content),
    }
}

fn logged_in() -> State {
    let mut state = State::new();
    state.handle_server_event(&login(
        "alice",
        &[("general", "for everything"), ("rust", "for crabs")],
    ));
    state
}

#[test]
fn new_state_knows_nothing() {
    let state = State::new();
    assert_eq!(
        state.server_connection_status,
        ServerConnectionStatus::Uninitialized
    );
    assert_eq!(state.active_room, None);
    assert_eq!(state.user_id, "");
    assert!(state.room_data_map.is_empty());
    assert_eq!(state.timer, 0);
    let other = State::default();
    assert!(other.room_data_map.is_empty());
    assert_eq!(other.timer, 0);
}

#[test]
fn new_room_data_is_blank() {
    let room = RoomData::new(String::from("general"), String::from("for everything"));
    assert_eq!(room.name, "general");
    assert_eq!(room.description, "for everything");
    assert_eq!(room.users.len(), 0);
    assert!(room.message_list().is_empty());
    assert_eq!(room.messages.capacity(), MAX_MESSAGES_TO_STORE_PER_ROOM);
    assert_eq!(room.messages.capacity(), 100);
    assert!(!room.has_joined);
    assert!(!room.has_unread);
    assert!(room.first_time);
    let blank = RoomData::default();
    assert_eq!(blank.name, "");
    assert_eq!(blank.description, "");
    assert!(blank.first_time);
    assert_eq!(blank.messages.capacity(), 100);
}

#[test]
fn login_sets_the_user_and_the_rooms() {
    let state = logged_in();
    assert_eq!(state.user_id, "alice");
    assert_eq!(state.room_data_map.len(), 2);
    let general = state.room_data("general").unwrap();
    assert_eq!(general.description, "for everything");
    assert!(general.first_time);
    assert!(state.room_data("rust").is_some());
    assert!(state.room_data("go").is_none());
}

#[test]
fn login_replaces_what_was_known() {
    let mut state = logged_in();
    state.handle_server_event(&user_message("general", "bob", "hi"));
    state.handle_server_event(&login(
        "carol",
        &[("general", "first"), ("go", "for gophers"), ("general", "last")],
    ));
    assert_eq!(state.user_id, "carol");
    assert_eq!(state.room_data_map.len(), 2);
    assert!(state.room_data("rust").is_none());
    let general = state.room_data("general").unwrap();
    assert_eq!(general.description, "last");
    assert!(general.message_list().is_empty());
}

#[test]
fn participation_of_another_user() {
    let mut state = logged_in();
    state.handle_server_event(&participation(
        "general",
        "bob",
        RoomParticipationStatus::Joined,
    ));
    {
        let general = state.room_data("general").unwrap();
        assert!(general.users.contains("bob"));
        assert!(!general.has_joined);
        assert_eq!(
            general.message_list(),
            vec![MessageBoxItem::Notification(String::from(
                "bob has joined the room"
            ))]
        );
    }
    state.handle_server_event(&participation(
        "general",
        "bob",
        RoomParticipationStatus::Left,
    ));
    let general = state.room_data("general").unwrap();
    assert!(!general.users.contains("bob"));
    assert_eq!(
        general.message_list(),
        vec![
            MessageBoxItem::Notification(String::from("bob has joined the room")),
            MessageBoxItem::Notification(String::from("bob has left the room")),
        ]
    );
    assert!(state.room_data("rust").unwrap().message_list().is_empty());
}

#[test]
fn own_participation_sets_has_joined() {
    let mut state = logged_in();
    state.handle_server_event(&participation(
        "rust",
        "alice",
        RoomParticipationStatus::Joined,
    ));
    assert!(state.room_data("rust").unwrap().has_joined);
    assert!(!state.room_data("general").unwrap().has_joined);
    state.handle_server_event(&participation(
        "rust",
        "alice",
        RoomParticipationStatus::Left,
    ));
    assert!(!state.room_data("rust").unwrap().has_joined);
}

#[test]
fn participation_in_an_unknown_room_is_ignored() {
    let mut state = logged_in();
    state.handle_server_event(&participation("go", "bob", RoomParticipationStatus::Joined));
    assert_eq!(state.room_data_map.len(), 2);
    assert!(state.room_data("general").unwrap().message_list().is_empty());
}

#[test]
fn join_reply_sets_the_users() {
    let mut state = logged_in();
    state.handle_server_event(&participation(
        "general",
        "old",
        RoomParticipationStatus::Joined,
    ));
    state.handle_server_event(&Event::UserJoinedRoom(UserJoinedRoomReplyEvent {
        room: String::from("general"),
        users: vec![
            String::from("alice"),
            String::from("bob"),
            String::from("alice"),
        ],
    }));
    let general = state.room_data("general").unwrap();
    assert_eq!(
        general.users.to_vec(),
        vec![String::from("alice"), String::from("bob")]
    );
    assert_eq!(general.message_list().len(), 1);
}

#[test]
fn message_in_another_room_marks_it_unread() {
    let mut state = logged_in();
    assert!(state.try_set_active_room("general").is_some());
    state.handle_server_event(&user_message("rust", "bob", "psst"));
    state.handle_server_event(&user_message("general", "bob", "hello"));
    assert!(state.room_data("rust").unwrap().has_unread);
    assert!(!state.room_data("general").unwrap().has_unread);
    assert_eq!(
        state.room_data("rust").unwrap().message_list(),
        vec![text("bob", "psst")]
    );
    assert_eq!(
        state.room_data("general").unwrap().message_list(),
        vec![text("bob", "hello")]
    );
}

#[test]
fn message_without_an_active_room_marks_nothing() {
    let mut state = logged_in();
    state.handle_server_event(&user_message("rust", "bob", "psst"));
    assert!(!state.room_data("rust").unwrap().has_unread);
}

#[test]
fn history_is_added_in_order() {
    let mut state = logged_in();
    state.handle_server_event(&user_message("general", "bob", "live"));
    state.handle_server_event(&Event::HistoryResponse(HistoryResponseEvent {
        room: String::from("general"),
        history: vec![
            (String::from("alice"), String::from("one")),
            (String::from("bob"), String::from("two")),
        ],
    }));
    let general = state.room_data("general").unwrap();
    assert!(!general.first_time);
    assert_eq!(
        general.message_list(),
        vec![text("bob", "live"), text("alice", "one"), text("bob", "two")]
    );
    assert!(state.room_data("rust").unwrap().first_time);
}

#[test]
fn history_of_an_unknown_room_is_ignored() {
    let mut state = logged_in();
    state.handle_server_event(&Event::HistoryResponse(HistoryResponseEvent {
        room: String::from("go"),
        history: vec![(String::from("alice"), String::from("one"))],
    }));
    assert!(state.room_data("general").unwrap().first_time);
    assert!(state.room_data("rust").unwrap().first_time);
}

#[test]
fn message_box_keeps_the_latest_hundred() {
    let mut state = logged_in();
    for i in 0..100 {
        state.handle_server_event(&user_message("general", "bob", &format!("m{}", i)));
    }
    assert_eq!(state.room_data("general").unwrap().message_list().len(), 100);
    state.handle_server_event(&user_message("general", "bob", "m100"));
    let list = state.room_data("general").unwrap().message_list();
    assert_eq!(list.len(), 100);
    assert_eq!(list[0], text("bob", "m1"));
    assert_eq!(list[99], text("bob", "m100"));
}

#[test]
fn room_data_push_and_clone() {
    let mut room = RoomData::new(String::from("general"), String::from(""));
    for i in 0..103 {
        room.push_message(text("bob", &format!("m{}", i)));
    }
    room.note_participation("alice", &String::from("alice"), RoomParticipationStatus::Joined);
    let copy = room.clone();
    let list = copy.message_list();
    assert_eq!(list.len(), 100);
    assert_eq!(list[0], text("bob", "m4"));
    assert_eq!(list[98], text("bob", "m102"));
    assert_eq!(
        list[99],
        MessageBoxItem::Notification(String::from("alice has joined the room"))
    );
    assert_eq!(copy.messages.capacity(), 100);
    assert!(copy.has_joined);
    assert!(copy.users.contains("alice"));
    assert_eq!(copy.name, "general");
    assert_eq!(room.message_list(), list);
}

#[test]
fn expects_only_events_of_known_rooms() {
    let state = logged_in();
    assert!(state.expects(&user_message("general", "bob", "hi")));
    assert!(!state.expects(&user_message("go", "bob", "hi")));
    assert!(!state.expects(&Event::UserJoinedRoom(UserJoinedRoomReplyEvent {
        room: String::from("go"),
        users: Vec::new(),
    })));
    assert!(state.expects(&participation("go", "bob", RoomParticipationStatus::Joined)));
    assert!(state.expects(&login("bob", &[])));
    assert!(state.expects(&Event::HistoryResponse(HistoryResponseEvent {
        room: String::from("go"),
        history: Vec::new(),
    })));
}

#[test]
fn active_room_is_set_and_marked_read() {
    let mut state = logged_in();
    state.try_set_active_room("general");
    state.handle_server_event(&user_message("rust", "bob", "psst"));
    assert!(state.room_data("rust").unwrap().has_unread);
    {
        let data = state.try_set_active_room("rust").unwrap();
        assert_eq!(data.name, "rust");
        assert!(!data.has_unread);
    }
    assert_eq!(state.active_room, Some(String::from("rust")));
    assert!(state.try_set_active_room("go").is_none());
    assert_eq!(state.active_room, Some(String::from("rust")));
}

#[test]
fn first_time_is_reported_per_room() {
    let mut state = logged_in();
    assert_eq!(state.is_room_first_time("general"), Some(true));
    assert_eq!(state.is_room_first_time("go"), None);
    state.handle_server_event(&Event::HistoryResponse(HistoryResponseEvent {
        room: String::from("general"),
        history: Vec::new(),
    }));
    assert_eq!(state.is_room_first_time("general"), Some(false));
    assert_eq!(state.is_room_first_time("rust"), Some(true));
}

#[test]
fn connection_status_follows_the_attempt() {
    let mut state = State::new();
    state.mark_connection_request_start();
    assert_eq!(state.server_connection_status, ServerConnectionStatus::Connecting);
    state.process_connection_request_result(Ok(String::from("localhost:8080")));
    assert_eq!(
        state.server_connection_status,
        ServerConnectionStatus::Connected { addr: String::from("localhost:8080") }
    );
    state.process_connection_request_result(Err(String::from("refused")));
    assert_eq!(
        state.server_connection_status,
        ServerConnectionStatus::Errored { err: String::from("refused") }
    );
}

#[test]
fn status_in_words() {
    assert_eq!(ServerConnectionStatus::Uninitialized.to_text(), "Uninitialized");
    assert_eq!(ServerConnectionStatus::Connecting.to_text(), "Connecting");
    assert_eq!(
        ServerConnectionStatus::Connected { addr: String::from("localhost:8080") }.to_text(),
        "Connected to localhost:8080"
    );
    assert_eq!(
        ServerConnectionStatus::Errored { err: String::from("refused") }.to_text(),
        "Errored: refused"
    );
    let status = ServerConnectionStatus::Connected { addr: String::from("a") };
    assert_eq!(status.duplicate(), status);
}

#[test]
fn timer_counts_seconds() {
    let mut state = State::new();
    state.tick_timer();
    state.tick_timer();
    assert_eq!(state.timer, 2);
}

#[test]
fn state_clone_is_deep() {
    let mut state = logged_in();
    state.try_set_active_room("general");
    state.handle_server_event(&user_message("general", "bob", "hi"));
    let copy = state.clone();
    state.handle_server_event(&user_message("general", "bob", "later"));
    assert_eq!(copy.user_id, "alice");
    assert_eq!(copy.active_room, Some(String::from("general")));
    assert_eq!(copy.room_data_map.len(), 2);
    assert_eq!(
        copy.room_data("general").unwrap().message_list(),
        vec![text("bob", "hi")]
    );
    assert_eq!(state.room_data("general").unwrap().message_list().len(), 2);
}
