use chat_hub::event::{
    Event, GetHistoryCommand, HistoryResponseEvent, JoinRoomCommand, LoginSuccessfulReplyEvent,
    RoomDetail, RoomParticipationBroadcastEvent, RoomParticipationStatus, SendMessageCommand,
    UserCommand,
};
use chat_hub::state::{ServerConnectionStatus, State};
use chat_hub::state_store::{
    publish_result, Action, Interrupted, StateStore, StoreControl, StoreError, StoreInput,
};

fn logged_in() -> State {
    let mut state = State::new();
    state.handle_server_event(&Event::LoginSuccessful(LoginSuccessfulReplyEvent {
        user_id: String::from("alice"),
        rooms: vec![RoomDetail {
            name: String::from("general"),
            description: String::from("for everything"),
        }],
    }));
    state
}

fn select(room: &str) -> StoreInput {
    StoreInput::Action(Action::SelectRoom { room: String::from(room) })
}

#[test]
fn published_state_reaches_the_receiver() {
    let (mut store, mut rx) = StateStore::new();
    let mut state = logged_in();
    state.tick_timer();
    assert_eq!(store.publish(&state), Ok(()));
    state.tick_timer();
    assert_eq!(store.publish(&state), Ok(()));
    let first = rx.try_recv().unwrap();
    assert_eq!(first.timer, 1);
    assert_eq!(first.user_id, "alice");
    assert!(first.room_data("general").is_some());
    assert_eq!(rx.try_recv().unwrap().timer, 2);
    assert!(rx.try_recv().is_err());
}

#[test]
fn publishing_fails_once_the_receiver_is_gone() {
    let (mut store, rx) = StateStore::new();
    drop(rx);
    assert_eq!(store.publish(&State::new()), Err(StoreError::ReceiverGone));
    assert_eq!(publish_result(Ok(())), Ok(()));
    assert_eq!(publish_result(Err(State::new())), Err(StoreError::ReceiverGone));
}

#[test]
fn connect_request_starts_a_connection() {
    let mut state = State::new();
    let step = StateStore::step(
        &mut state,
        false,
        StoreInput::Action(Action::ConnectToServerRequest { addr: String::from("localhost:1") }),
    );
    assert!(step.commands.is_empty());
    assert_eq!(step.control, StoreControl::Connect { addr: String::from("localhost:1") });
    assert_eq!(state.server_connection_status, ServerConnectionStatus::Connecting);
}

#[test]
fn connect_request_is_ignored_while_connected() {
    let mut state = logged_in();
    let step = StateStore::step(
        &mut state,
        true,
        StoreInput::Action(Action::ConnectToServerRequest { addr: String::from("localhost:1") }),
    );
    assert_eq!(step.control, StoreControl::Continue);
    assert_eq!(state.server_connection_status, ServerConnectionStatus::Uninitialized);
}

#[test]
fn connection_outcome_sets_the_status() {
    let mut state = State::new();
    let step = StateStore::step(
        &mut state,
        false,
        StoreInput::ConnectionOutcome(Ok(String::from("localhost:1"))),
    );
    assert_eq!(step.control, StoreControl::Connected);
    assert_eq!(
        state.server_connection_status,
        ServerConnectionStatus::Connected { addr: String::from("localhost:1") }
    );
    let step = StateStore::step(
        &mut state,
        false,
        StoreInput::ConnectionOutcome(Err(String::from("refused"))),
    );
    assert_eq!(step.control, StoreControl::Continue);
    assert_eq!(
        state.server_connection_status,
        ServerConnectionStatus::Errored { err: String::from("refused") }
    );
}

#[test]
fn selecting_a_room_joins_and_asks_for_history_once() {
    let mut state = logged_in();
    let step = StateStore::step(&mut state, true, select("general"));
    assert_eq!(step.control, StoreControl::Continue);
    assert_eq!(
        step.commands,
        vec![
            UserCommand::JoinRoom(JoinRoomCommand { room: String::from("general") }),
            UserCommand::GetHistory(GetHistoryCommand { room: String::from("general") }),
        ]
    );
    assert_eq!(state.active_room, Some(String::from("general")));

    StateStore::step(
        &mut state,
        true,
        StoreInput::ServerEvent(Event::RoomParticipation(RoomParticipationBroadcastEvent {
            room: String::from("general"),
            user_id: String::from("alice"),
            status: RoomParticipationStatus::Joined,
        })),
    );
    let step = StateStore::step(&mut state, true, select("general"));
    assert_eq!(
        step.commands,
        vec![UserCommand::GetHistory(GetHistoryCommand { room: String::from("general") })]
    );

    StateStore::step(
        &mut state,
        true,
        StoreInput::ServerEvent(Event::HistoryResponse(HistoryResponseEvent {
            room: String::from("general"),
            history: Vec::new(),
        })),
    );
    let step = StateStore::step(&mut state, true, select("general"));
    assert!(step.commands.is_empty());
}

#[test]
fn selecting_an_unknown_room_does_nothing() {
    let mut state = logged_in();
    let step = StateStore::step(&mut state, true, select("go"));
    assert!(step.commands.is_empty());
    assert_eq!(step.control, StoreControl::Continue);
    assert_eq!(state.active_room, None);
}

#[test]
fn selecting_while_disconnected_does_nothing() {
    let mut state = logged_in();
    let step = StateStore::step(&mut state, false, select("general"));
    assert!(step.commands.is_empty());
    assert_eq!(state.active_room, None);
}

#[test]
fn message_goes_to_the_active_room() {
    let mut state = logged_in();
    let step = StateStore::step(
        &mut state,
        true,
        StoreInput::Action(Action::SendMessage { content: String::from("lost") }),
    );
    assert!(step.commands.is_empty());
    StateStore::step(&mut state, true, select("general"));
    let step = StateStore::step(
        &mut state,
        true,
        StoreInput::Action(Action::SendMessage { content: String::from("hi") }),
    );
    assert_eq!(
        step.commands,
        vec![UserCommand::SendMessage(SendMessageCommand {
            room: String::from("general"),
            content: String::from("hi"),
        })]
    );
    assert_eq!(step.control, StoreControl::Continue);
    let step = StateStore::step(
        &mut state,
        false,
        StoreInput::Action(Action::SendMessage { content: String::from("offline") }),
    );
    assert!(step.commands.is_empty());
}

#[test]
fn exit_and_interrupt_stop_the_store() {
    for connected in [false, true] {
        let mut state = logged_in();
        let step = StateStore::step(&mut state, connected, StoreInput::Action(Action::Exit));
        assert_eq!(
            step.control,
            StoreControl::Exit { reason: Interrupted::UserInt, terminate: true }
        );
        let step = StateStore::step(
            &mut state,
            connected,
            StoreInput::Interrupt(Interrupted::OsSigInt),
        );
        assert_eq!(
            step.control,
            StoreControl::Exit { reason: Interrupted::OsSigInt, terminate: false }
        );
        assert_eq!(state.user_id, "alice");
    }
}

#[test]
fn closed_connection_resets_the_state() {
    let mut state = logged_in();
    state.tick_timer();
    let step = StateStore::step(&mut state, true, StoreInput::ServerClosed);
    assert_eq!(step.control, StoreControl::Disconnect);
    assert_eq!(state.user_id, "");
    assert_eq!(state.timer, 0);
    assert!(state.room_data_map.is_empty());
    assert_eq!(state.server_connection_status, ServerConnectionStatus::Uninitialized);
}

#[test]
fn ticks_and_faults() {
    let mut state = logged_in();
    let step = StateStore::step(&mut state, true, StoreInput::Tick);
    assert_eq!(step.control, StoreControl::Continue);
    assert_eq!(state.timer, 1);
    StateStore::step(&mut state, false, StoreInput::Tick);
    assert_eq!(state.timer, 1);
    let step = StateStore::step(&mut state, true, StoreInput::ServerFault);
    assert_eq!(step.control, StoreControl::Continue);
    assert!(step.commands.is_empty());
    assert_eq!(state.timer, 1);
    assert_eq!(state.user_id, "alice");
}

#[test]
fn server_events_count_only_while_connected() {
    let mut state = State::new();
    let login = Event::LoginSuccessful(LoginSuccessfulReplyEvent {
        user_id: String::from("alice"),
        rooms: Vec::new(),
    });
    StateStore::step(&mut state, false, StoreInput::ServerEvent(login.clone()));
    assert_eq!(state.user_id, "");
    StateStore::step(&mut state, true, StoreInput::ServerEvent(login));
    assert_eq!(state.user_id, "alice");
}
