use chat_hub::chat_room::{ChatMessage, ChatRoom, ChatRoomMetadata};
use chat_hub::channel::{receivers_reached, Publisher, BROADCAST_CHANNEL_CAPACITY};
use chat_hub::event::{
    participation_event, Event, RoomParticipationBroadcastEvent, RoomParticipationStatus,
    UserMessageBroadcastEvent,
};
use chat_hub::identity::SessionAndUserId;

fn general() -> ChatRoom {
    ChatRoom::new(ChatRoomMetadata {
        name: String::from("general"),
        description: String::from("for everything"),
    })
}

fn participation(user: &str, status: RoomParticipationStatus) -> Event {
    Event::RoomParticipation(RoomParticipationBroadcastEvent {
        room: String::from("general"),
        user_id: String::from(user),
        status,
    })
}

#[test]
fn new_room_is_empty() {
    let room = general();
    assert_eq!(room.metadata().name, "general");
    assert_eq!(room.metadata().description, "for everything");
    assert!(room.get_unique_user_ids().is_empty());
    assert!(room.get_message_history().is_empty());
}

#[test]
fn first_join_is_announced_to_the_joiner() {
    let mut room = general();
    let (mut rx, handle) = room.join(&SessionAndUserId::new("s1", "alice"));
    assert_eq!(handle.room(), "general");
    assert_eq!(handle.user_id(), "alice");
    assert_eq!(handle.session_id(), "s1");
    assert!(handle.identity().same(&SessionAndUserId::new("s1", "alice")));
    assert_eq!(
        rx.try_recv().unwrap(),
        participation("alice", RoomParticipationStatus::Joined)
    );
    assert!(rx.try_recv().is_err());
    assert_eq!(room.get_unique_user_ids(), vec![String::from("alice")]);
}

#[test]
fn second_session_of_a_user_is_not_announced() {
    let mut room = general();
    let (mut first_rx, _first) = room.join(&SessionAndUserId::new("s1", "alice"));
    assert!(first_rx.try_recv().is_ok());
    let (mut second_rx, _second) = room.join(&SessionAndUserId::new("s2", "alice"));
    assert!(first_rx.try_recv().is_err());
    assert!(second_rx.try_recv().is_err());
    assert_eq!(room.get_unique_user_ids(), vec![String::from("alice")]);
}

#[test]
fn leave_is_announced_only_for_the_last_session() {
    let mut room = general();
    let (mut watcher, _bob) = room.join(&SessionAndUserId::new("s0", "bob"));
    let (_rx1, first) = room.join(&SessionAndUserId::new("s1", "alice"));
    let (_rx2, second) = room.join(&SessionAndUserId::new("s2", "alice"));
    assert_eq!(
        watcher.try_recv().unwrap(),
        participation("bob", RoomParticipationStatus::Joined)
    );
    assert_eq!(
        watcher.try_recv().unwrap(),
        participation("alice", RoomParticipationStatus::Joined)
    );
    assert!(watcher.try_recv().is_err());

    room.leave(first);
    assert!(watcher.try_recv().is_err());
    assert_eq!(
        room.get_unique_user_ids(),
        vec![String::from("bob"), String::from("alice")]
    );

    room.leave(second);
    assert_eq!(
        watcher.try_recv().unwrap(),
        participation("alice", RoomParticipationStatus::Left)
    );
    assert!(watcher.try_recv().is_err());
    assert_eq!(room.get_unique_user_ids(), vec![String::from("bob")]);
}

#[test]
fn joins_and_leaves_of_one_user_across_sessions() {
    let mut room = general();
    let (mut watcher, _bob) = room.join(&SessionAndUserId::new("s0", "bob"));
    assert!(watcher.try_recv().is_ok());
    let mut announced = Vec::new();
    let (_a, h1) = room.join(&SessionAndUserId::new("s1", "alice"));
    let (_b, h2) = room.join(&SessionAndUserId::new("s2", "alice"));
    room.leave(h1);
    let (_c, h3) = room.join(&SessionAndUserId::new("s3", "alice"));
    room.leave(h2);
    room.leave(h3);
    let (_d, h4) = room.join(&SessionAndUserId::new("s4", "alice"));
    while let Ok(event) = watcher.try_recv() {
        announced.push(event);
    }
    assert_eq!(
        announced,
        vec![
            participation("alice", RoomParticipationStatus::Joined),
            participation("alice", RoomParticipationStatus::Left),
            participation("alice", RoomParticipationStatus::Joined),
        ]
    );
    assert_eq!(
        room.get_unique_user_ids(),
        vec![String::from("bob"), String::from("alice")]
    );
    room.leave(h4);
    assert_eq!(room.get_unique_user_ids(), vec![String::from("bob")]);
}

#[test]
fn handle_publishes_user_messages() {
    let mut room = general();
    let (mut rx, mut handle) = room.join(&SessionAndUserId::new("s1", "alice"));
    assert!(rx.try_recv().is_ok());
    let expected = Event::UserMessage(UserMessageBroadcastEvent {
        room: String::from("general"),
        user_id: String::from("alice"),
        content: String::from("hi"),
    });
    assert_eq!(handle.message_event(String::from("hi")), expected);
    assert_eq!(handle.send_message(String::from("hi")), 1);
    assert_eq!(rx.try_recv().unwrap(), expected);
    assert!(room.get_message_history().is_empty());
}

#[test]
fn publishing_without_subscribers_is_no_failure() {
    let mut room = general();
    let (rx, mut handle) = room.join(&SessionAndUserId::new("s1", "alice"));
    drop(rx);
    assert_eq!(handle.send_message(String::from("anyone?")), 0);
    let (mut late, _bob) = room.join(&SessionAndUserId::new("s2", "bob"));
    assert_eq!(
        late.try_recv().unwrap(),
        participation("bob", RoomParticipationStatus::Joined)
    );
    assert!(late.try_recv().is_err());
}

#[test]
fn publisher_counts_subscribers() {
    let mut publisher = Publisher::open(BROADCAST_CHANNEL_CAPACITY);
    let event = participation_event(
        &String::from("general"),
        &String::from("alice"),
        RoomParticipationStatus::Joined,
    );
    assert_eq!(event, participation("alice", RoomParticipationStatus::Joined));
    assert_eq!(publisher.publish(event.clone()), 0);
    let mut first = publisher.subscribe();
    let mut second = publisher.subscribe();
    assert_eq!(publisher.publish(event.clone()), 2);
    let mut other = publisher.handle();
    assert_eq!(other.publish(event.clone()), 2);
    assert_eq!(first.try_recv().unwrap(), event);
    assert_eq!(first.try_recv().unwrap(), event);
    assert!(first.try_recv().is_err());
    assert_eq!(second.try_recv().unwrap(), event);
}

#[test]
fn receivers_reached_is_zero_for_a_returned_event() {
    assert_eq!(receivers_reached(Ok(3)), 3);
    assert_eq!(
        receivers_reached(Err(participation("alice", RoomParticipationStatus::Left))),
        0
    );
}

#[test]
fn history_keeps_messages_in_order() {
    let mut room = general();
    room.add_message_to_history(String::from("alice"), String::from("one"));
    room.add_message_to_history(String::from("bob"), String::from("two"));
    assert_eq!(
        room.get_message_history(),
        vec![
            (String::from("alice"), String::from("one")),
            (String::from("bob"), String::from("two")),
        ]
    );
}

#[test]
fn history_holds_exactly_ten_at_capacity() {
    let mut room = general();
    for i in 1..=10 {
        room.add_message_to_history(String::from("alice"), format!("m{}", i));
    }
    let history = room.get_message_history();
    assert_eq!(history.len(), 10);
    assert_eq!(history[0].1, "m1");
    assert_eq!(history[9].1, "m10");
}

#[test]
fn eleventh_message_evicts_the_first() {
    let mut room = general();
    for i in 1..=11 {
        room.add_message_to_history(String::from("alice"), format!("m{}", i));
    }
    let expected: Vec<(String, String)> = (2..=11)
        .map(|i| (String::from("alice"), format!("m{}", i)))
        .collect();
    assert_eq!(room.get_message_history(), expected);
}

#[test]
fn history_never_exceeds_ten() {
    let mut room = general();
    for i in 0..35 {
        room.add_message_to_history(format!("u{}", i % 3), format!("m{}", i));
        assert!(room.get_message_history().len() <= 10);
    }
    let history = room.get_message_history();
    assert_eq!(history.len(), 10);
    assert_eq!(history[0], (String::from("u1"), String::from("m25")));
    assert_eq!(history[9], (String::from("u1"), String::from("m34")));
}

#[test]
fn recording_publishes_nothing() {
    let mut room = general();
    let (mut rx, _handle) = room.join(&SessionAndUserId::new("s1", "alice"));
    assert!(rx.try_recv().is_ok());
    room.add_message_to_history(String::from("alice"), String::from("quiet"));
    assert!(rx.try_recv().is_err());
}

#[test]
fn chat_message_accessors() {
    let message = ChatMessage::new(String::from("alice"), String::from("hi"));
    assert_eq!(message.user_id(), "alice");
    assert_eq!(message.content(), "hi");
    assert_eq!(message.clone(), message);
}
