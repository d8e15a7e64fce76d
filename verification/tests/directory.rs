use chat_hub::chat_room::ChatRoomMetadata;
use chat_hub::identity::SessionAndUserId;
use chat_hub::room_manager::{RoomError, RoomManager};
use chat_hub::text::{clone_strings, str_equal};

fn metadata(name: &str, description: &str) -> ChatRoomMetadata {
    ChatRoomMetadata {
        name: String::from(name),
        description: String::from(description),
    }
}

fn fixed() -> RoomManager {
    RoomManager::new(
        vec![metadata("general", "for everything"), metadata("rust", "for crabs")],
        false,
    )
}

#[test]
fn configured_rooms_exist_from_the_start() {
    let rooms = fixed();
    assert_eq!(rooms.len(), 2);
    assert_eq!(rooms.find("general"), Some(0));
    assert_eq!(rooms.find("rust"), Some(1));
    assert_eq!(rooms.find("go"), None);
    assert_eq!(rooms.room(1).unwrap().metadata().description, "for crabs");
    assert!(rooms.room(2).is_none());
}

#[test]
fn first_entry_of_a_repeated_name_counts() {
    let rooms = RoomManager::new(
        vec![
            metadata("general", "first"),
            metadata("rust", "for crabs"),
            metadata("general", "second"),
        ],
        false,
    );
    assert_eq!(rooms.len(), 2);
    assert_eq!(rooms.room(0).unwrap().metadata().description, "first");
}

#[test]
fn get_or_create_twice_gives_the_same_room() {
    let mut rooms = RoomManager::new(Vec::new(), true);
    let first = rooms.get_or_create("general");
    let second = rooms.get_or_create("general");
    assert_eq!(first, Ok(0));
    assert_eq!(second, Ok(0));
    assert_eq!(rooms.len(), 1);
    assert_eq!(rooms.room(0).unwrap().metadata().name, "general");
    assert_eq!(rooms.room(0).unwrap().metadata().description, "");
    assert_eq!(rooms.get_or_create("rust"), Ok(1));
    assert_eq!(rooms.len(), 2);
}

#[test]
fn unknown_room_is_refused_where_rooms_are_fixed() {
    let mut rooms = fixed();
    assert_eq!(rooms.get_or_create("go"), Err(RoomError::RoomNotFound));
    assert_eq!(rooms.get_or_create("general"), Ok(0));
    assert_eq!(rooms.len(), 2);
    let refused = rooms.join_room("go", &SessionAndUserId::new("s1", "alice"));
    assert!(matches!(refused, Err(RoomError::RoomNotFound)));
    assert_eq!(rooms.len(), 2);
}

#[test]
fn join_room_reports_the_users_present() {
    let mut rooms = fixed();
    let (_rx1, handle, users) = rooms
        .join_room("general", &SessionAndUserId::new("s1", "alice"))
        .unwrap();
    assert_eq!(handle.room(), "general");
    assert_eq!(handle.user_id(), "alice");
    assert_eq!(users, vec![String::from("alice")]);
    let (_rx2, _bob, users) = rooms
        .join_room("general", &SessionAndUserId::new("s2", "bob"))
        .unwrap();
    assert_eq!(users, vec![String::from("alice"), String::from("bob")]);
    let (_rx3, _elsewhere, users) = rooms
        .join_room("rust", &SessionAndUserId::new("s1", "alice"))
        .unwrap();
    assert_eq!(users, vec![String::from("alice")]);
}

#[test]
fn join_room_creates_the_room_on_demand() {
    let mut rooms = RoomManager::new(Vec::new(), true);
    let (_rx, handle, users) = rooms
        .join_room("lobby", &SessionAndUserId::new("s1", "alice"))
        .unwrap();
    assert_eq!(handle.room(), "lobby");
    assert_eq!(users, vec![String::from("alice")]);
    assert_eq!(rooms.find("lobby"), Some(0));
}

#[test]
fn history_goes_through_the_handle() {
    let mut rooms = fixed();
    let (_rx, handle, _users) = rooms
        .join_room("rust", &SessionAndUserId::new("s1", "alice"))
        .unwrap();
    assert_eq!(rooms.add_room_history(&handle, String::from("hi")), Ok(()));
    assert_eq!(
        rooms.get_room_history(&handle),
        Ok(vec![(String::from("alice"), String::from("hi"))])
    );
    assert!(rooms.room(0).unwrap().get_message_history().is_empty());
}

#[test]
fn dropping_the_handle_ends_the_membership() {
    let mut rooms = fixed();
    let (_rx, handle, _users) = rooms
        .join_room("general", &SessionAndUserId::new("s1", "alice"))
        .unwrap();
    assert_eq!(rooms.drop_user_session_handle(handle), Ok(()));
    assert!(rooms.room(0).unwrap().get_unique_user_ids().is_empty());
}

#[test]
fn handle_of_a_missing_room_is_invalid() {
    let mut elsewhere = RoomManager::new(Vec::new(), true);
    let (_rx, handle, _users) = elsewhere
        .join_room("lobby", &SessionAndUserId::new("s1", "alice"))
        .unwrap();
    let mut rooms = fixed();
    assert_eq!(
        rooms.add_room_history(&handle, String::from("hi")),
        Err(RoomError::InvalidHandle)
    );
    assert_eq!(rooms.get_room_history(&handle), Err(RoomError::InvalidHandle));
    assert_eq!(
        rooms.drop_user_session_handle(handle),
        Err(RoomError::InvalidHandle)
    );
    assert_eq!(rooms.len(), 2);
}

#[test]
fn text_helpers() {
    assert!(str_equal("general", "general"));
    assert!(!str_equal("general", "General"));
    assert!(str_equal("", ""));
    let list = vec![String::from("a"), String::from("b")];
    assert_eq!(clone_strings(&list), list);
}
