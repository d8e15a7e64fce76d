use chat_hub::identity::SessionAndUserId;
use chat_hub::user_registry::UserRegistry;
use chat_hub::user_set::UserSet;

#[test]
fn registry_starts_empty() {
    let registry = UserRegistry::new();
    assert!(registry.get_unique_user_ids().is_empty());
    assert!(!registry.contains(&SessionAndUserId::new("s1", "alice")));
}

#[test]
fn first_connection_of_a_user_makes_them_present() {
    let mut registry = UserRegistry::new();
    assert!(registry.insert(&SessionAndUserId::new("s1", "alice")));
    assert!(registry.contains(&SessionAndUserId::new("s1", "alice")));
    assert_eq!(registry.get_unique_user_ids(), vec![String::from("alice")]);
}

#[test]
fn second_connection_of_a_user_changes_no_presence() {
    let mut registry = UserRegistry::new();
    assert!(registry.insert(&SessionAndUserId::new("s1", "alice")));
    assert!(!registry.insert(&SessionAndUserId::new("s2", "alice")));
    assert_eq!(registry.get_unique_user_ids(), vec![String::from("alice")]);
}

#[test]
fn registering_a_connection_twice_changes_nothing() {
    let mut registry = UserRegistry::new();
    let id = SessionAndUserId::new("s1", "alice");
    assert!(registry.insert(&id));
    assert!(!registry.insert(&id));
    assert_eq!(registry.get_unique_user_ids(), vec![String::from("alice")]);
    assert!(registry.remove(&id));
    assert!(!registry.contains(&id));
    assert!(registry.get_unique_user_ids().is_empty());
}

#[test]
fn user_stays_present_until_the_last_connection_goes() {
    let mut registry = UserRegistry::new();
    let first = SessionAndUserId::new("s1", "alice");
    let second = SessionAndUserId::new("s2", "alice");
    registry.insert(&first);
    registry.insert(&second);
    assert!(!registry.remove(&first));
    assert_eq!(registry.get_unique_user_ids(), vec![String::from("alice")]);
    assert!(registry.remove(&second));
    assert!(registry.get_unique_user_ids().is_empty());
}

#[test]
fn removing_an_unregistered_connection_changes_nothing() {
    let mut registry = UserRegistry::new();
    registry.insert(&SessionAndUserId::new("s1", "alice"));
    assert!(!registry.remove(&SessionAndUserId::new("s9", "alice")));
    assert!(!registry.remove(&SessionAndUserId::new("s1", "bob")));
    assert!(!registry.remove(&SessionAndUserId::new("s9", "carol")));
    assert_eq!(registry.get_unique_user_ids(), vec![String::from("alice")]);
}

#[test]
fn users_are_listed_once_in_order_of_arrival() {
    let mut registry = UserRegistry::new();
    registry.insert(&SessionAndUserId::new("s1", "bob"));
    registry.insert(&SessionAndUserId::new("s2", "alice"));
    registry.insert(&SessionAndUserId::new("s3", "bob"));
    registry.insert(&SessionAndUserId::new("s4", "carol"));
    assert_eq!(
        registry.get_unique_user_ids(),
        vec![String::from("bob"), String::from("alice"), String::from("carol")]
    );
    registry.remove(&SessionAndUserId::new("s2", "alice"));
    assert_eq!(
        registry.get_unique_user_ids(),
        vec![String::from("bob"), String::from("carol")]
    );
}

#[test]
fn same_session_id_of_two_users_are_two_connections() {
    let mut registry = UserRegistry::new();
    assert!(registry.insert(&SessionAndUserId::new("s1", "alice")));
    assert!(registry.insert(&SessionAndUserId::new("s1", "bob")));
    assert!(registry.remove(&SessionAndUserId::new("s1", "alice")));
    assert_eq!(registry.get_unique_user_ids(), vec![String::from("bob")]);
}

#[test]
fn identities_compare_by_both_ids() {
    let id = SessionAndUserId::new("s1", "alice");
    assert!(id.same(&id.clone()));
    assert!(!id.same(&SessionAndUserId::new("s2", "alice")));
    assert!(!id.same(&SessionAndUserId::new("s1", "bob")));
    assert_eq!(id.session_id, "s1");
    assert_eq!(id.user_id, "alice");
}

#[test]
fn user_set_insert_and_remove() {
    let mut set = UserSet::new();
    assert_eq!(set.len(), 0);
    assert!(set.insert(String::from("alice")));
    assert!(!set.insert(String::from("alice")));
    assert!(set.insert(String::from("bob")));
    assert_eq!(set.len(), 2);
    assert!(set.contains("alice"));
    assert!(!set.contains("carol"));
    assert!(set.remove("alice"));
    assert!(!set.remove("alice"));
    assert_eq!(set.to_vec(), vec![String::from("bob")]);
}

#[test]
fn user_set_from_list_drops_repetitions() {
    let list = vec![
        String::from("bob"),
        String::from("alice"),
        String::from("bob"),
    ];
    let set = UserSet::from_list(&list);
    assert_eq!(set.to_vec(), vec![String::from("bob"), String::from("alice")]);
    let copy = set.clone();
    assert_eq!(copy.to_vec(), set.to_vec());
}
