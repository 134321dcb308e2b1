use graph_os_cli::session::{ChatMessage, Session};
use graph_os_cli::store::SessionStore;

fn user(text: &str) -> ChatMessage {
    ChatMessage::User(text.to_string())
}

fn assistant(text: &str) -> ChatMessage {
    ChatMessage::Assistant(text.to_string())
}

fn message_text(m: &ChatMessage) -> (&'static str, String) {
    match m {
        ChatMessage::User(t) => ("user", t.clone()),
        ChatMessage::Assistant(t) => ("assistant", t.clone()),
    }
}

#[test]
fn test_get_or_create_then_get() {
    let mut store = SessionStore::new();
    let created = store.get_or_create(7, 100);
    assert_eq!(created.id, 7);
    assert_eq!(created.created_at, 100);
    assert_eq!(created.last_active, 100);
    assert!(created.messages.is_empty());

    // idempotent lookup: the freshly created session reads back exactly
    let read = store.get(7).unwrap();
    assert_eq!(read.id, 7);
    assert_eq!(read.created_at, 100);
    assert_eq!(read.last_active, 100);
    assert!(read.messages.is_empty());
    assert!(store.get(8).is_none());
}

#[test]
fn test_update_stores_whole_message_sequence() {
    let mut store = SessionStore::new();
    store.get_or_create(1, 10);
    let update = Session {
        id: 1,
        created_at: 999,  // ignored: the stored creation time is preserved
        last_active: 999,
        messages: vec![user("hi"), assistant("hello")],
    };
    let stored = store.update(update, 20);
    assert_eq!(stored.id, 1);
    assert_eq!(stored.created_at, 10);
    assert_eq!(stored.last_active, 20);
    assert_eq!(stored.messages.len(), 2);

    let read = store.get(1).unwrap();
    assert_eq!(read.messages.len(), 2);
    assert_eq!(message_text(&read.messages[0]), ("user", "hi".to_string()));
    assert_eq!(message_text(&read.messages[1]), ("assistant", "hello".to_string()));
}

#[test]
fn test_last_write_wins() {
    let mut store = SessionStore::new();
    store.get_or_create(5, 1);
    let first = Session {
        id: 5,
        created_at: 1,
        last_active: 2,
        messages: vec![user("one"), user("two")],
    };
    store.update(first, 2);
    let second = Session { id: 5, created_at: 1, last_active: 3, messages: vec![user("three")] };
    store.update(second, 3);

    // the read is exactly the fields of the most recent update: one
    // message, never a merge of the two sequences
    let read = store.get(5).unwrap();
    assert_eq!(read.messages.len(), 1);
    assert_eq!(message_text(&read.messages[0]), ("user", "three".to_string()));
    assert_eq!(read.last_active, 3);
}

#[test]
fn test_created_at_immutable_across_updates() {
    let mut store = SessionStore::new();
    let created = store.get_or_create(9, 1234);
    assert_eq!(created.created_at, 1234);
    for step in 0..5 {
        let update = Session {
            id: 9,
            created_at: 777,  // an impostor value on every update
            last_active: 0,
            messages: vec![user("x")],
        };
        let stored = store.update(update, 2000 + step);
        assert_eq!(stored.created_at, 1234);
    }
    assert_eq!(store.get(9).unwrap().created_at, 1234);
}

#[test]
fn test_update_unknown_id_inserts() {
    let mut store = SessionStore::new();
    let update = Session { id: 42, created_at: 5, last_active: 6, messages: vec![] };
    let stored = store.update(update, 7);
    // insert-or-overwrite: no existence check, the entry appears
    assert_eq!(stored.created_at, 5);
    assert_eq!(stored.last_active, 7);
    assert_eq!(store.len(), 1);
    assert!(store.get(42).is_some());
}

#[test]
fn test_list_snapshots_all_sessions() {
    let mut store = SessionStore::new();
    store.get_or_create(1, 10);
    store.get_or_create(2, 20);
    store.get_or_create(3, 30);
    let all = store.list();
    assert_eq!(all.len(), 3);
    let mut ids: Vec<u128> = all.iter().map(|s| s.id).collect();
    ids.sort();
    assert_eq!(ids, vec![1, 2, 3]);
}

#[test]
fn test_get_or_create_same_id_overwrites() {
    let mut store = SessionStore::new();
    store.get_or_create(6, 1);
    store.update(
        Session { id: 6, created_at: 1, last_active: 1, messages: vec![user("m")] },
        2,
    );
    // a colliding create replaces the entry wholesale with a fresh session
    let fresh = store.get_or_create(6, 50);
    assert_eq!(fresh.created_at, 50);
    assert_eq!(store.len(), 1);
    let read = store.get(6).unwrap();
    assert!(read.messages.is_empty());
    assert_eq!(read.created_at, 50);
}
