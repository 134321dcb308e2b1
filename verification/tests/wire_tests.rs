use graph_os_cli::protocol::{decode_command, decode_response, encode_command, encode_response,
    SessionCommand, SessionResponse};
use graph_os_cli::service::{handle_connection_line, handle_request, timeout_response};
use graph_os_cli::session::{ChatMessage, Session};
use graph_os_cli::store::SessionStore;

fn user(text: &str) -> ChatMessage {
    ChatMessage::User(text.to_string())
}

#[test]
fn test_command_round_trips() {
    let texts = [
        encode_command(&SessionCommand::GetOrCreateSession),
        encode_command(&SessionCommand::ListSessions),
        encode_command(&SessionCommand::GetSession(77)),
        encode_command(&SessionCommand::UpdateSession(Session {
            id: 77,
            created_at: 1,
            last_active: 2,
            messages: vec![user("hey")],
        })),
    ];
    assert_eq!(texts[0], "\"GetOrCreateSession\"");
    assert_eq!(texts[1], "\"ListSessions\"");
    match decode_command(&texts[2]) {
        Some(SessionCommand::GetSession(id)) => assert_eq!(id, 77),
        _ => panic!("expected GetSession"),
    }
    match decode_command(&texts[3]) {
        Some(SessionCommand::UpdateSession(s)) => {
            assert_eq!(s.id, 77);
            assert_eq!(s.messages.len(), 1);
        }
        _ => panic!("expected UpdateSession"),
    }
    assert!(matches!(
        decode_command(&texts[0]),
        Some(SessionCommand::GetOrCreateSession)
    ));
    assert!(matches!(decode_command(&texts[1]), Some(SessionCommand::ListSessions)));
    assert!(decode_command("\"Nonsense\"").is_none());
    assert!(decode_command("").is_none());
}

#[test]
fn test_response_round_trips() {
    let s = Session { id: 9, created_at: 3, last_active: 4, messages: vec![] };
    let session_text = encode_response(&SessionResponse::Session(s));
    match decode_response(&session_text) {
        Some(SessionResponse::Session(back)) => assert_eq!(back.id, 9),
        _ => panic!("expected Session response"),
    }

    let list_text = encode_response(&SessionResponse::Sessions(vec![
        Session { id: 1, created_at: 0, last_active: 0, messages: vec![] },
        Session { id: 2, created_at: 0, last_active: 0, messages: vec![user("x")] },
    ]));
    match decode_response(&list_text) {
        Some(SessionResponse::Sessions(list)) => {
            assert_eq!(list.len(), 2);
            assert_eq!(list[0].id, 1);
            assert_eq!(list[1].id, 2);
        }
        _ => panic!("expected Sessions response"),
    }

    let err_text = encode_response(&SessionResponse::Error("boom \"quoted\"".to_string()));
    match decode_response(&err_text) {
        Some(SessionResponse::Error(m)) => assert_eq!(m, "boom \"quoted\""),
        _ => panic!("expected Error response"),
    }
    assert!(decode_response("{\"Other\":1}").is_none());
}

#[test]
fn test_handle_get_or_create() {
    let mut store = SessionStore::new();
    let line = encode_command(&SessionCommand::GetOrCreateSession);
    let reply = handle_request(&mut store, &line, 11, 500);
    match decode_response(&reply) {
        Some(SessionResponse::Session(s)) => {
            assert_eq!(s.id, 11);
            assert_eq!(s.created_at, 500);
            assert_eq!(s.last_active, 500);
            assert!(s.messages.is_empty());
        }
        _ => panic!("expected Session response"),
    }
    assert_eq!(store.len(), 1);
}

#[test]
fn test_handle_get_session_found_and_missing() {
    let mut store = SessionStore::new();
    store.get_or_create(3, 10);
    let found = handle_request(&mut store, &encode_command(&SessionCommand::GetSession(3)), 0, 0);
    assert!(matches!(decode_response(&found), Some(SessionResponse::Session(_))));

    let missing = handle_request(&mut store, &encode_command(&SessionCommand::GetSession(4)), 0, 0);
    match decode_response(&missing) {
        Some(SessionResponse::Error(m)) => {
            assert_eq!(m, "Session not found: 00000000-0000-0000-0000-000000000004");
        }
        _ => panic!("expected Error response"),
    }
}

#[test]
fn test_handle_update_session() {
    let mut store = SessionStore::new();
    store.get_or_create(8, 100);
    let update = Session { id: 8, created_at: 0, last_active: 0, messages: vec![user("hi")] };
    let line = encode_command(&SessionCommand::UpdateSession(update));
    let reply = handle_request(&mut store, &line, 0, 200);
    match decode_response(&reply) {
        Some(SessionResponse::Session(s)) => {
            assert_eq!(s.id, 8);
            assert_eq!(s.created_at, 100, "creation time must survive the update");
            assert_eq!(s.last_active, 200);
            assert_eq!(s.messages.len(), 1);
        }
        _ => panic!("expected Session response"),
    }
}

#[test]
fn test_handle_list_sessions() {
    let mut store = SessionStore::new();
    store.get_or_create(1, 10);
    store.get_or_create(2, 20);
    let reply = handle_request(&mut store, &encode_command(&SessionCommand::ListSessions), 0, 0);
    match decode_response(&reply) {
        Some(SessionResponse::Sessions(list)) => assert_eq!(list.len(), 2),
        _ => panic!("expected Sessions response"),
    }
}

#[test]
fn test_handle_malformed_line() {
    let mut store = SessionStore::new();
    store.get_or_create(1, 10);
    let reply = handle_request(&mut store, "this is not a command", 0, 0);
    match decode_response(&reply) {
        Some(SessionResponse::Error(m)) => assert_eq!(m, "invalid command format"),
        _ => panic!("expected Error response"),
    }
    // a bad line never touches the table
    assert_eq!(store.len(), 1);
}

#[test]
fn test_timeout_response_text() {
    let reply = timeout_response();
    match decode_response(&reply) {
        Some(SessionResponse::Error(m)) => assert_eq!(m, "timeout"),
        _ => panic!("expected Error response"),
    }
}

#[test]
fn test_handle_connection_line_stamps_fresh_session() {
    let mut store = SessionStore::new();
    let reply = handle_connection_line(
        &mut store,
        &encode_command(&SessionCommand::GetOrCreateSession),
    );
    match decode_response(&reply) {
        Some(SessionResponse::Session(s)) => {
            assert!(s.messages.is_empty());
            assert_eq!(s.created_at, s.last_active);
            assert_eq!(store.len(), 1);
            assert!(store.get(s.id).is_some());
        }
        _ => panic!("expected Session response"),
    }
}
