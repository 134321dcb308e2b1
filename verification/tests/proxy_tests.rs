use graph_os_cli::protocol::{encode_response, SessionResponse};
use graph_os_cli::proxy::{get_or_create_outcome, get_session_from_reply, list_from_reply,
    resolve_get_or_create, update_from_reply, ProxyOutcome, SessionError};
use graph_os_cli::session::Session;

fn session_reply(id: u128) -> ProxyOutcome {
    ProxyOutcome::Reply(encode_response(&SessionResponse::Session(Session {
        id,
        created_at: 1,
        last_active: 2,
        messages: vec![],
    })))
}

#[test]
fn test_get_or_create_uses_leader_session() {
    let (session, local) = get_or_create_outcome(&session_reply(42), 7, 99);
    assert!(!local);
    assert_eq!(session.id, 42);
}

#[test]
fn test_get_or_create_falls_back_without_leader() {
    // no leader reachable: a valid local session comes back, never a failure
    let (session, local) = get_or_create_outcome(&ProxyOutcome::NoConnection, 7, 99);
    assert!(local);
    assert_eq!(session.id, 7);
    assert_eq!(session.created_at, 99);
    assert_eq!(session.last_active, 99);
    assert!(session.messages.is_empty());

    let (s2, local2) = get_or_create_outcome(&ProxyOutcome::TimedOut, 8, 100);
    assert!(local2);
    assert_eq!(s2.id, 8);

    // a garbled reply degrades the same way instead of failing
    let (s3, local3) = get_or_create_outcome(&ProxyOutcome::Reply("garbage".to_string()), 9, 101);
    assert!(local3);
    assert_eq!(s3.id, 9);

    let (_, local4) = resolve_get_or_create(&ProxyOutcome::NoConnection);
    assert!(local4);
}

#[test]
fn test_get_session_reply_paths() {
    match get_session_from_reply(&session_reply(5)) {
        Ok(Some(s)) => assert_eq!(s.id, 5),
        _ => panic!("expected the session"),
    }
    // an error reply is a lookup miss, reported as absence
    let err_reply = ProxyOutcome::Reply(encode_response(&SessionResponse::Error(
        "Session not found: x".to_string(),
    )));
    assert!(matches!(get_session_from_reply(&err_reply), Ok(None)));
    assert!(matches!(
        get_session_from_reply(&ProxyOutcome::NoConnection),
        Err(SessionError::ConnectionFailure)
    ));
    assert!(matches!(
        get_session_from_reply(&ProxyOutcome::TimedOut),
        Err(SessionError::Timeout)
    ));
    assert!(matches!(
        get_session_from_reply(&ProxyOutcome::Reply("junk".to_string())),
        Err(SessionError::ProtocolError(_))
    ));
}

#[test]
fn test_update_reply_paths() {
    assert!(update_from_reply(&session_reply(5)).is_ok());
    let err_reply = ProxyOutcome::Reply(encode_response(&SessionResponse::Error(
        "broken".to_string(),
    )));
    match update_from_reply(&err_reply) {
        Err(SessionError::ProtocolError(m)) => assert_eq!(m, "broken"),
        _ => panic!("expected the carried message"),
    }
    assert!(matches!(
        update_from_reply(&ProxyOutcome::NoConnection),
        Err(SessionError::ConnectionFailure)
    ));
    assert!(matches!(update_from_reply(&ProxyOutcome::TimedOut), Err(SessionError::Timeout)));
}

#[test]
fn test_list_reply_paths() {
    let reply = ProxyOutcome::Reply(encode_response(&SessionResponse::Sessions(vec![
        Session { id: 1, created_at: 0, last_active: 0, messages: vec![] },
    ])));
    match list_from_reply(&reply) {
        Ok(list) => {
            assert_eq!(list.len(), 1);
            assert_eq!(list[0].id, 1);
        }
        _ => panic!("expected the list"),
    }
    // a single-session reply to a list call is a protocol error
    assert!(matches!(
        list_from_reply(&session_reply(1)),
        Err(SessionError::ProtocolError(_))
    ));
    assert!(matches!(
        list_from_reply(&ProxyOutcome::NoConnection),
        Err(SessionError::ConnectionFailure)
    ));
}

#[test]
fn test_error_messages() {
    assert_eq!(SessionError::ConnectionFailure.message(), "connection failure");
    assert_eq!(SessionError::Timeout.message(), "timeout");
    assert_eq!(SessionError::IOFailure.message(), "i/o failure");
    assert_eq!(SessionError::SessionNotFound.message(), "session not found");
    assert_eq!(SessionError::ProtocolError("why".to_string()).message(), "why");
}
