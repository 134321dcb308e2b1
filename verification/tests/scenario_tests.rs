//! End-to-end scenarios over the verified core, with the sockets and files
//! played by plain values.

use graph_os_cli::history::{get_conversation_history, MessageRole};
use graph_os_cli::protocol::{decode_response, encode_command, SessionCommand, SessionResponse};
use graph_os_cli::proxy::{get_or_create_outcome, list_from_reply, ProxyOutcome};
use graph_os_cli::role::{next_startup_step, role_after_probe, Role, StartupStep};
use graph_os_cli::codec::encode_session;
use graph_os_cli::service::{handle_request, load_snapshot, snapshot_all, snapshot_file_name};
use graph_os_cli::session::{ChatMessage, Session};
use graph_os_cli::store::SessionStore;

fn expect_session(reply: &str) -> Session {
    match decode_response(reply) {
        Some(SessionResponse::Session(s)) => s,
        _ => panic!("expected a Session response"),
    }
}

#[test]
fn test_scenario_fresh_leader_create_update_get() {
    // a leader starts fresh with an empty session directory
    let mut store = SessionStore::new();

    // GetOrCreateSession -> id A
    let reply = handle_request(
        &mut store,
        &encode_command(&SessionCommand::GetOrCreateSession),
        0xA,
        1000,
    );
    let a = expect_session(&reply).id;
    assert_eq!(a, 0xA);

    // UpdateSession({id: A, messages: [User("hi")]})
    let update = Session {
        id: a,
        created_at: 1000,
        last_active: 1001,
        messages: vec![ChatMessage::User("hi".to_string())],
    };
    handle_request(&mut store, &encode_command(&SessionCommand::UpdateSession(update)), 0, 1001);

    // GetSession(A) -> exactly one message, User("hi")
    let got = expect_session(&handle_request(
        &mut store,
        &encode_command(&SessionCommand::GetSession(a)),
        0,
        1002,
    ));
    assert_eq!(got.id, a);
    assert_eq!(got.messages.len(), 1);
    match &got.messages[0] {
        ChatMessage::User(t) => assert_eq!(t, "hi"),
        _ => panic!("expected a user message"),
    }
}

#[test]
fn test_scenario_second_process_becomes_follower() {
    // the leader from the fresh-leader scenario still runs
    let mut leader = SessionStore::new();
    handle_request(&mut leader, &encode_command(&SessionCommand::GetOrCreateSession), 0xA, 1000);

    // a second process probes the port, connects, and resolves to follower
    assert_eq!(role_after_probe(true), Role::Follower);
    assert_eq!(next_startup_step(StartupStep::Probe, true), StartupStep::FollowerMode);

    // its ListSessions round trip includes id A
    let wire_command = encode_command(&SessionCommand::ListSessions);
    let wire_reply = handle_request(&mut leader, &wire_command, 0, 1001);
    let listed = list_from_reply(&ProxyOutcome::Reply(wire_reply)).unwrap();
    assert!(listed.iter().any(|s| s.id == 0xA));
}

#[test]
fn test_scenario_fresh_leader_reloads_snapshots() {
    // the first leader serves one session and persists its snapshots
    let mut first = SessionStore::new();
    handle_request(&mut first, &encode_command(&SessionCommand::GetOrCreateSession), 0xA, 1000);
    let files = snapshot_all(&first);
    assert_eq!(files.len(), 1);

    // the leader stops; a fresh process probes, finds the port free, and
    // becomes the leader
    assert_eq!(role_after_probe(false), Role::Leader);
    assert_eq!(next_startup_step(StartupStep::Probe, false), StartupStep::Bind);
    assert_eq!(next_startup_step(StartupStep::Bind, true), StartupStep::Serve);

    // startup load brings the persisted snapshot back; ListSessions
    // includes id A
    let mut second = SessionStore::new();
    for (_, body) in &files {
        assert!(load_snapshot(&mut second, body));
    }
    let listed = second.list();
    assert!(listed.iter().any(|s| s.id == 0xA));
}

#[test]
fn test_scenario_bind_race_falls_back_to_follower() {
    // probe fails, but another process wins the bind: retry the probe and
    // settle as follower instead of crashing
    let s1 = next_startup_step(StartupStep::Probe, false);
    assert_eq!(s1, StartupStep::Bind);
    let s2 = next_startup_step(s1, false);
    assert_eq!(s2, StartupStep::Probe);
    let s3 = next_startup_step(s2, true);
    assert_eq!(s3, StartupStep::FollowerMode);
}

#[test]
fn test_scenario_local_fallback_invisible_to_leader() {
    // no leader is reachable: get-or-create still returns a usable session
    let (local, is_local) = get_or_create_outcome(&ProxyOutcome::NoConnection, 0xB, 2000);
    assert!(is_local);
    assert_eq!(local.id, 0xB);

    // a later list served by a real leader does not contain the local id
    let mut leader = SessionStore::new();
    handle_request(&mut leader, &encode_command(&SessionCommand::GetOrCreateSession), 0xA, 1000);
    let reply = handle_request(&mut leader, &encode_command(&SessionCommand::ListSessions), 0, 0);
    let listed = list_from_reply(&ProxyOutcome::Reply(reply)).unwrap();
    assert!(!listed.iter().any(|s| s.id == 0xB));
}

#[test]
fn test_conversation_history_shape() {
    let history = get_conversation_history(&vec![
        ChatMessage::User("question".to_string()),
        ChatMessage::Assistant(String::new()),
        ChatMessage::Assistant("answer".to_string()),
    ]);
    // system prompt first, empty assistant placeholder dropped
    assert_eq!(history.len(), 3);
    assert_eq!(history[0].role, MessageRole::System);
    assert_eq!(history[0].content, "You are a helpful assistant.");
    assert_eq!(history[1].role, MessageRole::User);
    assert_eq!(history[1].content, "question");
    assert_eq!(history[2].role, MessageRole::Assistant);
    assert_eq!(history[2].content, "answer");
}

#[test]
fn test_autosave_tick_matches_per_session_snapshots() {
    let mut store = SessionStore::new();
    handle_request(&mut store, &encode_command(&SessionCommand::GetOrCreateSession), 0xA, 1);
    handle_request(&mut store, &encode_command(&SessionCommand::GetOrCreateSession), 0xB, 2);
    let files = snapshot_all(&store);
    assert_eq!(files.len(), 2);
    for ((name, body), session) in files.iter().zip(store.list().iter()) {
        assert_eq!(*name, snapshot_file_name(session.id));
        assert_eq!(*body, encode_session(session));
    }
}

#[test]
fn test_wire_level_last_write_wins() {
    let mut store = SessionStore::new();
    handle_request(&mut store, &encode_command(&SessionCommand::GetOrCreateSession), 0xC, 10);
    for text in ["first", "second", "third"] {
        let update = Session {
            id: 0xC,
            created_at: 0,
            last_active: 0,
            messages: vec![ChatMessage::User(text.to_string())],
        };
        handle_request(
            &mut store,
            &encode_command(&SessionCommand::UpdateSession(update)),
            0,
            20,
        );
    }
    let got = expect_session(&handle_request(
        &mut store,
        &encode_command(&SessionCommand::GetSession(0xC)),
        0,
        30,
    ));
    // exactly the fields of the most recent update, never a merge
    assert_eq!(got.messages.len(), 1);
    match &got.messages[0] {
        ChatMessage::User(t) => assert_eq!(t, "third"),
        _ => panic!("expected a user message"),
    }
    assert_eq!(got.created_at, 10);
}
