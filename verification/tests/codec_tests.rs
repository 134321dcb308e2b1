use graph_os_cli::codec::{decode_session, encode_session};
use graph_os_cli::service::{frame_line, snapshot_file_name, split_line};
use graph_os_cli::session::{ChatMessage, Session};

fn user(text: &str) -> ChatMessage {
    ChatMessage::User(text.to_string())
}

fn assistant(text: &str) -> ChatMessage {
    ChatMessage::Assistant(text.to_string())
}

fn same_messages(a: &[ChatMessage], b: &[ChatMessage]) -> bool {
    a.len() == b.len() && a.iter().zip(b.iter()).all(|(x, y)| match (x, y) {
        (ChatMessage::User(s), ChatMessage::User(t)) => s == t,
        (ChatMessage::Assistant(s), ChatMessage::Assistant(t)) => s == t,
        _ => false,
    })
}

fn round_trips(s: &Session) {
    let text = encode_session(s);
    let back = decode_session(&text).expect("canonical snapshot must decode");
    assert_eq!(back.id, s.id);
    assert_eq!(back.created_at, s.created_at);
    assert_eq!(back.last_active, s.last_active);
    assert!(same_messages(&back.messages, &s.messages));
}

#[test]
fn test_encode_session_exact_text() {
    let s = Session { id: 0, created_at: 5, last_active: 6, messages: vec![user("hi")] };
    assert_eq!(
        encode_session(&s),
        "{\"id\":\"00000000-0000-0000-0000-000000000000\",\"created_at\":5,\"last_active\":6,\"messages\":[{\"User\":\"hi\"}]}"
    );
}

#[test]
fn test_snapshot_round_trip_empty() {
    round_trips(&Session { id: 1, created_at: 0, last_active: 0, messages: vec![] });
}

#[test]
fn test_snapshot_round_trip_escapes() {
    round_trips(&Session {
        id: 0x1234_5678_9abc_def0_1234_5678_9abc_def0,
        created_at: -42,
        last_active: 7,
        messages: vec![
            user("a\"b\\c\nd"),
            assistant("tab\tand\rreturn"),
            user("héllo ☃ unicode"),
            assistant(""),
        ],
    });
}

#[test]
fn test_snapshot_round_trip_extremes() {
    round_trips(&Session {
        id: u128::MAX,
        created_at: i64::MIN,
        last_active: i64::MAX,
        messages: vec![user("x")],
    });
}

#[test]
fn test_encode_escapes_control_characters() {
    let s = Session { id: 0, created_at: 0, last_active: 0, messages: vec![user("a\nb")] };
    let text = encode_session(&s);
    // the newline travels as a \u escape, so the snapshot stays on one line
    assert!(!text.contains('\n'));
    assert!(text.contains("a\\u000ab"));
}

#[test]
fn test_decode_rejects_malformed() {
    assert!(decode_session("").is_none());
    assert!(decode_session("{}").is_none());
    assert!(decode_session("not json at all").is_none());
    // truncated snapshot
    assert!(decode_session("{\"id\":\"00000000-0000-0000-0000-000000000000\",\"created_at\":5").is_none());
    // trailing content after a complete snapshot
    let good = "{\"id\":\"00000000-0000-0000-0000-000000000000\",\"created_at\":5,\"last_active\":6,\"messages\":[]}";
    assert!(decode_session(good).is_some());
    assert!(decode_session(&format!("{} ", good)).is_none());
}

#[test]
fn test_decode_rejects_non_canonical_numbers() {
    // leading zero
    assert!(decode_session("{\"id\":\"00000000-0000-0000-0000-000000000000\",\"created_at\":05,\"last_active\":6,\"messages\":[]}").is_none());
    // minus zero
    assert!(decode_session("{\"id\":\"00000000-0000-0000-0000-000000000000\",\"created_at\":-0,\"last_active\":6,\"messages\":[]}").is_none());
    // out of range
    assert!(decode_session("{\"id\":\"00000000-0000-0000-0000-000000000000\",\"created_at\":9223372036854775808,\"last_active\":6,\"messages\":[]}").is_none());
}

#[test]
fn test_decode_rejects_bad_identifiers() {
    // uppercase hexadecimal digits are not canonical
    assert!(decode_session("{\"id\":\"00000000-0000-0000-0000-00000000000A\",\"created_at\":5,\"last_active\":6,\"messages\":[]}").is_none());
    // hyphens out of place
    assert!(decode_session("{\"id\":\"000000000000-0000-0000-0000-00000000\",\"created_at\":5,\"last_active\":6,\"messages\":[]}").is_none());
}

#[test]
fn test_decode_rejects_non_canonical_escapes() {
    // \u escapes are only for control characters
    assert!(decode_session("{\"id\":\"00000000-0000-0000-0000-000000000000\",\"created_at\":5,\"last_active\":6,\"messages\":[{\"User\":\"\\u0041\"}]}").is_none());
    // a raw control character may not stand in a string
    assert!(decode_session("{\"id\":\"00000000-0000-0000-0000-000000000000\",\"created_at\":5,\"last_active\":6,\"messages\":[{\"User\":\"a\nb\"}]}").is_none());
}

#[test]
fn test_snapshot_file_name_format() {
    assert_eq!(
        snapshot_file_name(0),
        "00000000-0000-0000-0000-000000000000.json"
    );
    assert_eq!(
        snapshot_file_name(u128::MAX),
        "ffffffff-ffff-ffff-ffff-ffffffffffff.json"
    );
    assert_eq!(
        snapshot_file_name(0x1234_5678_9abc_def0_1122_3344_5566_7788),
        "12345678-9abc-def0-1122-334455667788.json"
    );
}

#[test]
fn test_frame_and_split_line() {
    let framed = frame_line("hello");
    assert_eq!(framed, "hello\n");
    let (line, rest) = split_line(&framed).unwrap();
    assert_eq!(line, "hello");
    assert_eq!(rest, "");

    let (line2, rest2) = split_line("one\ntwo\nthree").unwrap();
    assert_eq!(line2, "one");
    assert_eq!(rest2, "two\nthree");

    assert!(split_line("incomplete").is_none());
    assert!(split_line("").is_none());
}

#[test]
fn test_framed_snapshot_splits_back() {
    let s = Session {
        id: 3,
        created_at: 1,
        last_active: 2,
        messages: vec![user("line one\nline two")],
    };
    let payload = encode_session(&s);
    let framed = frame_line(&payload);
    let (line, rest) = split_line(&framed).unwrap();
    assert_eq!(line, payload);
    assert_eq!(rest, "");
    let back = decode_session(&line).unwrap();
    assert_eq!(back.id, 3);
}
