//! The client proxy core: how a follower turns what came back over one
//! short-lived connection into the result of a logical operation.
//!
//! The socket work — connect, write one framed command, wait up to the read
//! window for one framed response — happens outside the library and is
//! summed up as a `ProxyOutcome`. Everything after that point is decided
//! here, exactly: which replies succeed, which earn which typed failure,
//! and the local fallback that makes get-or-create the one operation that
//! never fails.

use vstd::prelude::*;
use crate::ids::{fresh_id, now_millis};
use crate::protocol::{SessionResponse, ResponseView, spec_decode_response, decode_response};
use crate::session::{Session, SessionView, new_session_view};

verus! {

/// What one round trip to the leader came to: a whole response line, no
/// connection at all, or no complete response within the read window.
pub enum ProxyOutcome {
    Reply(String),
    NoConnection,
    TimedOut,
}

/// The typed failures a follower surfaces: connection-level failure, the
/// read window exceeded, a malformed or unexpected reply (carrying its
/// message), a disk failure, and a lookup miss.
#[derive(Debug)]
pub enum SessionError {
    ConnectionFailure,
    Timeout,
    ProtocolError(String),
    IOFailure,
    SessionNotFound,
}

impl SessionError {
    /// A short description of the failure, for callers that print it.
    pub fn message(&self) -> (r: String)
        ensures
            match self {
                SessionError::ConnectionFailure => r@ == "connection failure"@,
                SessionError::Timeout => r@ == "timeout"@,
                SessionError::ProtocolError(m) => r@ == m@,
                SessionError::IOFailure => r@ == "i/o failure"@,
                SessionError::SessionNotFound => r@ == "session not found"@,
            },
    {
        match self {
            SessionError::ConnectionFailure => "connection failure".to_owned(),
            SessionError::Timeout => "timeout".to_owned(),
            SessionError::ProtocolError(m) => m.clone(),
            SessionError::IOFailure => "i/o failure".to_owned(),
            SessionError::SessionNotFound => "session not found".to_owned(),
        }
    }
}

/// What get-or-create comes to for a given outcome: the session the leader
/// returned, or — on any failure at all — a fresh, local, unpersisted
/// session stamped with the given identifier and time. The second component
/// says whether the session is local-only.
pub open spec fn spec_get_or_create_result(
    o: ProxyOutcome,
    fallback_id: u128,
    now: i64,
) -> (SessionView, bool) {
    match o {
        ProxyOutcome::Reply(line) => match spec_decode_response(line@) {
            Some(ResponseView::Session(v)) => (v, false),
            _ => (new_session_view(fallback_id, now), true),
        },
        _ => (new_session_view(fallback_id, now), true),
    }
}

/// Turns one get-or-create round trip into a session. This operation never
/// fails from the caller's point of view: when no leader is reachable, the
/// reply times out, or the reply does not carry a session, the caller gets
/// a valid local session built from `fallback_id` and `now` instead, and
/// the flag says so. A local session is never sent to the leader and stays
/// invisible to every list operation served there.
pub fn get_or_create_outcome(o: &ProxyOutcome, fallback_id: u128, now: i64) -> (r: (Session, bool))
    ensures
        (r.0@, r.1) == spec_get_or_create_result(*o, fallback_id, now),
{
    match o {
        ProxyOutcome::Reply(line) => match decode_response(line.as_str()) {
            Some(SessionResponse::Session(s)) => (s, false),
            _ => (Session::new_empty(fallback_id, now), true),
        },
        _ => (Session::new_empty(fallback_id, now), true),
    }
}

/// Turns one get-or-create round trip into a session, drawing the fallback
/// identifier and timestamp itself. Whatever the draw and the clock
/// returned, the result follows `spec_get_or_create_result` for those
/// values — in particular, a session-carrying reply wins regardless of
/// them, and the operation never fails.
pub fn resolve_get_or_create(o: &ProxyOutcome) -> (r: (Session, bool))
    ensures
        exists|id: u128, now: i64| (r.0@, r.1) == #[trigger] spec_get_or_create_result(
            *o,
            id,
            now,
        ),
{
    let id = fresh_id();
    let now = now_millis();
    let r = get_or_create_outcome(o, id, now);
    assert((r.0@, r.1) == spec_get_or_create_result(*o, id, now));
    r
}

/// Turns one get-session round trip into the caller's result. A
/// session-carrying reply is the session; an error reply is a lookup miss,
/// reported as absence; anything else is a typed failure.
pub fn get_session_from_reply(o: &ProxyOutcome) -> (r: Result<Option<Session>, SessionError>)
    ensures
        match o {
            ProxyOutcome::NoConnection => r matches Err(SessionError::ConnectionFailure),
            ProxyOutcome::TimedOut => r matches Err(SessionError::Timeout),
            ProxyOutcome::Reply(line) => match spec_decode_response(line@) {
                Some(ResponseView::Session(v)) => r matches Ok(Some(s)) && s@ == v,
                Some(ResponseView::Error(m)) => r matches Ok(None),
                Some(ResponseView::Sessions(l)) => r matches Err(SessionError::ProtocolError(m))
                    && m@ == "unexpected response"@,
                None => r matches Err(SessionError::ProtocolError(m)) && m@
                    == "malformed response"@,
            },
        },
{
    match o {
        ProxyOutcome::NoConnection => Err(SessionError::ConnectionFailure),
        ProxyOutcome::TimedOut => Err(SessionError::Timeout),
        ProxyOutcome::Reply(line) => match decode_response(line.as_str()) {
            Some(SessionResponse::Session(s)) => Ok(Some(s)),
            Some(SessionResponse::Error(_)) => Ok(None),
            Some(SessionResponse::Sessions(_)) => Err(
                SessionError::ProtocolError("unexpected response".to_owned()),
            ),
            None => Err(SessionError::ProtocolError("malformed response".to_owned())),
        },
    }
}

/// Turns one update round trip into the caller's result. A session-carrying
/// reply means the update was stored; an error reply is a typed failure
/// carrying the leader's message; anything else is a typed failure too.
pub fn update_from_reply(o: &ProxyOutcome) -> (r: Result<(), SessionError>)
    ensures
        match o {
            ProxyOutcome::NoConnection => r matches Err(SessionError::ConnectionFailure),
            ProxyOutcome::TimedOut => r matches Err(SessionError::Timeout),
            ProxyOutcome::Reply(line) => match spec_decode_response(line@) {
                Some(ResponseView::Session(v)) => r matches Ok(u),
                Some(ResponseView::Error(m)) => r matches Err(SessionError::ProtocolError(em))
                    && em@ == m,
                Some(ResponseView::Sessions(l)) => r matches Err(SessionError::ProtocolError(m))
                    && m@ == "unexpected response"@,
                None => r matches Err(SessionError::ProtocolError(m)) && m@
                    == "malformed response"@,
            },
        },
{
    match o {
        ProxyOutcome::NoConnection => Err(SessionError::ConnectionFailure),
        ProxyOutcome::TimedOut => Err(SessionError::Timeout),
        ProxyOutcome::Reply(line) => match decode_response(line.as_str()) {
            Some(SessionResponse::Session(_)) => Ok(()),
            Some(SessionResponse::Error(m)) => Err(SessionError::ProtocolError(m)),
            Some(SessionResponse::Sessions(_)) => Err(
                SessionError::ProtocolError("unexpected response".to_owned()),
            ),
            None => Err(SessionError::ProtocolError("malformed response".to_owned())),
        },
    }
}

/// Turns one list round trip into the caller's result. A list-carrying
/// reply is the sessions; an error reply is a typed failure carrying the
/// leader's message; anything else is a typed failure too.
pub fn list_from_reply(o: &ProxyOutcome) -> (r: Result<Vec<Session>, SessionError>)
    ensures
        match o {
            ProxyOutcome::NoConnection => r matches Err(SessionError::ConnectionFailure),
            ProxyOutcome::TimedOut => r matches Err(SessionError::Timeout),
            ProxyOutcome::Reply(line) => match spec_decode_response(line@) {
                Some(ResponseView::Sessions(l)) => r matches Ok(list) && list@.map_values(
                    |s: Session| s@,
                ) == l,
                Some(ResponseView::Error(m)) => r matches Err(SessionError::ProtocolError(em))
                    && em@ == m,
                Some(ResponseView::Session(v)) => r matches Err(SessionError::ProtocolError(m))
                    && m@ == "unexpected response"@,
                None => r matches Err(SessionError::ProtocolError(m)) && m@
                    == "malformed response"@,
            },
        },
{
    match o {
        ProxyOutcome::NoConnection => Err(SessionError::ConnectionFailure),
        ProxyOutcome::TimedOut => Err(SessionError::Timeout),
        ProxyOutcome::Reply(line) => match decode_response(line.as_str()) {
            Some(SessionResponse::Sessions(list)) => Ok(list),
            Some(SessionResponse::Error(m)) => Err(SessionError::ProtocolError(m)),
            Some(SessionResponse::Session(_)) => Err(
                SessionError::ProtocolError("unexpected response".to_owned()),
            ),
            None => Err(SessionError::ProtocolError("malformed response".to_owned())),
        },
    }
}

} // verus!
