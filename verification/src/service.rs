//! The listener service core: one accepted connection carries one command
//! line in and one response line out.
//!
//! `handle_request` is the whole per-connection state machine — decode,
//! dispatch to the store, encode — pinned to the spec-level transition
//! `spec_handle_store` / `spec_handle_response`. Newline framing and the
//! snapshot duties of the leader (loading the session directory, the
//! periodic autosave) live here too; the sockets, files and timers that
//! drive them stay outside the library.

use vstd::prelude::*;
use crate::codec::{spec_session_chars, spec_decode_session, encode_session, decode_session,
    push_lit, chars_to_string, str_to_chars, no_nl};
use crate::digits::{spec_uuid_chars, push_uuid};
use crate::ids::{fresh_id, now_millis};
use crate::protocol::{SessionCommand, SessionResponse, CommandView, ResponseView,
    spec_decode_command, decode_command, spec_response_chars, encode_response};
use crate::session::{Session, SessionView, new_session_view};
use crate::store::{SessionStore, spec_upsert, spec_update, spec_lookup, updated_view};

verus! {

// ------------------------------------------------------------ the handler
/// The table after one connection's command has been served.
pub open spec fn spec_handle_store(
    s: Seq<SessionView>,
    t: Seq<char>,
    id: u128,
    now: i64,
) -> Seq<SessionView> {
    match spec_decode_command(t) {
        None => s,
        Some(CommandView::GetOrCreateSession) => spec_upsert(s, new_session_view(id, now)),
        Some(CommandView::GetSession(sid)) => s,
        Some(CommandView::UpdateSession(v)) => spec_update(s, v, now),
        Some(CommandView::ListSessions) => s,
    }
}

/// The response line (unframed) that one connection's command earns.
pub open spec fn spec_handle_response(
    s: Seq<SessionView>,
    t: Seq<char>,
    id: u128,
    now: i64,
) -> Seq<char> {
    match spec_decode_command(t) {
        None => spec_response_chars(ResponseView::Error("invalid command format"@)),
        Some(CommandView::GetOrCreateSession) => spec_response_chars(
            ResponseView::Session(new_session_view(id, now)),
        ),
        Some(CommandView::GetSession(sid)) => match spec_lookup(s, sid) {
            Some(v) => spec_response_chars(ResponseView::Session(v)),
            None => spec_response_chars(
                ResponseView::Error("Session not found: "@ + spec_uuid_chars(sid)),
            ),
        },
        Some(CommandView::UpdateSession(v)) => spec_response_chars(
            ResponseView::Session(updated_view(s, v, now)),
        ),
        Some(CommandView::ListSessions) => spec_response_chars(ResponseView::Sessions(s)),
    }
}

/// Serves one command line against the store: decode, dispatch, encode.
/// `new_id` and `now` are the identifier and timestamp the call may stamp;
/// a malformed line leaves the store untouched and earns an error response.
/// The handler never fails: every line earns exactly one response.
pub fn handle_request(store: &mut SessionStore, line: &str, new_id: u128, now: i64) -> (r: String)
    requires
        old(store).wf(),
    ensures
        final(store).wf(),
        final(store)@ == spec_handle_store(old(store)@, line@, new_id, now),
        r@ == spec_handle_response(old(store)@, line@, new_id, now),
{
    match decode_command(line) {
        None => {
            let msg: String = "invalid command format".to_owned();
            encode_response(&SessionResponse::Error(msg))
        }
        Some(SessionCommand::GetOrCreateSession) => {
            let s = store.get_or_create(new_id, now);
            encode_response(&SessionResponse::Session(s))
        }
        Some(SessionCommand::GetSession(id)) => {
            match store.get(id) {
                Some(s) => encode_response(&SessionResponse::Session(s)),
                None => {
                    let mut out: Vec<char> = Vec::new();
                    push_lit("Session not found: ", &mut out);
                    push_uuid(id, &mut out);
                    let msg = chars_to_string(&out);
                    encode_response(&SessionResponse::Error(msg))
                }
            }
        }
        Some(SessionCommand::UpdateSession(s)) => {
            let stored = store.update(s, now);
            encode_response(&SessionResponse::Session(stored))
        }
        Some(SessionCommand::ListSessions) => {
            let list = store.list();
            encode_response(&SessionResponse::Sessions(list))
        }
    }
}

/// Serves one command line, stamping a freshly drawn identifier and the
/// current time. Whatever the draw and the clock returned, the exchange
/// followed the handler's transition for those values.
pub fn handle_connection_line(store: &mut SessionStore, line: &str) -> (r: String)
    requires
        old(store).wf(),
    ensures
        final(store).wf(),
        exists|id: u128, now: i64|
            final(store)@ == spec_handle_store(old(store)@, line@, id, now) && r@
                == #[trigger] spec_handle_response(old(store)@, line@, id, now),
{
    let id = fresh_id();
    let now = now_millis();
    let r = handle_request(store, line, id, now);
    assert(final(store)@ == spec_handle_store(old(store)@, line@, id, now) && r@
        == spec_handle_response(old(store)@, line@, id, now));
    r
}

/// The response a connection earns when no complete command arrives within
/// the read window.
pub fn timeout_response() -> (r: String)
    ensures
        r@ == spec_response_chars(ResponseView::Error("timeout"@)),
{
    let msg: String = "timeout".to_owned();
    encode_response(&SessionResponse::Error(msg))
}

// ------------------------------------------------------------ framing
/// Splitting the buffered input at its first newline: the line before it
/// and everything after it.
pub open spec fn sp_line(t: Seq<char>) -> Option<(Seq<char>, Seq<char>)>
    decreases t.len(),
{
    if t.len() == 0 {
        None
    } else if t[0] == '\n' {
        Some((Seq::empty(), t.drop_first()))
    } else {
        match sp_line(t.drop_first()) {
            Some((l, r)) => Some((seq![t[0]] + l, r)),
            None => None,
        }
    }
}

/// Framing a newline-free payload and splitting it back yields the payload
/// and the rest of the buffer unchanged: one message each way per line.
pub proof fn lemma_line_round_trip(p: Seq<char>, rest: Seq<char>)
    requires
        no_nl(p),
    ensures
        sp_line(p + seq!['\n'] + rest) == Some((p, rest)),
    decreases p.len(),
{
    let t = p + seq!['\n'] + rest;
    if p.len() == 0 {
        assert(t[0] == '\n');
        assert(t.drop_first() =~= rest);
        assert(Seq::<char>::empty() =~= p);
    } else {
        assert(t[0] == p[0]);
        assert(p[0] != '\n');
        let p2 = p.drop_first();
        assert(forall|i: int| 0 <= i < p2.len() ==> p2[i] == p[i + 1]);
        assert(no_nl(p2));
        assert(t.drop_first() =~= p2 + seq!['\n'] + rest);
        lemma_line_round_trip(p2, rest);
        assert(seq![t[0]] + p2 =~= p);
    }
}

/// Frames one payload as a line.
pub fn frame_line(payload: &str) -> (r: String)
    ensures
        r@ == payload@ + seq!['\n'],
{
    let mut out = str_to_chars(payload);
    out.push('\n');
    assert(out@ =~= payload@ + seq!['\n']);
    chars_to_string(&out)
}

proof fn lemma_line_none(t: Seq<char>)
    requires
        no_nl(t),
    ensures
        sp_line(t) is None,
    decreases t.len(),
{
    if t.len() > 0 {
        let t2 = t.drop_first();
        assert(forall|i: int| 0 <= i < t2.len() ==> t2[i] == t[i + 1]);
        lemma_line_none(t2);
    }
}

proof fn lemma_line_at(t: Seq<char>, i: int)
    requires
        0 <= i < t.len(),
        t[i] == '\n',
        forall|k: int| 0 <= k < i ==> t[k] != '\n',
    ensures
        sp_line(t) == Some((t.take(i), t.skip(i + 1))),
    decreases i,
{
    if i == 0 {
        assert(t.take(0) =~= Seq::<char>::empty());
        assert(t.skip(1) =~= t.drop_first());
    } else {
        let t2 = t.drop_first();
        assert(forall|k: int| 0 <= k < t2.len() ==> t2[k] == t[k + 1]);
        lemma_line_at(t2, i - 1);
        assert(seq![t[0]] + t2.take(i - 1) =~= t.take(i));
        assert(t2.skip(i) =~= t.skip(i + 1));
    }
}

/// Splits the buffered input at its first newline, exactly as `sp_line`
/// does: the line before it (newline dropped) and everything after it.
/// With no newline buffered yet there is no complete line.
pub fn split_line(buf: &str) -> (r: Option<(String, String)>)
    ensures
        match r {
            Some((line, rest)) => sp_line(buf@) == Some((line@, rest@)),
            None => sp_line(buf@) is None,
        },
{
    let v = str_to_chars(buf);
    let len = v.len();
    let mut i: usize = 0;
    while i < len && v[i] != '\n'
        invariant
            i <= len,
            len == v@.len(),
            v@ == buf@,
            forall|k: int| 0 <= k < i ==> v@[k] != '\n',
        decreases len - i,
    {
        i = i + 1;
    }
    if i == len {
        proof {
            lemma_line_none(buf@);
        }
        return None;
    }
    proof {
        lemma_line_at(buf@, i as int);
    }
    let mut linev: Vec<char> = Vec::new();
    let mut k: usize = 0;
    while k < i
        invariant
            k <= i,
            i < len,
            len == v@.len(),
            v@ == buf@,
            linev@ == v@.take(k as int),
        decreases i - k,
    {
        linev.push(v[k]);
        assert(linev@ =~= v@.take(k + 1));
        k = k + 1;
    }
    let mut restv: Vec<char> = Vec::new();
    let mut k2: usize = i + 1;
    while k2 < len
        invariant
            i + 1 <= k2 <= len,
            len == v@.len(),
            v@ == buf@,
            restv@ == v@.subrange(i + 1, k2 as int),
        decreases len - k2,
    {
        restv.push(v[k2]);
        assert(restv@ =~= v@.subrange(i + 1, k2 + 1));
        k2 = k2 + 1;
    }
    assert(restv@ =~= v@.skip(i + 1));
    let line = chars_to_string(&linev);
    let rest = chars_to_string(&restv);
    Some((line, rest))
}

/// One command in: a framed command line, however the rest of the stream
/// continues, splits back into exactly that command's text and the rest.
pub proof fn lemma_framed_command_round_trip(c: CommandView, rest: Seq<char>)
    ensures
        sp_line(crate::protocol::spec_command_chars(c) + seq!['\n'] + rest) == Some(
            (crate::protocol::spec_command_chars(c), rest),
        ),
{
    crate::protocol::lemma_command_no_nl(c);
    lemma_line_round_trip(crate::protocol::spec_command_chars(c), rest);
}

/// One response out: a framed response line, however the rest of the stream
/// continues, splits back into exactly that response's text and the rest.
pub proof fn lemma_framed_response_round_trip(r: ResponseView, rest: Seq<char>)
    ensures
        sp_line(spec_response_chars(r) + seq!['\n'] + rest) == Some(
            (spec_response_chars(r), rest),
        ),
{
    crate::protocol::lemma_response_no_nl(r);
    lemma_line_round_trip(spec_response_chars(r), rest);
}

// ------------------------------------------------------------ snapshots
/// The snapshot file name of a session: its identifier text plus `.json`.
pub fn snapshot_file_name(id: u128) -> (r: String)
    ensures
        r@ == spec_uuid_chars(id) + ".json"@,
{
    let mut out: Vec<char> = Vec::new();
    push_uuid(id, &mut out);
    push_lit(".json", &mut out);
    chars_to_string(&out)
}

/// One autosave tick's worth of work, computed without touching a disk:
/// the snapshot file name and file content of every session in the store.
pub fn snapshot_all(store: &SessionStore) -> (r: Vec<(String, String)>)
    ensures
        r@.len() == store@.len(),
        forall|i: int| 0 <= i < r@.len() ==> (#[trigger] r@[i]).0@ == spec_uuid_chars(
            store@[i].id,
        ) + ".json"@ && r@[i].1@ == spec_session_chars(store@[i]),
{
    let list = store.list();
    let ghost views = list@.map_values(|s: Session| s@);
    let mut out: Vec<(String, String)> = Vec::new();
    let mut i: usize = 0;
    while i < list.len()
        invariant
            i <= list@.len(),
            views == list@.map_values(|s: Session| s@),
            views == store@,
            out@.len() == i,
            forall|k: int| 0 <= k < i ==> (#[trigger] out@[k]).0@ == spec_uuid_chars(
                store@[k].id,
            ) + ".json"@ && out@[k].1@ == spec_session_chars(store@[k]),
        decreases list@.len() - i,
    {
        assert(list@[i as int]@ == views[i as int]);
        let name = snapshot_file_name(list[i].id);
        let body = encode_session(&list[i]);
        out.push((name, body));
        i = i + 1;
    }
    out
}

/// Restores one snapshot file's text into the store, as leader startup does
/// for every file in the session directory. A malformed snapshot is
/// skipped — the store is left untouched and `false` comes back — and never
/// stops the load.
pub fn load_snapshot(store: &mut SessionStore, text: &str) -> (ok: bool)
    requires
        old(store).wf(),
    ensures
        final(store).wf(),
        match spec_decode_session(text@) {
            Some(v) => ok && final(store)@ == spec_upsert(old(store)@, v),
            None => !ok && final(store)@ == old(store)@,
        },
{
    match decode_session(text) {
        Some(s) => {
            store.put(s);
            true
        }
        None => false,
    }
}

} // verus!
