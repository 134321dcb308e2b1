//! The wire vocabulary: commands and responses, and their single-line JSON
//! encodings.
//!
//! Commands are `"GetOrCreateSession"`, `{"GetSession":"<id>"}`,
//! `{"UpdateSession":{...}}` and `"ListSessions"`; responses are
//! `{"Session":{...}}`, `{"Sessions":[...]}` and `{"Error":"..."}`. One
//! command goes out and one response comes back per connection, each as one
//! line.

use vstd::prelude::*;
use crate::codec::{sp_lit, lemma_lit_round, lemma_peel, lemma_skip_skip, spec_session_chars,
    sp_session, push_session, parse_session, lemma_session_chars_round_trip, push_lit, try_lit,
    chars_to_string, str_to_chars, no_nl, lemma_no_nl_concat, lemma_session_no_nl,
    lemma_quoted_no_nl};
use crate::digits::{spec_uuid_chars, sp_uuid, push_uuid, parse_uuid, lemma_uuid_round_trip};
use crate::escape::{spec_quoted, sp_string, lemma_string_round_trip, push_escaped, parse_string};
use crate::session::{Session, SessionView};

verus! {

/// One request of the coordination protocol.
pub enum SessionCommand {
    GetOrCreateSession,
    GetSession(u128),
    UpdateSession(Session),
    ListSessions,
}

/// Mathematical image of a `SessionCommand`.
pub ghost enum CommandView {
    GetOrCreateSession,
    GetSession(u128),
    UpdateSession(SessionView),
    ListSessions,
}

impl View for SessionCommand {
    type V = CommandView;

    open spec fn view(&self) -> CommandView {
        match self {
            SessionCommand::GetOrCreateSession => CommandView::GetOrCreateSession,
            SessionCommand::GetSession(id) => CommandView::GetSession(*id),
            SessionCommand::UpdateSession(s) => CommandView::UpdateSession(s@),
            SessionCommand::ListSessions => CommandView::ListSessions,
        }
    }
}

/// One reply of the coordination protocol.
pub enum SessionResponse {
    Session(Session),
    Sessions(Vec<Session>),
    Error(String),
}

/// Mathematical image of a `SessionResponse`.
pub ghost enum ResponseView {
    Session(SessionView),
    Sessions(Seq<SessionView>),
    Error(Seq<char>),
}

impl View for SessionResponse {
    type V = ResponseView;

    open spec fn view(&self) -> ResponseView {
        match self {
            SessionResponse::Session(s) => ResponseView::Session(s@),
            SessionResponse::Sessions(list) => ResponseView::Sessions(
                list@.map_values(|s: Session| s@),
            ),
            SessionResponse::Error(m) => ResponseView::Error(m@),
        }
    }
}

// ------------------------------------------------------------ session lists
/// The encoding of the items of a session list, comma-separated.
pub open spec fn spec_sessions_chars(list: Seq<SessionView>) -> Seq<char>
    decreases list.len(),
{
    if list.len() == 0 {
        Seq::empty()
    } else if list.len() == 1 {
        spec_session_chars(list[0])
    } else {
        spec_session_chars(list[0]) + seq![','] + spec_sessions_chars(list.drop_first())
    }
}

/// The encoding of a whole session list, brackets included.
pub open spec fn spec_session_list_chars(list: Seq<SessionView>) -> Seq<char> {
    seq!['['] + spec_sessions_chars(list) + seq![']']
}

/// Parsing the items of a nonempty session list, up to and including the
/// closing bracket.
pub open spec fn sp_sessions_items(t: Seq<char>) -> Option<(int, Seq<SessionView>)>
    decreases t.len(),
{
    match sp_session(t) {
        Some((n, s)) => {
            if n <= 0 {
                None
            } else if n < t.len() && t[n] == ',' {
                match sp_sessions_items(t.skip(n + 1)) {
                    Some((n2, list)) => Some((n + 1 + n2, seq![s] + list)),
                    None => None,
                }
            } else if n < t.len() && t[n] == ']' {
                Some((n + 1, seq![s]))
            } else {
                None
            }
        }
        None => None,
    }
}

/// Parsing a whole session list, brackets included.
#[verifier::opaque]
pub open spec fn sp_session_list(t: Seq<char>) -> Option<(int, Seq<SessionView>)> {
    if t.len() >= 1 && t[0] == '[' {
        if t.len() >= 2 && t[1] == ']' {
            Some((2, Seq::empty()))
        } else {
            match sp_sessions_items(t.drop_first()) {
                Some((n, list)) => Some((1 + n, list)),
                None => None,
            }
        }
    } else {
        None
    }
}

#[verifier::rlimit(60)]
proof fn lemma_sessions_items_round_trip(list: Seq<SessionView>, rest: Seq<char>)
    requires
        list.len() >= 1,
    ensures
        sp_sessions_items(spec_sessions_chars(list) + seq![']'] + rest) == Some(
            (spec_sessions_chars(list).len() as int + 1, list),
        ),
    decreases list.len(),
{
    let t = spec_sessions_chars(list) + seq![']'] + rest;
    let e0 = spec_session_chars(list[0]);
    if list.len() == 1 {
        assert(t =~= e0 + (seq![']'] + rest));
        lemma_session_chars_round_trip(list[0], seq![']'] + rest);
        let n = e0.len() as int;
        lemma_peel(e0, seq![']'] + rest);
        assert(t[n] == ']');
        assert(']' != ',');
        assert(seq![list[0]] =~= list);
    } else {
        let tail = spec_sessions_chars(list.drop_first());
        assert(spec_sessions_chars(list) == e0 + seq![','] + tail);
        let after = seq![','] + tail + seq![']'] + rest;
        assert(t =~= e0 + after);
        lemma_session_chars_round_trip(list[0], after);
        let n = e0.len() as int;
        assert(t[n] == ',');
        assert(t.skip(n + 1) =~= tail + seq![']'] + rest);
        lemma_sessions_items_round_trip(list.drop_first(), rest);
        assert(seq![list[0]] + list.drop_first() =~= list);
    }
}

/// Round trip for a whole session list.
pub proof fn lemma_session_list_round_trip(list: Seq<SessionView>, rest: Seq<char>)
    ensures
        spec_session_list_chars(list).len() >= 2,
        sp_session_list(spec_session_list_chars(list) + rest) == Some(
            (spec_session_list_chars(list).len() as int, list),
        ),
{
    reveal(sp_session_list);
    let t = spec_session_list_chars(list) + rest;
    assert(t[0] == '[');
    if list.len() == 0 {
        assert(t[1] == ']');
    } else {
        reveal_strlit("{\"id\":\"");
        let e0 = spec_session_chars(list[0]);
        assert(e0[0] == '{');
        assert(spec_sessions_chars(list)[0] == e0[0]);
        assert(t[1] == '{');
        assert(t.drop_first() =~= spec_sessions_chars(list) + seq![']'] + rest);
        lemma_sessions_items_round_trip(list, rest);
    }
}

/// Appends the encodings of the sessions from index `i` on, comma-separated.
fn push_sessions_from(list: &Vec<Session>, i: usize, out: &mut Vec<char>)
    requires
        i <= list@.len(),
    ensures
        final(out)@ == old(out)@ + spec_sessions_chars(
            list@.map_values(|s: Session| s@).skip(i as int),
        ),
    decreases list@.len() - i,
{
    let ghost views = list@.map_values(|s: Session| s@);
    if i < list.len() {
        push_session(&list[i], out);
        assert(views.skip(i as int)[0] == views[i as int]);
        if i + 1 < list.len() {
            out.push(',');
            push_sessions_from(list, i + 1, out);
            assert(views.skip(i as int).drop_first() =~= views.skip(i + 1));
            assert(views.skip(i as int).len() >= 2);
            assert(final(out)@ =~= old(out)@ + spec_sessions_chars(views.skip(i as int)));
        } else {
            assert(views.skip(i as int).len() == 1);
            assert(final(out)@ =~= old(out)@ + spec_sessions_chars(views.skip(i as int)));
        }
    } else {
        assert(views.skip(i as int).len() == 0);
        assert(final(out)@ =~= old(out)@ + spec_sessions_chars(views.skip(i as int)));
    }
}

/// Appends the encoding of a whole session list.
pub fn push_session_list(list: &Vec<Session>, out: &mut Vec<char>)
    ensures
        final(out)@ == old(out)@ + spec_session_list_chars(list@.map_values(|s: Session| s@)),
{
    let ghost views = list@.map_values(|s: Session| s@);
    out.push('[');
    push_sessions_from(list, 0, out);
    out.push(']');
    assert(views.skip(0) =~= views);
    assert(final(out)@ =~= old(out)@ + spec_session_list_chars(views));
}

/// Parses a whole session list at position `pos` of `v`, exactly as
/// `sp_session_list` reads the remaining input.
pub fn parse_session_list(v: &Vec<char>, pos: usize) -> (r: Option<(Vec<Session>, usize)>)
    requires
        pos <= v@.len(),
    ensures
        match r {
            Some((list, newpos)) => pos < newpos <= v@.len() && sp_session_list(
                v@.skip(pos as int),
            ) == Some((newpos - pos, list@.map_values(|s: Session| s@))),
            None => sp_session_list(v@.skip(pos as int)) is None,
        },
{
    proof {
        reveal(sp_session_list);
    }
    let ghost t = v@.skip(pos as int);
    let len = v.len();
    if pos >= len || v[pos] != '[' {
        assert(t.len() == 0 || t[0] != '[');
        return None;
    }
    assert(t[0] == v@[pos as int]);
    if pos + 1 < len && v[pos + 1] == ']' {
        assert(t[1] == v@[pos + 1]);
        let out: Vec<Session> = Vec::new();
        assert(out@.map_values(|s: Session| s@) =~= Seq::<SessionView>::empty());
        return Some((out, pos + 2));
    }
    let ghost b0 = t.drop_first();
    proof {
        assert(b0 =~= v@.skip(pos + 1));
        assert(t.len() >= 2 && t[1] == ']' ==> false);
    }
    let mut out: Vec<Session> = Vec::new();
    let mut p: usize = pos + 1;
    proof {
        if sp_sessions_items(b0) is Some {
            let (n, s) = sp_sessions_items(b0)->Some_0;
            assert(Seq::<SessionView>::empty() + s =~= s);
        }
    }
    loop
        invariant
            pos < len,
            pos + 1 <= p <= len,
            len == v@.len(),
            t == v@.skip(pos as int),
            t[0] == '[',
            t.len() >= 1,
            !(t.len() >= 2 && t[1] == ']'),
            b0 == v@.skip(pos + 1),
            t.drop_first() == b0,
            match sp_sessions_items(v@.skip(p as int)) {
                Some((n, list)) => sp_sessions_items(b0) == Some(
                    ((p - pos - 1) + n, out@.map_values(|s: Session| s@) + list),
                ),
                None => sp_sessions_items(b0) is None,
            },
        decreases len - p,
    {
        proof {
            reveal(sp_session_list);
        }
        let ghost tp = v@.skip(p as int);
        let ghost oldviews = out@.map_values(|s: Session| s@);
        match parse_session(v, p) {
            None => {
                assert(sp_sessions_items(tp) is None);
                assert(sp_session_list(t) is None);
                return None;
            }
            Some((s, p2)) => {
                let ghost n = (p2 - p) as int;
                assert(sp_session(tp) == Some((n, s@)));
                if p2 >= len {
                    assert(tp.len() == (len - p) as int);
                    assert(!(n < tp.len()));
                    assert(sp_sessions_items(tp) is None);
                    assert(sp_session_list(t) is None);
                    return None;
                }
                assert(tp[n] == v@[p2 as int]);
                let c = v[p2];
                if c == ',' {
                    proof {
                        assert(tp.skip(n + 1) =~= v@.skip(p2 + 1));
                        if sp_sessions_items(v@.skip(p2 + 1)) is Some {
                            let (n2, list) = sp_sessions_items(v@.skip(p2 + 1))->Some_0;
                            assert(sp_sessions_items(tp) == Some((n + 1 + n2, seq![s@] + list)));
                            assert((oldviews + seq![s@]) + list =~= oldviews + (seq![s@] + list));
                        }
                    }
                    out.push(s);
                    assert(out@.map_values(|ss: Session| ss@) =~= oldviews + seq![s@]);
                    p = p2 + 1;
                } else if c == ']' {
                    assert(sp_sessions_items(tp) == Some((n + 1, seq![s@])));
                    assert(oldviews + seq![s@] =~= oldviews.push(s@));
                    out.push(s);
                    assert(out@.map_values(|ss: Session| ss@) =~= oldviews.push(s@));
                    assert(sp_sessions_items(b0) == Some(
                        ((p2 + 1 - pos - 1) as int, out@.map_values(|ss: Session| ss@)),
                    ));
                    assert(sp_session_list(t) == Some(
                        ((p2 + 1 - pos) as int, out@.map_values(|ss: Session| ss@)),
                    ));
                    return Some((out, p2 + 1));
                } else {
                    assert(sp_sessions_items(tp) is None);
                    assert(sp_session_list(t) is None);
                    return None;
                }
            }
        }
    }
}

// ------------------------------------------------------------ commands
/// If some character of the input differs from the pattern, the pattern
/// does not match.
pub proof fn lemma_lit_mismatch(t: Seq<char>, pat: Seq<char>, i: int)
    requires
        0 <= i < pat.len(),
        i < t.len(),
        t[i] != pat[i],
    ensures
        sp_lit(t, pat) is None,
{
    if pat.len() <= t.len() && t.take(pat.len() as int) == pat {
        assert(t.take(pat.len() as int)[i] == t[i]);
        assert(false);
    }
}

/// The encoding of one command.
pub open spec fn spec_command_chars(c: CommandView) -> Seq<char> {
    match c {
        CommandView::GetOrCreateSession => "\"GetOrCreateSession\""@,
        CommandView::GetSession(id) => "{\"GetSession\":\""@ + spec_uuid_chars(id) + "\"}"@,
        CommandView::UpdateSession(v) => "{\"UpdateSession\":"@ + spec_session_chars(v) + "}"@,
        CommandView::ListSessions => "\"ListSessions\""@,
    }
}

/// Parsing one command from the front of the input.
#[verifier::opaque]
pub open spec fn sp_command(t: Seq<char>) -> Option<(int, CommandView)> {
    if sp_lit(t, "\"GetOrCreateSession\""@) is Some {
        Some(("\"GetOrCreateSession\""@.len() as int, CommandView::GetOrCreateSession))
    } else if sp_lit(t, "\"ListSessions\""@) is Some {
        Some(("\"ListSessions\""@.len() as int, CommandView::ListSessions))
    } else if sp_lit(t, "{\"GetSession\":\""@) is Some {
        let n1 = "{\"GetSession\":\""@.len() as int;
        match sp_uuid(t.skip(n1)) {
            Some((n2, id)) => match sp_lit(t.skip(n1 + n2), "\"}"@) {
                Some(n3) => Some((n1 + n2 + n3, CommandView::GetSession(id))),
                None => None,
            },
            None => None,
        }
    } else if sp_lit(t, "{\"UpdateSession\":"@) is Some {
        let n1 = "{\"UpdateSession\":"@.len() as int;
        match sp_session(t.skip(n1)) {
            Some((n2, v)) => match sp_lit(t.skip(n1 + n2), "}"@) {
                Some(n3) => Some((n1 + n2 + n3, CommandView::UpdateSession(v))),
                None => None,
            },
            None => None,
        }
    } else {
        None
    }
}

/// Decoding one whole command line.
pub open spec fn spec_decode_command(t: Seq<char>) -> Option<CommandView> {
    match sp_command(t) {
        Some((n, c)) => if n == t.len() {
            Some(c)
        } else {
            None
        },
        None => None,
    }
}

/// Round trip for one command followed by anything.
#[verifier::rlimit(60)]
pub proof fn lemma_command_chars_round_trip(c: CommandView, rest: Seq<char>)
    ensures
        sp_command(spec_command_chars(c) + rest) == Some(
            (spec_command_chars(c).len() as int, c),
        ),
{
    reveal(sp_command);
    reveal_strlit("\"GetOrCreateSession\"");
    reveal_strlit("\"ListSessions\"");
    reveal_strlit("{\"GetSession\":\"");
    reveal_strlit("{\"UpdateSession\":");
    reveal_strlit("\"}");
    reveal_strlit("}");
    let lg = "\"GetOrCreateSession\""@;
    let ll = "\"ListSessions\""@;
    let ls = "{\"GetSession\":\""@;
    let lu = "{\"UpdateSession\":"@;
    let t = spec_command_chars(c) + rest;
    match c {
        CommandView::GetOrCreateSession => {
            assert(t =~= lg + rest);
            lemma_lit_round(lg, rest);
        }
        CommandView::ListSessions => {
            assert(t =~= ll + rest);
            lemma_lit_round(ll, rest);
            assert(t[1] == 'L');
            lemma_lit_mismatch(t, lg, 1);
        }
        CommandView::GetSession(id) => {
            let e = spec_uuid_chars(id);
            let r1 = e + ("\"}"@ + rest);
            vstd::seq_lib::lemma_concat_associative(ls + e, "\"}"@, rest);
            vstd::seq_lib::lemma_concat_associative(ls, e, "\"}"@ + rest);
            assert(t == ls + r1);
            assert(t[0] == '{');
            lemma_lit_mismatch(t, lg, 0);
            lemma_lit_mismatch(t, ll, 0);
            lemma_lit_round(ls, r1);
            let n1 = ls.len() as int;
            assert(t.skip(n1) == r1);
            lemma_uuid_round_trip(id, "\"}"@ + rest);
            lemma_peel(e, "\"}"@ + rest);
            lemma_skip_skip(t, n1, 36);
            assert(t.skip(n1 + 36) == "\"}"@ + rest);
            lemma_lit_round("\"}"@, rest);
        }
        CommandView::UpdateSession(v) => {
            let e = spec_session_chars(v);
            let r1 = e + ("}"@ + rest);
            vstd::seq_lib::lemma_concat_associative(lu + e, "}"@, rest);
            vstd::seq_lib::lemma_concat_associative(lu, e, "}"@ + rest);
            assert(t == lu + r1);
            assert(t[0] == '{');
            lemma_lit_mismatch(t, lg, 0);
            lemma_lit_mismatch(t, ll, 0);
            assert(t[2] == 'U');
            lemma_lit_mismatch(t, ls, 2);
            lemma_lit_round(lu, r1);
            let n1 = lu.len() as int;
            assert(t.skip(n1) == r1);
            lemma_session_chars_round_trip(v, "}"@ + rest);
            lemma_peel(e, "}"@ + rest);
            let n2 = e.len() as int;
            lemma_skip_skip(t, n1, n2);
            assert(t.skip(n1 + n2) == "}"@ + rest);
            lemma_lit_round("}"@, rest);
        }
    }
}

/// Decoding the encoding of any command yields that command back.
pub proof fn lemma_command_round_trip(c: CommandView)
    ensures
        spec_decode_command(spec_command_chars(c)) == Some(c),
{
    lemma_command_chars_round_trip(c, Seq::empty());
    assert(spec_command_chars(c) + Seq::<char>::empty() =~= spec_command_chars(c));
}

/// The single-line wire text of a command.
pub fn encode_command(c: &SessionCommand) -> (r: String)
    ensures
        r@ == spec_command_chars(c@),
{
    let mut out: Vec<char> = Vec::new();
    match c {
        SessionCommand::GetOrCreateSession => {
            push_lit("\"GetOrCreateSession\"", &mut out);
        }
        SessionCommand::ListSessions => {
            push_lit("\"ListSessions\"", &mut out);
        }
        SessionCommand::GetSession(id) => {
            push_lit("{\"GetSession\":\"", &mut out);
            push_uuid(*id, &mut out);
            push_lit("\"}", &mut out);
        }
        SessionCommand::UpdateSession(s) => {
            push_lit("{\"UpdateSession\":", &mut out);
            push_session(s, &mut out);
            push_lit("}", &mut out);
        }
    }
    assert(out@ =~= spec_command_chars(c@));
    chars_to_string(&out)
}

/// Decodes one whole command line. Malformed text gives `None`.
pub fn decode_command(line: &str) -> (r: Option<SessionCommand>)
    ensures
        match r {
            Some(c) => spec_decode_command(line@) == Some(c@),
            None => spec_decode_command(line@) is None,
        },
{
    proof {
        reveal(sp_command);
    }
    let v = str_to_chars(line);
    assert(v@.skip(0) =~= line@);
    let parsed: Option<(SessionCommand, usize)> = if let Some(p1) = try_lit(
        &v,
        0,
        "\"GetOrCreateSession\"",
    ) {
        Some((SessionCommand::GetOrCreateSession, p1))
    } else if let Some(p1) = try_lit(&v, 0, "\"ListSessions\"") {
        Some((SessionCommand::ListSessions, p1))
    } else if let Some(p1) = try_lit(&v, 0, "{\"GetSession\":\"") {
        proof {
            lemma_skip_skip(v@, 0, p1 as int);
        }
        match parse_uuid(&v, p1) {
            Some((id, p2)) => {
                proof {
                    lemma_skip_skip(v@, 0, p2 as int);
                }
                match try_lit(&v, p2, "\"}") {
                    Some(p3) => Some((SessionCommand::GetSession(id), p3)),
                    None => None,
                }
            }
            None => None,
        }
    } else if let Some(p1) = try_lit(&v, 0, "{\"UpdateSession\":") {
        proof {
            lemma_skip_skip(v@, 0, p1 as int);
        }
        match parse_session(&v, p1) {
            Some((s, p2)) => {
                proof {
                    lemma_skip_skip(v@, 0, p2 as int);
                }
                match try_lit(&v, p2, "}") {
                    Some(p3) => Some((SessionCommand::UpdateSession(s), p3)),
                    None => None,
                }
            }
            None => None,
        }
    } else {
        None
    };
    match parsed {
        Some((c, p)) => {
            assert(sp_command(line@) == Some((p as int, c@)));
            if p == v.len() {
                Some(c)
            } else {
                None
            }
        }
        None => {
            assert(sp_command(line@) is None);
            None
        }
    }
}

// ------------------------------------------------------------ responses
/// The encoding of one response.
pub open spec fn spec_response_chars(r: ResponseView) -> Seq<char> {
    match r {
        ResponseView::Session(v) => "{\"Session\":"@ + spec_session_chars(v) + "}"@,
        ResponseView::Sessions(list) => "{\"Sessions\":"@ + spec_session_list_chars(list) + "}"@,
        ResponseView::Error(m) => "{\"Error\":"@ + spec_quoted(m) + "}"@,
    }
}

/// Parsing one response from the front of the input.
#[verifier::opaque]
pub open spec fn sp_response(t: Seq<char>) -> Option<(int, ResponseView)> {
    if sp_lit(t, "{\"Error\":"@) is Some {
        let n1 = "{\"Error\":"@.len() as int;
        match sp_string(t.skip(n1)) {
            Some((n2, m)) => match sp_lit(t.skip(n1 + n2), "}"@) {
                Some(n3) => Some((n1 + n2 + n3, ResponseView::Error(m))),
                None => None,
            },
            None => None,
        }
    } else if sp_lit(t, "{\"Sessions\":"@) is Some {
        let n1 = "{\"Sessions\":"@.len() as int;
        match sp_session_list(t.skip(n1)) {
            Some((n2, list)) => match sp_lit(t.skip(n1 + n2), "}"@) {
                Some(n3) => Some((n1 + n2 + n3, ResponseView::Sessions(list))),
                None => None,
            },
            None => None,
        }
    } else if sp_lit(t, "{\"Session\":"@) is Some {
        let n1 = "{\"Session\":"@.len() as int;
        match sp_session(t.skip(n1)) {
            Some((n2, v)) => match sp_lit(t.skip(n1 + n2), "}"@) {
                Some(n3) => Some((n1 + n2 + n3, ResponseView::Session(v))),
                None => None,
            },
            None => None,
        }
    } else {
        None
    }
}

/// Decoding one whole response line.
pub open spec fn spec_decode_response(t: Seq<char>) -> Option<ResponseView> {
    match sp_response(t) {
        Some((n, r)) => if n == t.len() {
            Some(r)
        } else {
            None
        },
        None => None,
    }
}

/// Round trip for one response followed by anything.
#[verifier::rlimit(60)]
pub proof fn lemma_response_chars_round_trip(r: ResponseView, rest: Seq<char>)
    ensures
        sp_response(spec_response_chars(r) + rest) == Some(
            (spec_response_chars(r).len() as int, r),
        ),
{
    reveal(sp_response);
    reveal_strlit("{\"Error\":");
    reveal_strlit("{\"Sessions\":");
    reveal_strlit("{\"Session\":");
    reveal_strlit("}");
    let le = "{\"Error\":"@;
    let lss = "{\"Sessions\":"@;
    let lso = "{\"Session\":"@;
    let t = spec_response_chars(r) + rest;
    match r {
        ResponseView::Error(m) => {
            let e = spec_quoted(m);
            let r1 = e + ("}"@ + rest);
            vstd::seq_lib::lemma_concat_associative(le + e, "}"@, rest);
            vstd::seq_lib::lemma_concat_associative(le, e, "}"@ + rest);
            assert(t == le + r1);
            lemma_lit_round(le, r1);
            let n1 = le.len() as int;
            assert(t.skip(n1) == r1);
            lemma_string_round_trip(m, "}"@ + rest);
            lemma_peel(e, "}"@ + rest);
            let n2 = e.len() as int;
            lemma_skip_skip(t, n1, n2);
            assert(t.skip(n1 + n2) == "}"@ + rest);
            lemma_lit_round("}"@, rest);
        }
        ResponseView::Sessions(list) => {
            let e = spec_session_list_chars(list);
            let r1 = e + ("}"@ + rest);
            vstd::seq_lib::lemma_concat_associative(lss + e, "}"@, rest);
            vstd::seq_lib::lemma_concat_associative(lss, e, "}"@ + rest);
            assert(t == lss + r1);
            assert(t[2] == 'S');
            lemma_lit_mismatch(t, le, 2);
            lemma_lit_round(lss, r1);
            let n1 = lss.len() as int;
            assert(t.skip(n1) == r1);
            lemma_session_list_round_trip(list, "}"@ + rest);
            lemma_peel(e, "}"@ + rest);
            let n2 = e.len() as int;
            lemma_skip_skip(t, n1, n2);
            assert(t.skip(n1 + n2) == "}"@ + rest);
            lemma_lit_round("}"@, rest);
        }
        ResponseView::Session(v) => {
            let e = spec_session_chars(v);
            let r1 = e + ("}"@ + rest);
            vstd::seq_lib::lemma_concat_associative(lso + e, "}"@, rest);
            vstd::seq_lib::lemma_concat_associative(lso, e, "}"@ + rest);
            assert(t == lso + r1);
            assert(t[2] == 'S');
            lemma_lit_mismatch(t, le, 2);
            // the session body opens with a brace where the plural key
            // carries its trailing `s`
            reveal_strlit("{\"id\":\"");
            assert(e[0] == '{');
            assert(t[11] == '{');
            lemma_lit_mismatch(t, lss, 11);
            lemma_lit_round(lso, r1);
            let n1 = lso.len() as int;
            assert(t.skip(n1) == r1);
            lemma_session_chars_round_trip(v, "}"@ + rest);
            lemma_peel(e, "}"@ + rest);
            let n2 = e.len() as int;
            lemma_skip_skip(t, n1, n2);
            assert(t.skip(n1 + n2) == "}"@ + rest);
            lemma_lit_round("}"@, rest);
        }
    }
}

/// Decoding the encoding of any response yields that response back.
pub proof fn lemma_response_round_trip(r: ResponseView)
    ensures
        spec_decode_response(spec_response_chars(r)) == Some(r),
{
    lemma_response_chars_round_trip(r, Seq::empty());
    assert(spec_response_chars(r) + Seq::<char>::empty() =~= spec_response_chars(r));
}

/// The single-line wire text of a response.
pub fn encode_response(r: &SessionResponse) -> (res: String)
    ensures
        res@ == spec_response_chars(r@),
{
    let mut out: Vec<char> = Vec::new();
    match r {
        SessionResponse::Session(s) => {
            push_lit("{\"Session\":", &mut out);
            push_session(s, &mut out);
            push_lit("}", &mut out);
        }
        SessionResponse::Sessions(list) => {
            push_lit("{\"Sessions\":", &mut out);
            push_session_list(list, &mut out);
            push_lit("}", &mut out);
        }
        SessionResponse::Error(m) => {
            push_lit("{\"Error\":", &mut out);
            push_lit("\"", &mut out);
            push_escaped(m.as_str(), &mut out);
            push_lit("\"", &mut out);
            push_lit("}", &mut out);
            proof {
                reveal_strlit("\"");
                assert("\""@ =~= seq!['"']);
            }
        }
    }
    assert(out@ =~= spec_response_chars(r@));
    chars_to_string(&out)
}

/// Decodes one whole response line. Malformed text gives `None`.
pub fn decode_response(line: &str) -> (r: Option<SessionResponse>)
    ensures
        match r {
            Some(resp) => spec_decode_response(line@) == Some(resp@),
            None => spec_decode_response(line@) is None,
        },
{
    proof {
        reveal(sp_response);
    }
    let v = str_to_chars(line);
    assert(v@.skip(0) =~= line@);
    let parsed: Option<(SessionResponse, usize)> = if let Some(p1) = try_lit(&v, 0, "{\"Error\":") {
        proof {
            lemma_skip_skip(v@, 0, p1 as int);
        }
        match parse_string(&v, p1) {
            Some((body, p2)) => {
                proof {
                    lemma_skip_skip(v@, 0, p2 as int);
                }
                match try_lit(&v, p2, "}") {
                    Some(p3) => Some((SessionResponse::Error(chars_to_string(&body)), p3)),
                    None => None,
                }
            }
            None => None,
        }
    } else if let Some(p1) = try_lit(&v, 0, "{\"Sessions\":") {
        proof {
            lemma_skip_skip(v@, 0, p1 as int);
        }
        match parse_session_list(&v, p1) {
            Some((list, p2)) => {
                proof {
                    lemma_skip_skip(v@, 0, p2 as int);
                }
                match try_lit(&v, p2, "}") {
                    Some(p3) => Some((SessionResponse::Sessions(list), p3)),
                    None => None,
                }
            }
            None => None,
        }
    } else if let Some(p1) = try_lit(&v, 0, "{\"Session\":") {
        proof {
            lemma_skip_skip(v@, 0, p1 as int);
        }
        match parse_session(&v, p1) {
            Some((s, p2)) => {
                proof {
                    lemma_skip_skip(v@, 0, p2 as int);
                }
                match try_lit(&v, p2, "}") {
                    Some(p3) => Some((SessionResponse::Session(s), p3)),
                    None => None,
                }
            }
            None => None,
        }
    } else {
        None
    };
    match parsed {
        Some((resp, p)) => {
            assert(sp_response(line@) == Some((p as int, resp@)));
            if p == v.len() {
                Some(resp)
            } else {
                None
            }
        }
        None => {
            assert(sp_response(line@) is None);
            None
        }
    }
}

// ------------------------------------------------------------ newlines
/// An encoded session list never holds a raw newline.
pub proof fn lemma_session_list_no_nl(list: Seq<SessionView>)
    ensures
        no_nl(spec_sessions_chars(list)),
        no_nl(spec_session_list_chars(list)),
    decreases list.len(),
{
    if list.len() == 0 {
        assert(no_nl(spec_sessions_chars(list)));
    } else if list.len() == 1 {
        lemma_session_no_nl(list[0]);
    } else {
        lemma_session_no_nl(list[0]);
        lemma_session_list_no_nl(list.drop_first());
        assert(no_nl(seq![',']));
        lemma_no_nl_concat(spec_session_chars(list[0]), seq![',']);
        lemma_no_nl_concat(
            spec_session_chars(list[0]) + seq![','],
            spec_sessions_chars(list.drop_first()),
        );
    }
    assert(no_nl(seq!['[']));
    assert(no_nl(seq![']']));
    lemma_no_nl_concat(seq!['['], spec_sessions_chars(list));
    lemma_no_nl_concat(seq!['['] + spec_sessions_chars(list), seq![']']);
}

/// An encoded command never holds a raw newline, and so fits on one wire
/// line.
pub proof fn lemma_command_no_nl(c: CommandView)
    ensures
        no_nl(spec_command_chars(c)),
{
    reveal_strlit("\"GetOrCreateSession\"");
    reveal_strlit("\"ListSessions\"");
    reveal_strlit("{\"GetSession\":\"");
    reveal_strlit("{\"UpdateSession\":");
    reveal_strlit("\"}");
    reveal_strlit("}");
    match c {
        CommandView::GetOrCreateSession => {
            assert(no_nl("\"GetOrCreateSession\""@));
        }
        CommandView::ListSessions => {
            assert(no_nl("\"ListSessions\""@));
        }
        CommandView::GetSession(id) => {
            assert(no_nl("{\"GetSession\":\""@) && no_nl("\"}"@));
            crate::digits::lemma_uuid_no_newline(id);
            assert(no_nl(spec_uuid_chars(id)));
            lemma_no_nl_concat("{\"GetSession\":\""@, spec_uuid_chars(id));
            lemma_no_nl_concat("{\"GetSession\":\""@ + spec_uuid_chars(id), "\"}"@);
        }
        CommandView::UpdateSession(v) => {
            assert(no_nl("{\"UpdateSession\":"@) && no_nl("}"@));
            lemma_session_no_nl(v);
            lemma_no_nl_concat("{\"UpdateSession\":"@, spec_session_chars(v));
            lemma_no_nl_concat("{\"UpdateSession\":"@ + spec_session_chars(v), "}"@);
        }
    }
}

/// An encoded response never holds a raw newline, and so fits on one wire
/// line.
pub proof fn lemma_response_no_nl(r: ResponseView)
    ensures
        no_nl(spec_response_chars(r)),
{
    reveal_strlit("{\"Error\":");
    reveal_strlit("{\"Sessions\":");
    reveal_strlit("{\"Session\":");
    reveal_strlit("}");
    match r {
        ResponseView::Session(v) => {
            assert(no_nl("{\"Session\":"@) && no_nl("}"@));
            lemma_session_no_nl(v);
            lemma_no_nl_concat("{\"Session\":"@, spec_session_chars(v));
            lemma_no_nl_concat("{\"Session\":"@ + spec_session_chars(v), "}"@);
        }
        ResponseView::Sessions(list) => {
            assert(no_nl("{\"Sessions\":"@) && no_nl("}"@));
            lemma_session_list_no_nl(list);
            lemma_no_nl_concat("{\"Sessions\":"@, spec_session_list_chars(list));
            lemma_no_nl_concat("{\"Sessions\":"@ + spec_session_list_chars(list), "}"@);
        }
        ResponseView::Error(m) => {
            assert(no_nl("{\"Error\":"@) && no_nl("}"@));
            lemma_quoted_no_nl(m);
            lemma_no_nl_concat("{\"Error\":"@, spec_quoted(m));
            lemma_no_nl_concat("{\"Error\":"@ + spec_quoted(m), "}"@);
        }
    }
}

} // verus!
