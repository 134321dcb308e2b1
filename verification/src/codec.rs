//! The snapshot and wire codec for sessions: one JSON document per
//! session, written compactly on a single line so that it can double as a
//! newline-framed wire payload.
//!
//! A session is encoded as
//! `{"id":"<identifier>","created_at":<ms>,"last_active":<ms>,"messages":[...]}`
//! with each message `{"User":"..."}` or `{"Assistant":"..."}`. Encoders
//! are pinned to spec-level encoding functions, decoders to spec-level
//! parsers, and the round-trip lemmas prove that decoding an encoding gives
//! the original session back.

use vstd::prelude::*;
use crate::digits::{spec_dec_i64, sp_i64, spec_uuid_chars, sp_uuid, push_dec_i64, push_uuid,
    parse_i64, parse_uuid, lemma_i64_round_trip, lemma_uuid_round_trip, is_digit};
use crate::escape::{spec_quoted, sp_string, push_escaped, parse_string, lemma_string_round_trip};
use crate::session::{ChatMessage, MessageView, Session, SessionView};

verus! {

// ------------------------------------------------------------ text helpers
/// Relies on `String::push`: appends the given character to the end of the
/// string.
#[verifier::external_body]
pub(crate) fn push_char(s: &mut String, c: char)
    ensures
        final(s)@ == old(s)@.push(c),
{
    s.push(c);
}

/// Builds the string holding exactly the given characters.
pub(crate) fn chars_to_string(v: &Vec<char>) -> (r: String)
    ensures
        r@ == v@,
{
    let mut r = String::new();
    let mut i: usize = 0;
    while i < v.len()
        invariant
            i <= v@.len(),
            r@ == v@.take(i as int),
        decreases v@.len() - i,
    {
        push_char(&mut r, v[i]);
        assert(r@ =~= v@.take(i + 1));
        i = i + 1;
    }
    assert(v@.take(v@.len() as int) =~= v@);
    r
}

/// Collects the characters of a string slice.
pub(crate) fn str_to_chars(s: &str) -> (r: Vec<char>)
    ensures
        r@ == s@,
{
    let n = s.unicode_len();
    let mut r: Vec<char> = Vec::new();
    let mut i: usize = 0;
    while i < n
        invariant
            i <= n,
            n == s@.len(),
            r@ == s@.take(i as int),
        decreases n - i,
    {
        r.push(s.get_char(i));
        assert(r@ =~= s@.take(i + 1));
        i = i + 1;
    }
    assert(s@.take(n as int) =~= s@);
    r
}

/// Appends every character of a literal piece of the format.
pub(crate) fn push_lit(lit: &str, out: &mut Vec<char>)
    ensures
        final(out)@ == old(out)@ + lit@,
{
    let n = lit.unicode_len();
    let mut i: usize = 0;
    while i < n
        invariant
            i <= n,
            n == lit@.len(),
            out@ == old(out)@ + lit@.take(i as int),
        decreases n - i,
    {
        out.push(lit.get_char(i));
        assert(out@ =~= old(out)@ + lit@.take(i + 1));
        i = i + 1;
    }
    assert(lit@.take(n as int) =~= lit@);
}

/// Matching a fixed piece of the format at the front of the input.
pub open spec fn sp_lit(t: Seq<char>, pat: Seq<char>) -> Option<int> {
    if pat.len() <= t.len() && t.take(pat.len() as int) == pat {
        Some(pat.len() as int)
    } else {
        None
    }
}

/// A literal always matches at the front of itself.
pub proof fn lemma_lit_round(pat: Seq<char>, rest: Seq<char>)
    ensures
        sp_lit(pat + rest, pat) == Some(pat.len() as int),
        (pat + rest).skip(pat.len() as int) == rest,
{
    assert((pat + rest).take(pat.len() as int) =~= pat);
    assert((pat + rest).skip(pat.len() as int) =~= rest);
}

/// Skipping the first part of a concatenation leaves the second.
pub proof fn lemma_peel(a: Seq<char>, b: Seq<char>)
    ensures
        (a + b).skip(a.len() as int) == b,
{
    assert((a + b).skip(a.len() as int) =~= b);
}

/// Two successive skips are one skip.
pub proof fn lemma_skip_skip(t: Seq<char>, a: int, b: int)
    requires
        0 <= a,
        0 <= b,
        a + b <= t.len(),
    ensures
        t.skip(a).skip(b) == t.skip(a + b),
{
    assert(t.skip(a).skip(b) =~= t.skip(a + b));
}

/// Matches the literal `lit` at position `pos` of `v`, exactly as `sp_lit`
/// reads the remaining input.
pub(crate) fn try_lit(v: &Vec<char>, pos: usize, lit: &str) -> (r: Option<usize>)
    requires
        pos <= v@.len(),
    ensures
        match r {
            Some(newpos) => newpos == pos + lit@.len() && newpos <= v@.len() && sp_lit(
                v@.skip(pos as int),
                lit@,
            ) == Some(lit@.len() as int),
            None => sp_lit(v@.skip(pos as int), lit@) is None,
        },
{
    let ghost t = v@.skip(pos as int);
    let n = lit.unicode_len();
    let len = v.len();
    if len - pos < n {
        assert(sp_lit(t, lit@) is None);
        return None;
    }
    let mut i: usize = 0;
    while i < n
        invariant
            i <= n,
            n == lit@.len(),
            len == v@.len(),
            pos + n <= len,
            t == v@.skip(pos as int),
            forall|j: int| 0 <= j < i ==> t[j] == lit@[j],
        decreases n - i,
    {
        assert(t[i as int] == v@[pos + i]);
        if v[pos + i] != lit.get_char(i) {
            assert(t.take(n as int)[i as int] != lit@[i as int]);
            assert(sp_lit(t, lit@) is None);
            return None;
        }
        i = i + 1;
    }
    assert(t.take(n as int) =~= lit@);
    Some(pos + n)
}

/// Whether a character vector holds exactly the text of `s`.
pub(crate) fn vec_eq_str(v: &Vec<char>, s: &str) -> (r: bool)
    ensures
        r == (v@ == s@),
{
    let n = s.unicode_len();
    if v.len() != n {
        proof {
            if v@ == s@ {
                assert(false);
            }
        }
        return false;
    }
    let mut i: usize = 0;
    while i < n
        invariant
            i <= n,
            n == s@.len(),
            n == v@.len(),
            forall|k: int| 0 <= k < i ==> v@[k] == s@[k],
        decreases n - i,
    {
        if v[i] != s.get_char(i) {
            proof {
                if v@ == s@ {
                    assert(v@[i as int] == s@[i as int]);
                    assert(false);
                }
            }
            return false;
        }
        i = i + 1;
    }
    assert(v@ =~= s@);
    true
}

/// Whether two string slices hold the same text.
pub fn str_eq(a: &str, b: &str) -> (r: bool)
    ensures
        r == (a@ == b@),
{
    let v = str_to_chars(a);
    vec_eq_str(&v, b)
}

// ------------------------------------------------------------ messages
/// The encoding of one chat message.
pub open spec fn spec_msg_chars(m: MessageView) -> Seq<char> {
    match m {
        MessageView::User(s) => "{\"User\":"@ + spec_quoted(s) + "}"@,
        MessageView::Assistant(s) => "{\"Assistant\":"@ + spec_quoted(s) + "}"@,
    }
}

/// Parsing one chat message from the front of the input.
pub open spec fn sp_msg(t: Seq<char>) -> Option<(int, MessageView)> {
    if sp_lit(t, "{\"User\":"@) is Some {
        let n1 = sp_lit(t, "{\"User\":"@)->Some_0;
        match sp_string(t.skip(n1)) {
            Some((n2, s)) => match sp_lit(t.skip(n1 + n2), "}"@) {
                Some(n3) => Some((n1 + n2 + n3, MessageView::User(s))),
                None => None,
            },
            None => None,
        }
    } else if sp_lit(t, "{\"Assistant\":"@) is Some {
        let n1 = sp_lit(t, "{\"Assistant\":"@)->Some_0;
        match sp_string(t.skip(n1)) {
            Some((n2, s)) => match sp_lit(t.skip(n1 + n2), "}"@) {
                Some(n3) => Some((n1 + n2 + n3, MessageView::Assistant(s))),
                None => None,
            },
            None => None,
        }
    } else {
        None
    }
}

/// Round trip for one message.
pub proof fn lemma_msg_round_trip(m: MessageView, rest: Seq<char>)
    ensures
        spec_msg_chars(m).len() >= 1,
        sp_msg(spec_msg_chars(m) + rest) == Some((spec_msg_chars(m).len() as int, m)),
{
    reveal_strlit("{\"User\":");
    reveal_strlit("{\"Assistant\":");
    reveal_strlit("}");
    let t = spec_msg_chars(m) + rest;
    match m {
        MessageView::User(s) => {
            let p1 = "{\"User\":"@;
            let r1 = spec_quoted(s) + "}"@ + rest;
            assert(t =~= p1 + r1);
            lemma_lit_round(p1, r1);
            lemma_string_round_trip(s, "}"@ + rest);
            let n2 = spec_quoted(s).len() as int;
            assert(t.skip(p1.len() as int) == r1);
            assert(r1 =~= spec_quoted(s) + ("}"@ + rest));
            assert(sp_string(t.skip(p1.len() as int)) == Some((n2, s)));
            assert(t.skip(p1.len() as int + n2) =~= "}"@ + rest);
            lemma_lit_round("}"@, rest);
        }
        MessageView::Assistant(s) => {
            let p1 = "{\"Assistant\":"@;
            let pu = "{\"User\":"@;
            assert(t[2] == 'A' && pu[2] == 'U');
            assert(t.take(pu.len() as int)[2] == t[2]);
            assert(sp_lit(t, pu) is None);
            let r1 = spec_quoted(s) + "}"@ + rest;
            assert(t =~= p1 + r1);
            lemma_lit_round(p1, r1);
            lemma_string_round_trip(s, "}"@ + rest);
            let n2 = spec_quoted(s).len() as int;
            assert(t.skip(p1.len() as int) == r1);
            assert(r1 =~= spec_quoted(s) + ("}"@ + rest));
            assert(sp_string(t.skip(p1.len() as int)) == Some((n2, s)));
            assert(t.skip(p1.len() as int + n2) =~= "}"@ + rest);
            lemma_lit_round("}"@, rest);
        }
    }
}

/// Appends the encoding of one message.
pub fn push_msg(m: &ChatMessage, out: &mut Vec<char>)
    ensures
        final(out)@ == old(out)@ + spec_msg_chars(m@),
{
    match m {
        ChatMessage::User(s) => {
            push_lit("{\"User\":", out);
            push_lit("\"", out);
            push_escaped(s.as_str(), out);
            push_lit("\"", out);
            push_lit("}", out);
            proof {
                reveal_strlit("\"");
                assert("\""@ =~= seq!['"']);
                assert(final(out)@ =~= old(out)@ + spec_msg_chars(m@));
            }
        }
        ChatMessage::Assistant(s) => {
            push_lit("{\"Assistant\":", out);
            push_lit("\"", out);
            push_escaped(s.as_str(), out);
            push_lit("\"", out);
            push_lit("}", out);
            proof {
                reveal_strlit("\"");
                assert("\""@ =~= seq!['"']);
                assert(final(out)@ =~= old(out)@ + spec_msg_chars(m@));
            }
        }
    }
}

/// Parses one message at position `pos` of `v`, exactly as `sp_msg` reads
/// the remaining input.
pub fn parse_msg(v: &Vec<char>, pos: usize) -> (r: Option<(ChatMessage, usize)>)
    requires
        pos <= v@.len(),
    ensures
        match r {
            Some((m, newpos)) => pos < newpos <= v@.len() && sp_msg(v@.skip(pos as int)) == Some(
                (newpos - pos, m@),
            ),
            None => sp_msg(v@.skip(pos as int)) is None,
        },
{
    let ghost t = v@.skip(pos as int);
    if let Some(p1) = try_lit(v, pos, "{\"User\":") {
        assert(t.skip("{\"User\":"@.len() as int) =~= v@.skip(p1 as int));
        match parse_string(v, p1) {
            Some((body, p2)) => {
                assert(t.skip((p1 - pos) + (p2 - p1)) =~= v@.skip(p2 as int));
                match try_lit(v, p2, "}") {
                    Some(p3) => {
                        let text = chars_to_string(&body);
                        Some((ChatMessage::User(text), p3))
                    }
                    None => None,
                }
            }
            None => None,
        }
    } else if let Some(p1) = try_lit(v, pos, "{\"Assistant\":") {
        assert(t.skip("{\"Assistant\":"@.len() as int) =~= v@.skip(p1 as int));
        match parse_string(v, p1) {
            Some((body, p2)) => {
                assert(t.skip((p1 - pos) + (p2 - p1)) =~= v@.skip(p2 as int));
                match try_lit(v, p2, "}") {
                    Some(p3) => {
                        let text = chars_to_string(&body);
                        Some((ChatMessage::Assistant(text), p3))
                    }
                    None => None,
                }
            }
            None => None,
        }
    } else {
        None
    }
}

// ------------------------------------------------------------ message lists
/// The encoding of the items of a message list, comma-separated.
pub open spec fn spec_msgs_chars(ms: Seq<MessageView>) -> Seq<char>
    decreases ms.len(),
{
    if ms.len() == 0 {
        Seq::empty()
    } else if ms.len() == 1 {
        spec_msg_chars(ms[0])
    } else {
        spec_msg_chars(ms[0]) + seq![','] + spec_msgs_chars(ms.drop_first())
    }
}

/// The encoding of a whole message list, brackets included.
pub open spec fn spec_msg_list_chars(ms: Seq<MessageView>) -> Seq<char> {
    seq!['['] + spec_msgs_chars(ms) + seq![']']
}

/// Parsing the items of a nonempty message list, up to and including the
/// closing bracket.
pub open spec fn sp_msgs_items(t: Seq<char>) -> Option<(int, Seq<MessageView>)>
    decreases t.len(),
{
    match sp_msg(t) {
        Some((n, m)) => {
            if n <= 0 {
                None
            } else if n < t.len() && t[n] == ',' {
                match sp_msgs_items(t.skip(n + 1)) {
                    Some((n2, ms)) => Some((n + 1 + n2, seq![m] + ms)),
                    None => None,
                }
            } else if n < t.len() && t[n] == ']' {
                Some((n + 1, seq![m]))
            } else {
                None
            }
        }
        None => None,
    }
}

/// Parsing a whole message list, brackets included.
#[verifier::opaque]
pub open spec fn sp_msg_list(t: Seq<char>) -> Option<(int, Seq<MessageView>)> {
    if t.len() >= 1 && t[0] == '[' {
        if t.len() >= 2 && t[1] == ']' {
            Some((2, Seq::empty()))
        } else {
            match sp_msgs_items(t.drop_first()) {
                Some((n, ms)) => Some((1 + n, ms)),
                None => None,
            }
        }
    } else {
        None
    }
}

#[verifier::rlimit(60)]
proof fn lemma_msgs_items_round_trip(ms: Seq<MessageView>, rest: Seq<char>)
    requires
        ms.len() >= 1,
    ensures
        sp_msgs_items(spec_msgs_chars(ms) + seq![']'] + rest) == Some(
            (spec_msgs_chars(ms).len() as int + 1, ms),
        ),
    decreases ms.len(),
{
    let t = spec_msgs_chars(ms) + seq![']'] + rest;
    let e0 = spec_msg_chars(ms[0]);
    if ms.len() == 1 {
        assert(t =~= e0 + (seq![']'] + rest));
        lemma_msg_round_trip(ms[0], seq![']'] + rest);
        let n = e0.len() as int;
        assert(t[n] == ']');
        assert(']' != ',');
        assert(seq![ms[0]] =~= ms);
    } else {
        let tail = spec_msgs_chars(ms.drop_first());
        assert(spec_msgs_chars(ms) == e0 + seq![','] + tail);
        let after = seq![','] + tail + seq![']'] + rest;
        assert(t =~= e0 + after);
        lemma_msg_round_trip(ms[0], after);
        let n = e0.len() as int;
        assert(t[n] == ',');
        assert(t.skip(n + 1) =~= tail + seq![']'] + rest);
        lemma_msgs_items_round_trip(ms.drop_first(), rest);
        assert(seq![ms[0]] + ms.drop_first() =~= ms);
    }
}

/// Round trip for a whole message list.
pub proof fn lemma_msg_list_round_trip(ms: Seq<MessageView>, rest: Seq<char>)
    ensures
        spec_msg_list_chars(ms).len() >= 2,
        sp_msg_list(spec_msg_list_chars(ms) + rest) == Some(
            (spec_msg_list_chars(ms).len() as int, ms),
        ),
{
    reveal(sp_msg_list);
    let t = spec_msg_list_chars(ms) + rest;
    assert(t[0] == '[');
    if ms.len() == 0 {
        assert(t[1] == ']');
    } else {
        reveal_strlit("{\"User\":");
        reveal_strlit("{\"Assistant\":");
        let e0 = spec_msg_chars(ms[0]);
        assert(e0[0] == '{');
        assert(spec_msgs_chars(ms)[0] == e0[0]);
        assert(t[1] == '{');
        assert(t.drop_first() =~= spec_msgs_chars(ms) + seq![']'] + rest);
        lemma_msgs_items_round_trip(ms, rest);
    }
}

/// Appends the encodings of the messages from index `i` on, comma-separated.
fn push_msgs_from(msgs: &Vec<ChatMessage>, i: usize, out: &mut Vec<char>)
    requires
        i <= msgs@.len(),
    ensures
        final(out)@ == old(out)@ + spec_msgs_chars(
            msgs@.map_values(|m: ChatMessage| m@).skip(i as int),
        ),
    decreases msgs@.len() - i,
{
    let ghost views = msgs@.map_values(|m: ChatMessage| m@);
    if i < msgs.len() {
        push_msg(&msgs[i], out);
        assert(views.skip(i as int)[0] == views[i as int]);
        if i + 1 < msgs.len() {
            out.push(',');
            push_msgs_from(msgs, i + 1, out);
            assert(views.skip(i as int).drop_first() =~= views.skip(i + 1));
            assert(views.skip(i as int).len() >= 2);
            assert(final(out)@ =~= old(out)@ + spec_msgs_chars(views.skip(i as int)));
        } else {
            assert(views.skip(i as int).len() == 1);
            assert(final(out)@ =~= old(out)@ + spec_msgs_chars(views.skip(i as int)));
        }
    } else {
        assert(views.skip(i as int).len() == 0);
        assert(final(out)@ =~= old(out)@ + spec_msgs_chars(views.skip(i as int)));
    }
}

/// Appends the encoding of a whole message list.
pub fn push_msg_list(msgs: &Vec<ChatMessage>, out: &mut Vec<char>)
    ensures
        final(out)@ == old(out)@ + spec_msg_list_chars(msgs@.map_values(|m: ChatMessage| m@)),
{
    let ghost views = msgs@.map_values(|m: ChatMessage| m@);
    out.push('[');
    push_msgs_from(msgs, 0, out);
    out.push(']');
    assert(views.skip(0) =~= views);
    assert(final(out)@ =~= old(out)@ + spec_msg_list_chars(views));
}

/// Parses a whole message list at position `pos` of `v`, exactly as
/// `sp_msg_list` reads the remaining input.
pub fn parse_msg_list(v: &Vec<char>, pos: usize) -> (r: Option<(Vec<ChatMessage>, usize)>)
    requires
        pos <= v@.len(),
    ensures
        match r {
            Some((msgs, newpos)) => pos < newpos <= v@.len() && sp_msg_list(v@.skip(pos as int))
                == Some((newpos - pos, msgs@.map_values(|m: ChatMessage| m@))),
            None => sp_msg_list(v@.skip(pos as int)) is None,
        },
{
    proof {
        reveal(sp_msg_list);
    }
    let ghost t = v@.skip(pos as int);
    let len = v.len();
    if pos >= len || v[pos] != '[' {
        assert(t.len() == 0 || t[0] != '[');
        return None;
    }
    assert(t[0] == v@[pos as int]);
    if pos + 1 < len && v[pos + 1] == ']' {
        assert(t[1] == v@[pos + 1]);
        let out: Vec<ChatMessage> = Vec::new();
        assert(out@.map_values(|m: ChatMessage| m@) =~= Seq::<MessageView>::empty());
        return Some((out, pos + 2));
    }
    // the list is not `[]`: parse at least one item
    let ghost b0 = t.drop_first();
    proof {
        assert(b0 =~= v@.skip(pos + 1));
        assert(t.len() >= 2 && t[1] == ']' ==> false);
    }
    let mut out: Vec<ChatMessage> = Vec::new();
    let mut p: usize = pos + 1;
    proof {
        if sp_msgs_items(b0) is Some {
            let (n, s) = sp_msgs_items(b0)->Some_0;
            assert(Seq::<MessageView>::empty() + s =~= s);
        }
    }
    loop
        invariant
            pos < len,
            pos + 1 <= p <= len,
            len == v@.len(),
            t == v@.skip(pos as int),
            t[0] == '[',
            t.len() >= 1,
            !(t.len() >= 2 && t[1] == ']'),
            b0 == v@.skip(pos + 1),
            t.drop_first() == b0,
            match sp_msgs_items(v@.skip(p as int)) {
                Some((n, ms)) => sp_msgs_items(b0) == Some(
                    ((p - pos - 1) + n, out@.map_values(|m: ChatMessage| m@) + ms),
                ),
                None => sp_msgs_items(b0) is None,
            },
        decreases len - p,
    {
        proof {
            reveal(sp_msg_list);
        }
        let ghost tp = v@.skip(p as int);
        let ghost oldviews = out@.map_values(|m: ChatMessage| m@);
        match parse_msg(v, p) {
            None => {
                assert(sp_msgs_items(tp) is None);
                assert(sp_msg_list(t) is None);
                return None;
            }
            Some((m, p2)) => {
                let ghost n = (p2 - p) as int;
                assert(sp_msg(tp) == Some((n, m@)));
                if p2 >= len {
                    assert(tp.len() == (len - p) as int);
                    assert(!(n < tp.len()));
                    assert(sp_msgs_items(tp) is None);
                    assert(sp_msg_list(t) is None);
                    return None;
                }
                assert(tp[n] == v@[p2 as int]);
                let c = v[p2];
                if c == ',' {
                    proof {
                        assert(tp.skip(n + 1) =~= v@.skip(p2 + 1));
                        if sp_msgs_items(v@.skip(p2 + 1)) is Some {
                            let (n2, ms) = sp_msgs_items(v@.skip(p2 + 1))->Some_0;
                            assert(sp_msgs_items(tp) == Some((n + 1 + n2, seq![m@] + ms)));
                            assert((oldviews + seq![m@]) + ms =~= oldviews + (seq![m@] + ms));
                        }
                    }
                    out.push(m);
                    assert(out@.map_values(|mm: ChatMessage| mm@) =~= oldviews + seq![m@]);
                    p = p2 + 1;
                } else if c == ']' {
                    assert(sp_msgs_items(tp) == Some((n + 1, seq![m@])));
                    assert(oldviews + seq![m@] =~= oldviews.push(m@));
                    out.push(m);
                    assert(out@.map_values(|mm: ChatMessage| mm@) =~= oldviews.push(m@));
                    assert(sp_msgs_items(b0) == Some(
                        ((p2 + 1 - pos - 1) as int, out@.map_values(|mm: ChatMessage| mm@)),
                    ));
                    assert(sp_msg_list(t) == Some(
                        ((p2 + 1 - pos) as int, out@.map_values(|mm: ChatMessage| mm@)),
                    ));
                    return Some((out, p2 + 1));
                } else {
                    assert(sp_msgs_items(tp) is None);
                    assert(sp_msg_list(t) is None);
                    return None;
                }
            }
        }
    }
}

// ------------------------------------------------------------ newlines
/// Text that holds no raw newline, and so can travel as one framed line.
pub open spec fn no_nl(t: Seq<char>) -> bool {
    forall|i: int| 0 <= i < t.len() ==> #[trigger] t[i] != '\n'
}

pub proof fn lemma_no_nl_concat(a: Seq<char>, b: Seq<char>)
    requires
        no_nl(a),
        no_nl(b),
    ensures
        no_nl(a + b),
{
    assert forall|i: int| 0 <= i < (a + b).len() implies #[trigger] (a + b)[i] != '\n' by {
        if i < a.len() {
            assert((a + b)[i] == a[i]);
        } else {
            assert((a + b)[i] == b[i - a.len()]);
        }
    }
}

/// A quoted string never holds a raw newline: escaping removes them all.
pub proof fn lemma_quoted_no_nl(s: Seq<char>)
    ensures
        no_nl(spec_quoted(s)),
{
    crate::escape::lemma_esc_no_newline(s);
    let e = crate::escape::esc(s);
    assert(no_nl(e));
    assert(no_nl(seq!['"']));
    lemma_no_nl_concat(seq!['"'], e);
    lemma_no_nl_concat(seq!['"'] + e, seq!['"']);
    assert(spec_quoted(s) == seq!['"'] + e + seq!['"']);
}

/// An encoded message never holds a raw newline.
pub proof fn lemma_msg_no_nl(m: MessageView)
    ensures
        no_nl(spec_msg_chars(m)),
{
    reveal_strlit("{\"User\":");
    reveal_strlit("{\"Assistant\":");
    reveal_strlit("}");
    assert(no_nl("{\"User\":"@));
    assert(no_nl("{\"Assistant\":"@));
    assert(no_nl("}"@));
    match m {
        MessageView::User(s) => {
            lemma_quoted_no_nl(s);
            lemma_no_nl_concat("{\"User\":"@, spec_quoted(s));
            lemma_no_nl_concat("{\"User\":"@ + spec_quoted(s), "}"@);
        }
        MessageView::Assistant(s) => {
            lemma_quoted_no_nl(s);
            lemma_no_nl_concat("{\"Assistant\":"@, spec_quoted(s));
            lemma_no_nl_concat("{\"Assistant\":"@ + spec_quoted(s), "}"@);
        }
    }
}

/// An encoded message list never holds a raw newline.
pub proof fn lemma_msg_list_no_nl(ms: Seq<MessageView>)
    ensures
        no_nl(spec_msgs_chars(ms)),
        no_nl(spec_msg_list_chars(ms)),
    decreases ms.len(),
{
    if ms.len() == 0 {
        assert(no_nl(spec_msgs_chars(ms)));
    } else if ms.len() == 1 {
        lemma_msg_no_nl(ms[0]);
    } else {
        lemma_msg_no_nl(ms[0]);
        lemma_msg_list_no_nl(ms.drop_first());
        assert(no_nl(seq![',']));
        lemma_no_nl_concat(spec_msg_chars(ms[0]), seq![',']);
        lemma_no_nl_concat(spec_msg_chars(ms[0]) + seq![','], spec_msgs_chars(ms.drop_first()));
    }
    assert(no_nl(seq!['[']));
    assert(no_nl(seq![']']));
    lemma_no_nl_concat(seq!['['], spec_msgs_chars(ms));
    lemma_no_nl_concat(seq!['['] + spec_msgs_chars(ms), seq![']']);
}

/// An encoded session never holds a raw newline, and so fits on one
/// snapshot or wire line.
pub proof fn lemma_session_no_nl(v: SessionView)
    ensures
        no_nl(spec_session_chars(v)),
{
    reveal_strlit("{\"id\":\"");
    reveal_strlit("\",\"created_at\":");
    reveal_strlit(",\"last_active\":");
    reveal_strlit(",\"messages\":");
    reveal_strlit("}");
    let l1 = "{\"id\":\""@;
    let l2 = "\",\"created_at\":"@;
    let l3 = ",\"last_active\":"@;
    let l4 = ",\"messages\":"@;
    let l5 = "}"@;
    assert(no_nl(l1) && no_nl(l2) && no_nl(l3) && no_nl(l4) && no_nl(l5));
    crate::digits::lemma_uuid_no_newline(v.id);
    let e1 = spec_uuid_chars(v.id);
    assert(no_nl(e1));
    crate::digits::lemma_dec_i64_no_newline(v.created_at);
    let e2 = spec_dec_i64(v.created_at);
    assert(no_nl(e2));
    crate::digits::lemma_dec_i64_no_newline(v.last_active);
    let e3 = spec_dec_i64(v.last_active);
    assert(no_nl(e3));
    lemma_msg_list_no_nl(v.messages);
    let e4 = spec_msg_list_chars(v.messages);
    lemma_no_nl_concat(l1, e1);
    lemma_no_nl_concat(l1 + e1, l2);
    lemma_no_nl_concat(l1 + e1 + l2, e2);
    lemma_no_nl_concat(l1 + e1 + l2 + e2, l3);
    lemma_no_nl_concat(l1 + e1 + l2 + e2 + l3, e3);
    lemma_no_nl_concat(l1 + e1 + l2 + e2 + l3 + e3, l4);
    lemma_no_nl_concat(l1 + e1 + l2 + e2 + l3 + e3 + l4, e4);
    lemma_no_nl_concat(l1 + e1 + l2 + e2 + l3 + e3 + l4 + e4, l5);
}

// ------------------------------------------------------------ sessions
/// The encoding of a whole session.
pub open spec fn spec_session_chars(v: SessionView) -> Seq<char> {
    "{\"id\":\""@ + spec_uuid_chars(v.id) + "\",\"created_at\":"@ + spec_dec_i64(v.created_at)
        + ",\"last_active\":"@ + spec_dec_i64(v.last_active) + ",\"messages\":"@
        + spec_msg_list_chars(v.messages) + "}"@
}

/// Parsing the three fixed fields at the front of a session: identifier,
/// creation time, last-active time.
#[verifier::opaque]
pub open spec fn sp_session_fields(t: Seq<char>) -> Option<(int, u128, i64, i64)> {
    match sp_lit(t, "{\"id\":\""@) {
        None => None,
        Some(n1) => match sp_uuid(t.skip(n1)) {
            None => None,
            Some((n2, id)) => match sp_lit(t.skip(n1 + n2), "\",\"created_at\":"@) {
                None => None,
                Some(n3) => match sp_i64(t.skip(n1 + n2 + n3)) {
                    None => None,
                    Some((n4, created)) => match sp_lit(
                        t.skip(n1 + n2 + n3 + n4),
                        ",\"last_active\":"@,
                    ) {
                        None => None,
                        Some(n5) => match sp_i64(t.skip(n1 + n2 + n3 + n4 + n5)) {
                            None => None,
                            Some((n6, last)) => Some((n1 + n2 + n3 + n4 + n5 + n6, id, created, last)),
                        },
                    },
                },
            },
        },
    }
}

/// Parsing a whole session from the front of the input.
pub open spec fn sp_session(t: Seq<char>) -> Option<(int, SessionView)> {
    match sp_session_fields(t) {
        None => None,
        Some((nf, id, created, last)) => match sp_lit(t.skip(nf), ",\"messages\":"@) {
            None => None,
            Some(n7) => match sp_msg_list(t.skip(nf + n7)) {
                None => None,
                Some((n8, ms)) => match sp_lit(t.skip(nf + n7 + n8), "}"@) {
                    None => None,
                    Some(n9) => Some(
                        (
                            nf + n7 + n8 + n9,
                            SessionView { id, created_at: created, last_active: last, messages: ms },
                        ),
                    ),
                },
            },
        },
    }
}

/// Decoding a whole snapshot or wire payload: one session and nothing else.
pub open spec fn spec_decode_session(t: Seq<char>) -> Option<SessionView> {
    match sp_session(t) {
        Some((n, v)) => if n == t.len() {
            Some(v)
        } else {
            None
        },
        None => None,
    }
}

/// The encoding of the three fixed fields of a session.
pub open spec fn spec_fields_chars(v: SessionView) -> Seq<char> {
    "{\"id\":\""@ + spec_uuid_chars(v.id) + "\",\"created_at\":"@ + spec_dec_i64(v.created_at)
        + ",\"last_active\":"@ + spec_dec_i64(v.last_active)
}

/// Round trip for the fixed fields, followed by anything that does not
/// begin with a digit.
#[verifier::rlimit(60)]
proof fn lemma_session_fields_round_trip(v: SessionView, tail: Seq<char>)
    requires
        tail.len() == 0 || !is_digit(tail[0]),
    ensures
        sp_session_fields(spec_fields_chars(v) + tail) == Some(
            (spec_fields_chars(v).len() as int, v.id, v.created_at, v.last_active),
        ),
        (spec_fields_chars(v) + tail).skip(spec_fields_chars(v).len() as int) == tail,
{
    reveal(sp_session_fields);
    let l1 = "{\"id\":\""@;
    let l2 = "\",\"created_at\":"@;
    let l3 = ",\"last_active\":"@;
    let e1 = spec_uuid_chars(v.id);
    let e2 = spec_dec_i64(v.created_at);
    let e3 = spec_dec_i64(v.last_active);
    let enc = spec_fields_chars(v);
    let t = enc + tail;
    let r5 = e3 + tail;
    let r4 = l3 + r5;
    let r3 = e2 + r4;
    let r2 = l2 + r3;
    let r1 = e1 + r2;
    // rotate the left-nested encoding into the parser's right-nested view
    vstd::seq_lib::lemma_concat_associative(l1 + e1 + l2 + e2 + l3, e3, tail);
    vstd::seq_lib::lemma_concat_associative(l1 + e1 + l2 + e2, l3, r5);
    vstd::seq_lib::lemma_concat_associative(l1 + e1 + l2, e2, r4);
    vstd::seq_lib::lemma_concat_associative(l1 + e1, l2, r3);
    vstd::seq_lib::lemma_concat_associative(l1, e1, r2);
    assert(t == l1 + r1);
    lemma_lit_round(l1, r1);
    let n1 = l1.len() as int;
    assert(t.skip(n1) == r1);
    lemma_uuid_round_trip(v.id, r2);
    lemma_peel(e1, r2);
    lemma_skip_skip(t, n1, 36);
    assert(t.skip(n1 + 36) == r2);
    lemma_lit_round(l2, r3);
    let n3 = l2.len() as int;
    lemma_skip_skip(t, n1 + 36, n3);
    assert(t.skip(n1 + 36 + n3) == r3);
    reveal_strlit(",\"last_active\":");
    assert(l3[0] == ',');
    assert(!is_digit(','));
    assert(r4[0] == ',');
    lemma_i64_round_trip(v.created_at, r4);
    lemma_peel(e2, r4);
    let n4 = e2.len() as int;
    lemma_skip_skip(t, n1 + 36 + n3, n4);
    assert(t.skip(n1 + 36 + n3 + n4) == r4);
    lemma_lit_round(l3, r5);
    let n5 = l3.len() as int;
    lemma_skip_skip(t, n1 + 36 + n3 + n4, n5);
    assert(t.skip(n1 + 36 + n3 + n4 + n5) == r5);
    lemma_i64_round_trip(v.last_active, tail);
    lemma_peel(e3, tail);
    let n6 = e3.len() as int;
    lemma_skip_skip(t, n1 + 36 + n3 + n4 + n5, n6);
    assert(t.skip(n1 + 36 + n3 + n4 + n5 + n6) == tail);
    assert(enc.len() as int == n1 + 36 + n3 + n4 + n5 + n6);
    assert(sp_session_fields(t) == Some(
        (enc.len() as int, v.id, v.created_at, v.last_active),
    ));
}

/// Round trip for one session followed by anything.
#[verifier::rlimit(100)]
pub proof fn lemma_session_chars_round_trip(v: SessionView, rest: Seq<char>)
    ensures
        sp_session(spec_session_chars(v) + rest) == Some(
            (spec_session_chars(v).len() as int, v),
        ),
{
    let l4 = ",\"messages\":"@;
    let l5 = "}"@;
    let e4 = spec_msg_list_chars(v.messages);
    let fe = spec_fields_chars(v);
    let enc = spec_session_chars(v);
    let t = enc + rest;
    let r8 = l5 + rest;
    let r7 = e4 + r8;
    let tail = l4 + r7;
    // rotate the left-nested encoding into the parser's right-nested view
    vstd::seq_lib::lemma_concat_associative(fe + l4 + e4, l5, rest);
    vstd::seq_lib::lemma_concat_associative(fe + l4, e4, r8);
    vstd::seq_lib::lemma_concat_associative(fe, l4, r7);
    assert(t == fe + tail);
    reveal_strlit(",\"messages\":");
    assert(l4[0] == ',');
    assert(tail[0] == ',');
    assert(!is_digit(','));
    lemma_session_fields_round_trip(v, tail);
    let nf = fe.len() as int;
    assert(t.skip(nf) == tail);
    lemma_lit_round(l4, r7);
    let n7 = l4.len() as int;
    lemma_skip_skip(t, nf, n7);
    assert(t.skip(nf + n7) == r7);
    lemma_msg_list_round_trip(v.messages, r8);
    lemma_peel(e4, r8);
    let n8 = e4.len() as int;
    lemma_skip_skip(t, nf + n7, n8);
    assert(t.skip(nf + n7 + n8) == r8);
    lemma_lit_round(l5, rest);
    reveal_strlit("}");
    assert(enc.len() as int == nf + n7 + n8 + 1);
}

/// The snapshot round trip: decoding the encoding of any session yields
/// exactly that session — identifier, both timestamps, and the whole
/// message sequence.
pub proof fn lemma_snapshot_round_trip(v: SessionView)
    ensures
        spec_decode_session(spec_session_chars(v)) == Some(v),
{
    lemma_session_chars_round_trip(v, Seq::empty());
    assert(spec_session_chars(v) + Seq::<char>::empty() =~= spec_session_chars(v));
}

/// Appends the encoding of a whole session.
pub fn push_session(s: &Session, out: &mut Vec<char>)
    ensures
        final(out)@ == old(out)@ + spec_session_chars(s@),
{
    push_lit("{\"id\":\"", out);
    push_uuid(s.id, out);
    push_lit("\",\"created_at\":", out);
    push_dec_i64(s.created_at, out);
    push_lit(",\"last_active\":", out);
    push_dec_i64(s.last_active, out);
    push_lit(",\"messages\":", out);
    push_msg_list(&s.messages, out);
    push_lit("}", out);
    assert(final(out)@ =~= old(out)@ + spec_session_chars(s@));
}

/// The single-line snapshot text of a session.
pub fn encode_session(s: &Session) -> (r: String)
    ensures
        r@ == spec_session_chars(s@),
{
    let mut out: Vec<char> = Vec::new();
    push_session(s, &mut out);
    chars_to_string(&out)
}

/// Parses one session at position `pos` of `v`, exactly as `sp_session`
/// reads the remaining input.
pub fn parse_session(v: &Vec<char>, pos: usize) -> (r: Option<(Session, usize)>)
    requires
        pos <= v@.len(),
    ensures
        match r {
            Some((s, newpos)) => pos < newpos <= v@.len() && sp_session(v@.skip(pos as int))
                == Some((newpos - pos, s@)),
            None => sp_session(v@.skip(pos as int)) is None,
        },
{
    proof {
        reveal(sp_session_fields);
    }
    let ghost t = v@.skip(pos as int);
    let p1 = match try_lit(v, pos, "{\"id\":\"") {
        Some(p) => p,
        None => {
            return None;
        }
    };
    proof {
        lemma_skip_skip(v@, pos as int, (p1 - pos) as int);
    }
    let (id, p2) = match parse_uuid(v, p1) {
        Some(x) => x,
        None => {
            return None;
        }
    };
    proof {
        lemma_skip_skip(v@, pos as int, (p2 - pos) as int);
    }
    let p3 = match try_lit(v, p2, "\",\"created_at\":") {
        Some(p) => p,
        None => {
            return None;
        }
    };
    proof {
        lemma_skip_skip(v@, pos as int, (p3 - pos) as int);
    }
    let (created_at, p4) = match parse_i64(v, p3) {
        Some(x) => x,
        None => {
            return None;
        }
    };
    proof {
        lemma_skip_skip(v@, pos as int, (p4 - pos) as int);
    }
    let p5 = match try_lit(v, p4, ",\"last_active\":") {
        Some(p) => p,
        None => {
            return None;
        }
    };
    proof {
        lemma_skip_skip(v@, pos as int, (p5 - pos) as int);
    }
    let (last_active, p6) = match parse_i64(v, p5) {
        Some(x) => x,
        None => {
            return None;
        }
    };
    proof {
        lemma_skip_skip(v@, pos as int, (p6 - pos) as int);
    }
    let p7 = match try_lit(v, p6, ",\"messages\":") {
        Some(p) => p,
        None => {
            return None;
        }
    };
    proof {
        lemma_skip_skip(v@, pos as int, (p7 - pos) as int);
    }
    let (messages, p8) = match parse_msg_list(v, p7) {
        Some(x) => x,
        None => {
            return None;
        }
    };
    proof {
        lemma_skip_skip(v@, pos as int, (p8 - pos) as int);
    }
    let p9 = match try_lit(v, p8, "}") {
        Some(p) => p,
        None => {
            return None;
        }
    };
    let s = Session { id, created_at, last_active, messages };
    assert(sp_session(t) == Some(((p9 - pos) as int, s@)));
    Some((s, p9))
}

/// Decodes a whole snapshot or wire payload: exactly one session and
/// nothing after it. Malformed text gives `None`.
pub fn decode_session(text: &str) -> (r: Option<Session>)
    ensures
        match r {
            Some(s) => spec_decode_session(text@) == Some(s@),
            None => spec_decode_session(text@) is None,
        },
{
    let v = str_to_chars(text);
    assert(v@.skip(0) =~= text@);
    match parse_session(&v, 0) {
        Some((s, p)) => {
            if p == v.len() {
                Some(s)
            } else {
                None
            }
        }
        None => None,
    }
}

} // verus!
