//! Verified escaped-string text: quoted string bodies for the snapshot and
//! wire format.
//!
//! Quotes and backslashes are escaped with a backslash, control characters
//! become `\u00` plus two lowercase hexadecimal digits, and every other
//! character stands for itself — so an encoded string never holds a raw
//! newline and can safely travel in a newline-framed protocol.

use vstd::prelude::*;
use crate::digits::{hex_char, hex_val, is_hex_lower, hex_char_x, hex_val_x, is_hex_lower_x,
    lemma_hex_char};

verus! {

/// The escaped form of one character.
pub open spec fn esc_char(c: char) -> Seq<char> {
    if c == '"' {
        seq!['\\', '"']
    } else if c == '\\' {
        seq!['\\', '\\']
    } else if (c as u32) < 32 {
        seq!['\\', 'u', '0', '0', hex_char((c as u32) as int / 16), hex_char((c as u32) as int % 16)]
    } else {
        seq![c]
    }
}

/// A single escaped character is its own escape sequence.
pub proof fn lemma_esc_singleton(c: char)
    ensures
        esc(seq![c]) == esc_char(c),
{
    assert(seq![c].drop_first() =~= Seq::<char>::empty());
    assert(esc(seq![c]) == esc_char(c) + esc(Seq::<char>::empty()));
    assert(esc_char(c) + Seq::<char>::empty() =~= esc_char(c));
}

/// The escaped form of a whole string body.
pub open spec fn esc(s: Seq<char>) -> Seq<char>
    decreases s.len(),
{
    if s.len() == 0 {
        Seq::empty()
    } else {
        esc_char(s[0]) + esc(s.drop_first())
    }
}

/// The full encoding of a string: quote, escaped body, quote.
pub open spec fn spec_quoted(s: Seq<char>) -> Seq<char> {
    seq!['"'] + esc(s) + seq!['"']
}

/// Parsing the body of a quoted string: everything up to — not including —
/// the closing quote, escapes undone. Returns characters consumed and the
/// text read.
pub open spec fn sp_str_body(t: Seq<char>) -> Option<(int, Seq<char>)>
    decreases t.len(),
{
    if t.len() == 0 {
        None
    } else if t[0] == '"' {
        Some((0, Seq::empty()))
    } else if t[0] == '\\' {
        if t.len() >= 2 && (t[1] == '"' || t[1] == '\\') {
            match sp_str_body(t.skip(2)) {
                Some((n, s)) => Some((n + 2, seq![t[1]] + s)),
                None => None,
            }
        } else if t.len() >= 6 && t[1] == 'u' && t[2] == '0' && t[3] == '0' && is_hex_lower(t[4])
            && is_hex_lower(t[5]) && hex_val(t[4]) * 16 + hex_val(t[5]) < 32 {
            match sp_str_body(t.skip(6)) {
                Some((n, s)) => Some(
                    (n + 6, seq![((hex_val(t[4]) * 16 + hex_val(t[5])) as u32) as char] + s),
                ),
                None => None,
            }
        } else {
            None
        }
    } else if (t[0] as u32) < 32 {
        None
    } else {
        match sp_str_body(t.skip(1)) {
            Some((n, s)) => Some((n + 1, seq![t[0]] + s)),
            None => None,
        }
    }
}

/// Parsing a whole quoted string, both quotes included in the count.
pub open spec fn sp_string(t: Seq<char>) -> Option<(int, Seq<char>)> {
    if t.len() >= 1 && t[0] == '"' {
        match sp_str_body(t.drop_first()) {
            Some((n, s)) => Some((n + 2, s)),
            None => None,
        }
    } else {
        None
    }
}

/// Escaping distributes over concatenation.
pub proof fn lemma_esc_append(a: Seq<char>, b: Seq<char>)
    ensures
        esc(a + b) == esc(a) + esc(b),
    decreases a.len(),
{
    if a.len() == 0 {
        assert(a + b =~= b);
        assert(esc(a) + esc(b) =~= esc(b));
    } else {
        assert((a + b).drop_first() =~= a.drop_first() + b);
        lemma_esc_append(a.drop_first(), b);
        assert((a + b)[0] == a[0]);
        assert(esc(a + b) == esc_char(a[0]) + (esc(a.drop_first()) + esc(b)));
        assert(esc_char(a[0]) + (esc(a.drop_first()) + esc(b)) =~= (esc_char(a[0]) + esc(
            a.drop_first(),
        )) + esc(b));
    }
}

/// Nothing that escaping emits is a raw newline.
pub proof fn lemma_esc_no_newline(s: Seq<char>)
    ensures
        forall|i: int| 0 <= i < esc(s).len() ==> #[trigger] esc(s)[i] != '\n',
    decreases s.len(),
{
    if s.len() > 0 {
        lemma_esc_no_newline(s.drop_first());
        let c = s[0];
        if c != '"' && c != '\\' && (c as u32) < 32 {
            lemma_hex_char((c as u32) as int / 16);
            lemma_hex_char((c as u32) as int % 16);
        }
        assert(forall|i: int| 0 <= i < esc_char(c).len() ==> #[trigger] esc_char(c)[i] != '\n');
        assert(forall|i: int| 0 <= i < esc(s).len() ==> esc(s)[i] == if i < esc_char(c).len() {
            esc_char(c)[i]
        } else {
            esc(s.drop_first())[i - esc_char(c).len()]
        });
    }
}

/// Round trip for string bodies: parsing the escaped text — with the
/// closing quote and anything else after it — consumes exactly the escaped
/// text and yields the original string back.
pub proof fn lemma_str_body_round_trip(s: Seq<char>, rest: Seq<char>)
    ensures
        sp_str_body(esc(s) + seq!['"'] + rest) == Some((esc(s).len() as int, s)),
    decreases s.len(),
{
    let t = esc(s) + seq!['"'] + rest;
    if s.len() == 0 {
        assert(t[0] == '"');
    } else {
        let c = s[0];
        let s2 = s.drop_first();
        lemma_str_body_round_trip(s2, rest);
        let t2 = esc(s2) + seq!['"'] + rest;
        assert(esc(s) == esc_char(c) + esc(s2));
        assert(forall|j: int| 0 <= j < esc_char(c).len() ==> t[j] == esc_char(c)[j]);
        assert(s =~= seq![c] + s2);
        if c == '"' {
            assert(t[0] == '\\' && t[1] == '"');
            assert(t.skip(2) =~= t2);
            assert(sp_str_body(t) == Some((esc(s2).len() as int + 2, seq![t[1]] + s2)));
            assert(seq![t[1]] + s2 =~= s);
        } else if c == '\\' {
            assert(t[0] == '\\' && t[1] == '\\');
            assert(t.skip(2) =~= t2);
            assert(seq![t[1]] + s2 =~= s);
        } else if (c as u32) < 32 {
            assert(t[0] == '\\' && t[1] == 'u' && t[2] == '0' && t[3] == '0');
            assert(t[4] == hex_char((c as u32) as int / 16) && t[5] == hex_char(
                (c as u32) as int % 16,
            ));
            lemma_hex_char((c as u32) as int / 16);
            lemma_hex_char((c as u32) as int % 16);
            assert(hex_val(t[4]) * 16 + hex_val(t[5]) == (c as u32) as int);
            assert(t.skip(6) =~= t2);
            vstd::utf8::char_u32_cast(c, c as u32);
            assert((((c as u32) as int) as u32) as char == c);
            assert(seq![((hex_val(t[4]) * 16 + hex_val(t[5])) as u32) as char] + s2 =~= s);
        } else {
            assert(t[0] == c);
            assert(t.skip(1) =~= t2);
            assert(seq![t[0]] + s2 =~= s);
        }
    }
}

/// Round trip for whole quoted strings.
pub proof fn lemma_string_round_trip(s: Seq<char>, rest: Seq<char>)
    ensures
        spec_quoted(s).len() == esc(s).len() + 2,
        sp_string(spec_quoted(s) + rest) == Some((spec_quoted(s).len() as int, s)),
{
    let t = spec_quoted(s) + rest;
    assert(t[0] == '"');
    assert(t.drop_first() =~= esc(s) + seq!['"'] + rest);
    lemma_str_body_round_trip(s, rest);
}

/// Appends the escaped form of `s`.
pub fn push_escaped(s: &str, out: &mut Vec<char>)
    ensures
        final(out)@ == old(out)@ + esc(s@),
{
    let n = s.unicode_len();
    let mut i: usize = 0;
    while i < n
        invariant
            i <= n,
            n == s@.len(),
            out@ == old(out)@ + esc(s@.take(i as int)),
        decreases n - i,
    {
        let c = s.get_char(i);
        proof {
            lemma_esc_append(s@.take(i as int), seq![c]);
            assert(s@.take(i + 1) =~= s@.take(i as int) + seq![c]);
            lemma_esc_singleton(c);
        }
        if c == '"' {
            out.push('\\');
            out.push('"');
        } else if c == '\\' {
            out.push('\\');
            out.push('\\');
        } else if (c as u32) < 32 {
            out.push('\\');
            out.push('u');
            out.push('0');
            out.push('0');
            let v = c as u32;
            out.push(hex_char_x((v / 16) as u8));
            out.push(hex_char_x((v % 16) as u8));
        } else {
            out.push(c);
        }
        assert(out@ =~= old(out)@ + esc(s@.take(i + 1)));
        i = i + 1;
    }
    assert(s@.take(n as int) =~= s@);
}

/// Parses a whole quoted string from position `pos` of `v`, exactly as
/// `sp_string` reads the remaining input. Returns the decoded body.
pub fn parse_string(v: &Vec<char>, pos: usize) -> (r: Option<(Vec<char>, usize)>)
    requires
        pos <= v@.len(),
    ensures
        match r {
            Some((s, newpos)) => pos < newpos <= v@.len() && sp_string(v@.skip(pos as int))
                == Some((newpos - pos, s@)),
            None => sp_string(v@.skip(pos as int)) is None,
        },
{
    let len = v.len();
    if pos >= len || v[pos] != '"' {
        return None;
    }
    let ghost b0 = v@.skip(pos as int).drop_first();
    proof {
        assert(b0 =~= v@.skip(pos + 1));
    }
    let mut res: Vec<char> = Vec::new();
    let mut p: usize = pos + 1;
    proof {
        assert(v@.skip(pos as int)[0] == v@[pos as int]);
        if sp_str_body(b0) is Some {
            let (n, s) = sp_str_body(b0)->Some_0;
            assert(Seq::<char>::empty() + s =~= s);
        }
    }
    loop
        invariant
            pos < len,
            pos + 1 <= p <= len,
            len == v@.len(),
            v@[pos as int] == '"',
            b0 == v@.skip(pos + 1),
            v@.skip(pos as int).drop_first() == b0,
            v@.skip(pos as int)[0] == '"',
            match sp_str_body(v@.skip(p as int)) {
                Some((n, s)) => sp_str_body(b0) == Some(((p - pos - 1) + n, res@ + s)),
                None => sp_str_body(b0) is None,
            },
        decreases len - p,
    {
        let ghost tp = v@.skip(p as int);
        if p >= len {
            assert(tp.len() == 0);
            assert(sp_string(v@.skip(pos as int)) is None);
            return None;
        }
        assert(tp[0] == v@[p as int]);
        let c = v[p];
        if c == '"' {
            assert(sp_str_body(tp) == Some((0int, Seq::<char>::empty())));
            assert(res@ + Seq::<char>::empty() =~= res@);
            assert(sp_str_body(b0) == Some(((p - pos - 1) as int, res@)));
            assert(sp_string(v@.skip(pos as int)) == Some(((p + 1 - pos) as int, res@)));
            return Some((res, p + 1));
        } else if c == '\\' {
            if p + 1 >= len {
                assert(tp.len() == 1);
                assert(sp_str_body(tp) is None);
                assert(sp_string(v@.skip(pos as int)) is None);
                return None;
            }
            assert(tp[1] == v@[p + 1]);
            let c2 = v[p + 1];
            if c2 == '"' || c2 == '\\' {
                assert(tp.skip(2) =~= v@.skip(p + 2));
                proof {
                    if sp_str_body(v@.skip(p + 2)) is Some {
                        let (n, s) = sp_str_body(v@.skip(p + 2))->Some_0;
                        assert(sp_str_body(tp) == Some((n + 2, seq![c2] + s)));
                        assert((res@ + seq![c2]) + s =~= res@ + (seq![c2] + s));
                    }
                }
                res.push(c2);
                p = p + 2;
            } else if c2 == 'u' {
                if len - p < 6 {
                    assert(tp.len() < 6);
                    assert(sp_str_body(tp) is None);
                    assert(sp_string(v@.skip(pos as int)) is None);
                    return None;
                }
                assert(tp[2] == v@[p + 2] && tp[3] == v@[p + 3] && tp[4] == v@[p + 4] && tp[5]
                    == v@[p + 5]);
                if v[p + 2] != '0' || v[p + 3] != '0' {
                    assert(sp_str_body(tp) is None);
                    assert(sp_string(v@.skip(pos as int)) is None);
                    return None;
                }
                let h1 = v[p + 4];
                let h2 = v[p + 5];
                if !is_hex_lower_x(h1) || !is_hex_lower_x(h2) {
                    assert(sp_str_body(tp) is None);
                    assert(sp_string(v@.skip(pos as int)) is None);
                    return None;
                }
                let w: u32 = (hex_val_x(h1) as u32) * 16 + (hex_val_x(h2) as u32);
                if w >= 32 {
                    assert(sp_str_body(tp) is None);
                    assert(sp_string(v@.skip(pos as int)) is None);
                    return None;
                }
                let dc: char = (w as u8) as char;
                assert(dc == ((hex_val(tp[4]) * 16 + hex_val(tp[5])) as u32) as char);
                assert(tp.skip(6) =~= v@.skip(p + 6));
                proof {
                    if sp_str_body(v@.skip(p + 6)) is Some {
                        let (n, s) = sp_str_body(v@.skip(p + 6))->Some_0;
                        assert(sp_str_body(tp) == Some((n + 6, seq![dc] + s)));
                        assert((res@ + seq![dc]) + s =~= res@ + (seq![dc] + s));
                    }
                }
                res.push(dc);
                p = p + 6;
            } else {
                assert(sp_str_body(tp) is None);
                assert(sp_string(v@.skip(pos as int)) is None);
                return None;
            }
        } else if (c as u32) < 32 {
            assert(sp_str_body(tp) is None);
            assert(sp_string(v@.skip(pos as int)) is None);
            return None;
        } else {
            assert(tp.skip(1) =~= v@.skip(p + 1));
            proof {
                if sp_str_body(v@.skip(p + 1)) is Some {
                    let (n, s) = sp_str_body(v@.skip(p + 1))->Some_0;
                    assert(sp_str_body(tp) == Some((n + 1, seq![c] + s)));
                    assert((res@ + seq![c]) + s =~= res@ + (seq![c] + s));
                }
            }
            res.push(c);
            p = p + 1;
        }
    }
}

} // verus!
