//! Verified numeric text: decimal integers for timestamps and the
//! hyphenated hexadecimal form of session identifiers.
//!
//! Every encoder appends to a character vector and is pinned to a spec-level
//! encoding function; every parser is pinned to a spec-level parsing
//! function over the remaining input; round-trip lemmas tie the two sides
//! together.

use vstd::prelude::*;

verus! {

// ---------------------------------------------------------------- characters
pub open spec fn is_digit(c: char) -> bool {
    '0' <= c && c <= '9'
}

pub open spec fn digit_val(c: char) -> int {
    c as int - '0' as int
}

pub open spec fn digit_char(d: int) -> char {
    if d == 0 {
        '0'
    } else if d == 1 {
        '1'
    } else if d == 2 {
        '2'
    } else if d == 3 {
        '3'
    } else if d == 4 {
        '4'
    } else if d == 5 {
        '5'
    } else if d == 6 {
        '6'
    } else if d == 7 {
        '7'
    } else if d == 8 {
        '8'
    } else {
        '9'
    }
}

pub open spec fn is_hex_lower(c: char) -> bool {
    is_digit(c) || ('a' <= c && c <= 'f')
}

pub open spec fn hex_val(c: char) -> int {
    if is_digit(c) {
        digit_val(c)
    } else {
        c as int - 'a' as int + 10
    }
}

pub open spec fn hex_char(d: int) -> char {
    if d < 10 {
        digit_char(d)
    } else if d == 10 {
        'a'
    } else if d == 11 {
        'b'
    } else if d == 12 {
        'c'
    } else if d == 13 {
        'd'
    } else if d == 14 {
        'e'
    } else {
        'f'
    }
}

pub proof fn lemma_digit_char(d: int)
    requires
        0 <= d < 10,
    ensures
        is_digit(digit_char(d)),
        digit_val(digit_char(d)) == d,
        digit_char(d) != '\n',
{
}

pub proof fn lemma_hex_char(d: int)
    requires
        0 <= d < 16,
    ensures
        is_hex_lower(hex_char(d)),
        hex_val(hex_char(d)) == d,
        hex_char(d) != '\n',
        hex_char(d) != '"',
        hex_char(d) != '\\',
{
}

pub(crate) fn digit_char_x(d: u8) -> (c: char)
    requires
        d < 10,
    ensures
        c == digit_char(d as int),
{
    match d {
        0 => '0',
        1 => '1',
        2 => '2',
        3 => '3',
        4 => '4',
        5 => '5',
        6 => '6',
        7 => '7',
        8 => '8',
        _ => '9',
    }
}

pub(crate) fn hex_char_x(d: u8) -> (c: char)
    requires
        d < 16,
    ensures
        c == hex_char(d as int),
{
    if d < 10 {
        digit_char_x(d)
    } else {
        match d {
            10 => 'a',
            11 => 'b',
            12 => 'c',
            13 => 'd',
            14 => 'e',
            _ => 'f',
        }
    }
}

pub(crate) fn is_digit_x(c: char) -> (b: bool)
    ensures
        b == is_digit(c),
{
    '0' <= c && c <= '9'
}

pub(crate) fn is_hex_lower_x(c: char) -> (b: bool)
    ensures
        b == is_hex_lower(c),
{
    is_digit_x(c) || ('a' <= c && c <= 'f')
}

pub(crate) fn digit_val_x(c: char) -> (d: u8)
    requires
        is_digit(c),
    ensures
        d == digit_val(c),
{
    (c as u32 - '0' as u32) as u8
}

pub(crate) fn hex_val_x(c: char) -> (d: u8)
    requires
        is_hex_lower(c),
    ensures
        d == hex_val(c),
{
    if is_digit_x(c) {
        digit_val_x(c)
    } else {
        (c as u32 - 'a' as u32 + 10) as u8
    }
}

// ---------------------------------------------------------------- powers
pub open spec fn pow10(k: nat) -> int
    decreases k,
{
    if k == 0 {
        1
    } else {
        10 * pow10((k - 1) as nat)
    }
}

pub open spec fn pow16(k: nat) -> int
    decreases k,
{
    if k == 0 {
        1
    } else {
        16 * pow16((k - 1) as nat)
    }
}

proof fn lemma_pow10_pos(k: nat)
    ensures
        pow10(k) >= 1,
    decreases k,
{
    if k > 0 {
        lemma_pow10_pos((k - 1) as nat);
    }
}

proof fn lemma_pow16_pos(k: nat)
    ensures
        pow16(k) >= 1,
    decreases k,
{
    if k > 0 {
        lemma_pow16_pos((k - 1) as nat);
    }
}

// ---------------------------------------------------------------- decimal
/// The canonical decimal digits of `n`, most significant first, no leading
/// zeros.
pub open spec fn dec_digits(n: nat) -> Seq<char>
    decreases n,
{
    if n < 10 {
        seq![digit_char(n as int)]
    } else {
        dec_digits(n / 10) + seq![digit_char((n % 10) as int)]
    }
}

/// The canonical text of an `i64`: a minus sign for negative values, then
/// the decimal digits of the magnitude.
pub open spec fn spec_dec_i64(v: i64) -> Seq<char> {
    if v < 0 {
        seq!['-'] + dec_digits((-(v as int)) as nat)
    } else {
        dec_digits(v as nat)
    }
}

/// How many of the leading characters of `t` are decimal digits.
pub open spec fn digits_len(t: Seq<char>) -> int
    decreases t.len(),
{
    if t.len() == 0 || !is_digit(t[0]) {
        0
    } else {
        1 + digits_len(t.drop_first())
    }
}

/// The value of the first `k` characters of `t` read as decimal digits,
/// most significant first.
pub open spec fn digits_val(t: Seq<char>, k: int) -> int
    decreases k,
{
    if k <= 0 {
        0
    } else {
        digits_val(t, k - 1) * 10 + digit_val(t[k - 1])
    }
}

/// Parsing an `i64` from the front of `t`: an optional minus sign, then a
/// maximal run of digits — nonempty, free of leading zeros, no minus zero,
/// and in range. Returns the number of characters consumed and the value.
pub open spec fn sp_i64(t: Seq<char>) -> Option<(int, i64)> {
    if t.len() > 0 && t[0] == '-' {
        let u = t.drop_first();
        let k = digits_len(u);
        if k == 0 || k > 19 || u[0] == '0' {
            None
        } else {
            let m = digits_val(u, k);
            if m > 0x8000_0000_0000_0000 {
                None
            } else {
                Some((k + 1, (-m) as i64))
            }
        }
    } else {
        let k = digits_len(t);
        if k == 0 || k > 19 || (k > 1 && t[0] == '0') {
            None
        } else {
            let m = digits_val(t, k);
            if m > 0x7fff_ffff_ffff_ffff {
                None
            } else {
                Some((k, m as i64))
            }
        }
    }
}

proof fn lemma_digits_len_from_prefix(t: Seq<char>, k: int)
    requires
        0 <= k <= t.len(),
        forall|i: int| 0 <= i < k ==> is_digit(t[i]),
        k == t.len() || !is_digit(t[k]),
    ensures
        digits_len(t) == k,
    decreases k,
{
    if k == 0 {
    } else {
        assert(is_digit(t[0]));
        let u = t.drop_first();
        assert(forall|i: int| 0 <= i < k - 1 ==> u[i] == t[i + 1] && is_digit(u[i]));
        if k - 1 < u.len() {
            assert(u[k - 1] == t[k]);
        }
        lemma_digits_len_from_prefix(u, k - 1);
    }
}

proof fn lemma_digits_len_at_least(t: Seq<char>, k: int)
    requires
        0 <= k <= t.len(),
        forall|i: int| 0 <= i < k ==> is_digit(t[i]),
    ensures
        digits_len(t) >= k,
    decreases k,
{
    if k > 0 {
        assert(is_digit(t[0]));
        let u = t.drop_first();
        assert(forall|i: int| 0 <= i < k - 1 ==> u[i] == t[i + 1] && is_digit(u[i]));
        lemma_digits_len_at_least(u, k - 1);
        assert(digits_len(t) == 1 + digits_len(u));
    } else {
        lemma_digits_len_nonneg(t);
    }
}

proof fn lemma_digits_len_nonneg(t: Seq<char>)
    ensures
        0 <= digits_len(t) <= t.len(),
    decreases t.len(),
{
    if t.len() > 0 && is_digit(t[0]) {
        lemma_digits_len_nonneg(t.drop_first());
    }
}

proof fn lemma_digits_val_congruent(t1: Seq<char>, t2: Seq<char>, k: int)
    requires
        k <= t1.len(),
        k <= t2.len(),
        forall|i: int| 0 <= i < k ==> t1[i] == t2[i],
    ensures
        digits_val(t1, k) == digits_val(t2, k),
    decreases k,
{
    if k > 0 {
        assert(forall|i: int| 0 <= i < k - 1 ==> t1[i] == t2[i]);
        lemma_digits_val_congruent(t1, t2, k - 1);
        assert(t1[k - 1] == t2[k - 1]);
    }
}

proof fn lemma_digits_val_bound(t: Seq<char>, k: int)
    requires
        0 <= k <= t.len(),
        forall|i: int| 0 <= i < k ==> is_digit(t[i]),
    ensures
        0 <= digits_val(t, k) < pow10(k as nat),
    decreases k,
{
    if k == 0 {
    } else {
        lemma_digits_val_bound(t, k - 1);
        assert(0 <= digit_val(t[k - 1]) <= 9);
    }
}

/// The canonical digits of `n` are all digits, start with a nonzero digit
/// unless `n` is zero, and never hold a newline.
proof fn lemma_dec_digits_shape(n: nat)
    ensures
        dec_digits(n).len() >= 1,
        forall|i: int| 0 <= i < dec_digits(n).len() ==> #[trigger] is_digit(dec_digits(n)[i]),
        n >= 1 ==> dec_digits(n)[0] != '0',
        n < 10 ==> dec_digits(n) == seq![digit_char(n as int)],
        forall|i: int| 0 <= i < dec_digits(n).len() ==> #[trigger] dec_digits(n)[i] != '\n',
    decreases n,
{
    if n < 10 {
        lemma_digit_char(n as int);
    } else {
        lemma_dec_digits_shape(n / 10);
        lemma_digit_char((n % 10) as int);
        assert(dec_digits(n)[0] == dec_digits(n / 10)[0]);
    }
}

proof fn lemma_dec_digits_len(n: nat, k: nat)
    requires
        k >= 1,
        n < pow10(k),
    ensures
        dec_digits(n).len() <= k,
    decreases n,
{
    if n < 10 {
    } else {
        if k == 1 {
            assert(pow10(0) == 1);
            assert(pow10(1) == 10);
            assert(false);
        }
        assert(pow10(k) == 10 * pow10((k - 1) as nat));
        lemma_dec_digits_len(n / 10, (k - 1) as nat);
    }
}

proof fn lemma_dec_digits_val(n: nat)
    ensures
        digits_val(dec_digits(n), dec_digits(n).len() as int) == n,
    decreases n,
{
    let t = dec_digits(n);
    assert(digits_val(t, 0) == 0);
    if n < 10 {
        lemma_digit_char(n as int);
        assert(t[0] == digit_char(n as int));
        assert(digits_val(t, 1) == digits_val(t, 0) * 10 + digit_val(t[0]));
    } else {
        let p = dec_digits(n / 10);
        let l = p.len() as int;
        lemma_dec_digits_val(n / 10);
        assert(t =~= p + seq![digit_char((n % 10) as int)]);
        assert(t.len() as int == l + 1);
        assert(forall|i: int| 0 <= i < l ==> t[i] == p[i]);
        lemma_digits_val_congruent(t, p, l);
        assert(t[l] == digit_char((n % 10) as int));
        lemma_digit_char((n % 10) as int);
        assert(digits_val(t, l + 1) == digits_val(t, l) * 10 + digit_val(t[l]));
    }
}

/// Round trip for `i64` text: parsing the canonical encoding — with
/// anything that does not begin with a digit after it — consumes exactly
/// the encoding and yields the value back.
pub proof fn lemma_i64_round_trip(v: i64, rest: Seq<char>)
    requires
        rest.len() == 0 || !is_digit(rest[0]),
    ensures
        spec_dec_i64(v).len() >= 1,
        sp_i64(spec_dec_i64(v) + rest) == Some((spec_dec_i64(v).len() as int, v)),
{
    lemma_pow10_19();
    if v >= 0 {
        let d = dec_digits(v as nat);
        let t = d + rest;
        lemma_dec_digits_shape(v as nat);
        assert(forall|i: int| 0 <= i < d.len() ==> t[i] == d[i]);
        assert(t[0] == d[0]);
        assert(!is_digit('-'));
        assert(t[0] != '-');
        if d.len() < t.len() {
            assert(t[d.len() as int] == rest[0]);
        }
        lemma_digits_len_from_prefix(t, d.len() as int);
        lemma_dec_digits_len(v as nat, 19);
        lemma_digits_val_congruent(t, d, d.len() as int);
        lemma_dec_digits_val(v as nat);
        if v >= 10 {
            assert(t[0] != '0');
        }
        assert(digits_val(t, digits_len(t)) == v);
    } else {
        let m = (-(v as int)) as nat;
        let d = dec_digits(m);
        let t = seq!['-'] + d + rest;
        assert(spec_dec_i64(v) + rest =~= t);
        lemma_dec_digits_shape(m);
        assert(t[0] == '-');
        let u = t.drop_first();
        assert(u =~= d + rest);
        assert(forall|i: int| 0 <= i < d.len() ==> u[i] == d[i]);
        if d.len() < u.len() {
            assert(u[d.len() as int] == rest[0]);
        }
        lemma_digits_len_from_prefix(u, d.len() as int);
        assert(m < pow10(19));
        lemma_dec_digits_len(m, 19);
        lemma_digits_val_congruent(u, d, d.len() as int);
        lemma_dec_digits_val(m);
        assert(u[0] == d[0]);
        assert(u[0] != '0');
        assert(digits_val(u, digits_len(u)) == m);
        assert(m <= 0x8000_0000_0000_0000);
        assert(((-(m as int)) as i64) == v);
        assert(sp_i64(t) == Some((d.len() as int + 1, v)));
        assert(spec_dec_i64(v).len() == d.len() + 1);
    }
}

/// Appends the canonical decimal digits of `n`.
fn push_dec_u64(n: u64, out: &mut Vec<char>)
    ensures
        final(out)@ == old(out)@ + dec_digits(n as nat),
    decreases n,
{
    if n < 10 {
        out.push(digit_char_x(n as u8));
        assert(final(out)@ =~= old(out)@ + dec_digits(n as nat));
    } else {
        push_dec_u64(n / 10, out);
        out.push(digit_char_x((n % 10) as u8));
        assert(final(out)@ =~= old(out)@ + dec_digits(n as nat));
    }
}

/// Appends the canonical text of an `i64` timestamp.
pub fn push_dec_i64(v: i64, out: &mut Vec<char>)
    ensures
        final(out)@ == old(out)@ + spec_dec_i64(v),
{
    if v < 0 {
        out.push('-');
        let m: u64 = (-(v as i128)) as u64;
        assert(m as nat == (-(v as int)) as nat);
        push_dec_u64(m, out);
        assert(final(out)@ =~= old(out)@ + spec_dec_i64(v));
    } else {
        push_dec_u64(v as u64, out);
    }
}

/// Parses an `i64` from position `pos` of `v`, exactly as `sp_i64` reads
/// the remaining input.
pub fn parse_i64(v: &Vec<char>, pos: usize) -> (r: Option<(i64, usize)>)
    requires
        pos <= v@.len(),
    ensures
        match r {
            Some((val, newpos)) => pos < newpos <= v@.len() && sp_i64(v@.skip(pos as int))
                == Some((newpos - pos, val)),
            None => sp_i64(v@.skip(pos as int)) is None,
        },
{
    let ghost t = v@.skip(pos as int);
    let len = v.len();
    let neg = pos < len && v[pos] == '-';
    let dstart: usize = if neg { pos + 1 } else { pos };
    let ghost u = if neg { t.drop_first() } else { t };
    proof {
        if neg {
            assert(u =~= v@.skip(dstart as int));
        } else {
            assert(t.len() == 0 || t[0] != '-');
        }
    }
    // count the leading digits, stopping once the run is provably too long
    let mut k: usize = 0;
    while dstart + k < len && k < 20 && is_digit_x(v[dstart + k])
        invariant
            pos <= dstart <= len,
            len == v@.len(),
            u == v@.skip(dstart as int),
            k <= 20,
            dstart + k <= len,
            forall|i: int| 0 <= i < k ==> is_digit(u[i]),
        decreases len - (dstart + k),
    {
        assert(u[k as int] == v@[dstart + k]);
        k = k + 1;
    }
    if k == 0 {
        proof {
            if u.len() > 0 {
                assert(u[0] == v@[dstart as int]);
            }
            lemma_digits_len_from_prefix(u, 0);
        }
        return None;
    }
    if k == 20 {
        proof {
            lemma_digits_len_at_least(u, 20);
        }
        return None;
    }
    // here the digit run ended before index k == digits_len(u)
    proof {
        if (dstart + k) < len {
            assert(u[k as int] == v@[dstart + k]);
        }
        assert(k as int == u.len() || !is_digit(u[k as int]));
        lemma_digits_len_from_prefix(u, k as int);
    }
    if v[dstart] == '0' && (neg || k > 1) {
        return None;
    }
    let mut acc: u64 = 0;
    let mut i: usize = 0;
    proof {
        lemma_pow10_19();
    }
    while i < k
        invariant
            i <= k,
            k < 20,
            dstart + k <= len,
            len == v@.len(),
            u == v@.skip(dstart as int),
            forall|j: int| 0 <= j < k ==> is_digit(u[j]),
            acc == digits_val(u, i as int),
            0 <= acc < pow10(i as nat),
            pow10(19) == 10_000_000_000_000_000_000,
        decreases k - i,
    {
        assert(u[i as int] == v@[dstart + i]);
        proof {
            lemma_pow10_monotone((i + 1) as nat, 19);
            assert(pow10((i + 1) as nat) == 10 * pow10(i as nat));
            assert(acc * 10 + 9 < pow10((i + 1) as nat));
        }
        let d = digit_val_x(v[dstart + i]);
        acc = acc * 10 + (d as u64);
        proof {
            assert(digits_val(u, i as int + 1) == digits_val(u, i as int) * 10 + digit_val(
                u[i as int],
            ));
        }
        i = i + 1;
    }
    if neg {
        if acc > 0x8000_0000_0000_0000 {
            return None;
        }
        let val: i64 = (-(acc as i128)) as i64;
        assert(sp_i64(t) == Some((k + 1, val)));
        Some((val, dstart + k))
    } else {
        if acc > 0x7fff_ffff_ffff_ffff {
            return None;
        }
        let val: i64 = acc as i64;
        Some((val, dstart + k))
    }
}

// ---------------------------------------------------------------- identifiers
/// The `k` hexadecimal digits of `n`, most significant first, zero-padded
/// to exactly `k` characters.
pub open spec fn hex_digits(n: nat, k: nat) -> Seq<char>
    decreases k,
{
    if k == 0 {
        Seq::empty()
    } else {
        hex_digits(n / 16, (k - 1) as nat).push(hex_char((n % 16) as int))
    }
}

/// The value of the first `k` characters of `t` read as hexadecimal digits,
/// most significant first.
pub open spec fn hexs_val(t: Seq<char>, k: int) -> int
    decreases k,
{
    if k <= 0 {
        0
    } else {
        hexs_val(t, k - 1) * 16 + hex_val(t[k - 1])
    }
}

/// Where the `i`-th of the 32 hexadecimal digits stands in the hyphenated
/// 8-4-4-4-12 identifier text.
pub open spec fn uuid_src(i: int) -> int {
    if i < 8 {
        i
    } else if i < 12 {
        i + 1
    } else if i < 16 {
        i + 2
    } else if i < 20 {
        i + 3
    } else {
        i + 4
    }
}

/// The 32 hexadecimal digits of an identifier text, hyphens dropped.
pub open spec fn uuid_strip(t: Seq<char>) -> Seq<char> {
    Seq::new(32, |i: int| t[uuid_src(i)])
}

/// The canonical hyphenated text of a session identifier: 32 lowercase
/// hexadecimal digits in the 8-4-4-4-12 layout.
pub open spec fn spec_uuid_chars(id: u128) -> Seq<char> {
    let h = hex_digits(id as nat, 32);
    h.subrange(0, 8) + seq!['-'] + h.subrange(8, 12) + seq!['-'] + h.subrange(12, 16)
        + seq!['-'] + h.subrange(16, 20) + seq!['-'] + h.subrange(20, 32)
}

/// Parsing a session identifier from the front of `t`: exactly 36
/// characters, hyphens in the canonical positions, lowercase hexadecimal
/// digits everywhere else.
pub open spec fn sp_uuid(t: Seq<char>) -> Option<(int, u128)> {
    if t.len() >= 36 && t[8] == '-' && t[13] == '-' && t[18] == '-' && t[23] == '-' && (forall|
        i: int,
    |
        0 <= i < 32 ==> is_hex_lower(#[trigger] uuid_strip(t)[i])) {
        Some((36, hexs_val(uuid_strip(t), 32) as u128))
    } else {
        None
    }
}

proof fn lemma_hex_digits_shape(n: nat, k: nat)
    ensures
        hex_digits(n, k).len() == k,
        forall|i: int| 0 <= i < k ==> is_hex_lower(#[trigger] hex_digits(n, k)[i]),
    decreases k,
{
    if k > 0 {
        lemma_hex_digits_shape(n / 16, (k - 1) as nat);
        lemma_hex_char((n % 16) as int);
    }
}

proof fn lemma_hexs_val_congruent(t1: Seq<char>, t2: Seq<char>, k: int)
    requires
        k <= t1.len(),
        k <= t2.len(),
        forall|i: int| 0 <= i < k ==> t1[i] == t2[i],
    ensures
        hexs_val(t1, k) == hexs_val(t2, k),
    decreases k,
{
    if k > 0 {
        assert(forall|i: int| 0 <= i < k - 1 ==> t1[i] == t2[i]);
        lemma_hexs_val_congruent(t1, t2, k - 1);
        assert(t1[k - 1] == t2[k - 1]);
    }
}

proof fn lemma_hexs_val_bound(t: Seq<char>, k: int)
    requires
        0 <= k <= t.len(),
        forall|i: int| 0 <= i < k ==> is_hex_lower(t[i]),
    ensures
        0 <= hexs_val(t, k) < pow16(k as nat),
    decreases k,
{
    if k == 0 {
    } else {
        lemma_hexs_val_bound(t, k - 1);
        assert(0 <= hex_val(t[k - 1]) <= 15);
    }
}

proof fn lemma_hex_digits_val(n: nat, k: nat)
    requires
        n < pow16(k),
    ensures
        hexs_val(hex_digits(n, k), k as int) == n,
    decreases k,
{
    let t = hex_digits(n, k);
    if k == 0 {
    } else {
        let p = hex_digits(n / 16, (k - 1) as nat);
        assert(pow16(k) == 16 * pow16((k - 1) as nat));
        lemma_hex_digits_val(n / 16, (k - 1) as nat);
        lemma_hex_digits_shape(n / 16, (k - 1) as nat);
        lemma_hex_digits_shape(n, k);
        assert(forall|i: int| 0 <= i < k - 1 ==> t[i] == p[i]);
        lemma_hexs_val_congruent(t, p, k - 1);
        lemma_hex_char((n % 16) as int);
        assert(t[k - 1] == hex_char((n % 16) as int));
        assert(hexs_val(t, k as int) == hexs_val(t, k - 1) * 16 + hex_val(t[k - 1]));
    }
}

proof fn lemma_pow16_32()
    ensures
        pow16(32) == 0x1_0000_0000_0000_0000_0000_0000_0000_0000,
{
    reveal_with_fuel(pow16, 33);
}

/// How each character of the canonical identifier text relates to the
/// underlying 32 hexadecimal digits.
proof fn lemma_uuid_chars_index(id: u128)
    ensures
        spec_uuid_chars(id).len() == 36,
        spec_uuid_chars(id)[8] == '-',
        spec_uuid_chars(id)[13] == '-',
        spec_uuid_chars(id)[18] == '-',
        spec_uuid_chars(id)[23] == '-',
        forall|i: int| 0 <= i < 32 ==> #[trigger] spec_uuid_chars(id)[uuid_src(i)] == hex_digits(
            id as nat,
            32,
        )[i],
{
    let h = hex_digits(id as nat, 32);
    lemma_hex_digits_shape(id as nat, 32);
    let enc = spec_uuid_chars(id);
    assert(enc.len() == 36);
    assert forall|i: int| 0 <= i < 32 implies #[trigger] enc[uuid_src(i)] == h[i] by {
        if i < 8 {
            assert(enc[i] == h.subrange(0, 8)[i]);
        } else if i < 12 {
            assert(enc[i + 1] == h.subrange(8, 12)[i - 8]);
        } else if i < 16 {
            assert(enc[i + 2] == h.subrange(12, 16)[i - 12]);
        } else if i < 20 {
            assert(enc[i + 3] == h.subrange(16, 20)[i - 16]);
        } else {
            assert(enc[i + 4] == h.subrange(20, 32)[i - 20]);
        }
    }
}

/// Round trip for identifier text: parsing the canonical encoding — with
/// anything at all after it — consumes exactly 36 characters and yields the
/// identifier back.
pub proof fn lemma_uuid_round_trip(id: u128, rest: Seq<char>)
    ensures
        spec_uuid_chars(id).len() == 36,
        sp_uuid(spec_uuid_chars(id) + rest) == Some((36int, id)),
{
    let h = hex_digits(id as nat, 32);
    lemma_hex_digits_shape(id as nat, 32);
    lemma_uuid_chars_index(id);
    let enc = spec_uuid_chars(id);
    let t = enc + rest;
    assert(forall|j: int| 0 <= j < 36 ==> t[j] == enc[j]);
    assert(t[8] == '-' && t[13] == '-' && t[18] == '-' && t[23] == '-');
    assert forall|i: int| 0 <= i < 32 implies #[trigger] uuid_strip(t)[i] == h[i] by {
        assert(0 <= uuid_src(i) < 36);
        assert(uuid_strip(t)[i] == t[uuid_src(i)]);
        assert(enc[uuid_src(i)] == h[i]);
    }
    assert(uuid_strip(t) =~= h);
    lemma_pow16_32();
    lemma_hex_digits_val(id as nat, 32);
    assert(hexs_val(uuid_strip(t), 32) == id);
}

/// Identifier text never holds a raw newline.
pub proof fn lemma_uuid_no_newline(id: u128)
    ensures
        forall|j: int| 0 <= j < spec_uuid_chars(id).len() ==> #[trigger] spec_uuid_chars(id)[j]
            != '\n',
{
    let enc = spec_uuid_chars(id);
    let h = hex_digits(id as nat, 32);
    lemma_hex_digits_shape(id as nat, 32);
    lemma_uuid_chars_index(id);
    assert forall|j: int| 0 <= j < enc.len() implies #[trigger] enc[j] != '\n' by {
        if j == 8 || j == 13 || j == 18 || j == 23 {
        } else {
            let i: int = if j < 8 {
                j
            } else if j < 13 {
                j - 1
            } else if j < 18 {
                j - 2
            } else if j < 23 {
                j - 3
            } else {
                j - 4
            };
            assert(uuid_src(i) == j);
            assert(enc[j] == h[i]);
            assert(is_hex_lower(h[i]));
        }
    }
}

/// Timestamp text never holds a raw newline.
pub proof fn lemma_dec_i64_no_newline(v: i64)
    ensures
        forall|j: int| 0 <= j < spec_dec_i64(v).len() ==> #[trigger] spec_dec_i64(v)[j] != '\n',
{
    if v < 0 {
        let m = (-(v as int)) as nat;
        lemma_dec_digits_shape(m);
        assert(forall|j: int| 0 <= j < spec_dec_i64(v).len() ==> spec_dec_i64(v)[j] == if j == 0 {
            '-'
        } else {
            dec_digits(m)[j - 1]
        });
    } else {
        lemma_dec_digits_shape(v as nat);
    }
}

fn push_hex_digits(n: u128, k: usize, out: &mut Vec<char>)
    ensures
        final(out)@ == old(out)@ + hex_digits(n as nat, k as nat),
    decreases k,
{
    if k > 0 {
        push_hex_digits(n / 16, k - 1, out);
        out.push(hex_char_x((n % 16) as u8));
        assert(final(out)@ =~= old(out)@ + hex_digits(n as nat, k as nat));
    } else {
        assert(final(out)@ =~= old(out)@ + hex_digits(n as nat, 0));
    }
}

fn push_range(src: &Vec<char>, from: usize, to: usize, out: &mut Vec<char>)
    requires
        from <= to <= src@.len(),
    ensures
        final(out)@ == old(out)@ + src@.subrange(from as int, to as int),
{
    let mut i: usize = from;
    while i < to
        invariant
            from <= i <= to <= src@.len(),
            out@ == old(out)@ + src@.subrange(from as int, i as int),
        decreases to - i,
    {
        out.push(src[i]);
        assert(out@ =~= old(out)@ + src@.subrange(from as int, i + 1));
        i = i + 1;
    }
}

/// Appends the canonical hyphenated text of a session identifier.
pub fn push_uuid(id: u128, out: &mut Vec<char>)
    ensures
        final(out)@ == old(out)@ + spec_uuid_chars(id),
{
    let mut h: Vec<char> = Vec::new();
    push_hex_digits(id, 32, &mut h);
    proof {
        lemma_hex_digits_shape(id as nat, 32);
    }
    push_range(&h, 0, 8, out);
    out.push('-');
    push_range(&h, 8, 12, out);
    out.push('-');
    push_range(&h, 12, 16, out);
    out.push('-');
    push_range(&h, 16, 20, out);
    out.push('-');
    push_range(&h, 20, 32, out);
    assert(final(out)@ =~= old(out)@ + spec_uuid_chars(id));
}

/// Parses a session identifier from position `pos` of `v`, exactly as
/// `sp_uuid` reads the remaining input.
pub fn parse_uuid(v: &Vec<char>, pos: usize) -> (r: Option<(u128, usize)>)
    requires
        pos <= v@.len(),
    ensures
        match r {
            Some((id, newpos)) => newpos == pos + 36 && newpos <= v@.len() && sp_uuid(
                v@.skip(pos as int),
            ) == Some((36int, id)),
            None => sp_uuid(v@.skip(pos as int)) is None,
        },
{
    let ghost t = v@.skip(pos as int);
    let len = v.len();
    if len - pos < 36 {
        return None;
    }
    assert(forall|j: int| 0 <= j < 36 ==> t[j] == v@[pos + j]);
    if !(v[pos + 8] == '-' && v[pos + 13] == '-' && v[pos + 18] == '-' && v[pos + 23] == '-') {
        return None;
    }
    proof {
        lemma_pow16_32();
    }
    let mut acc: u128 = 0;
    let mut i: usize = 0;
    while i < 32
        invariant
            i <= 32,
            len == v@.len(),
            pos + 36 <= len,
            t == v@.skip(pos as int),
            forall|j: int| 0 <= j < i ==> is_hex_lower(#[trigger] uuid_strip(t)[j]),
            acc == hexs_val(uuid_strip(t), i as int),
            0 <= acc < pow16(i as nat),
            pow16(32) == 0x1_0000_0000_0000_0000_0000_0000_0000_0000,
        decreases 32 - i,
    {
        let si: usize = pos + (if i < 8 {
            i
        } else if i < 12 {
            i + 1
        } else if i < 16 {
            i + 2
        } else if i < 20 {
            i + 3
        } else {
            i + 4
        });
        assert(uuid_strip(t)[i as int] == t[uuid_src(i as int)]);
        assert(t[uuid_src(i as int)] == v@[si as int]);
        let c = v[si];
        if !is_hex_lower_x(c) {
            return None;
        }
        proof {
            lemma_pow16_monotone((i + 1) as nat, 32);
            assert(pow16((i + 1) as nat) == 16 * pow16(i as nat));
            assert(acc * 16 + 15 < pow16((i + 1) as nat));
        }
        let d = hex_val_x(c);
        acc = acc * 16 + (d as u128);
        proof {
            assert(hexs_val(uuid_strip(t), i as int + 1) == hexs_val(uuid_strip(t), i as int) * 16
                + hex_val(uuid_strip(t)[i as int]));
        }
        i = i + 1;
    }
    assert(sp_uuid(t) == Some((36int, hexs_val(uuid_strip(t), 32) as u128)));
    Some((acc, pos + 36))
}

proof fn lemma_pow16_monotone(a: nat, b: nat)
    requires
        a <= b,
    ensures
        pow16(a) <= pow16(b),
    decreases b,
{
    if a < b {
        lemma_pow16_monotone(a, (b - 1) as nat);
        lemma_pow16_pos((b - 1) as nat);
    }
}

proof fn lemma_pow10_19()
    ensures
        pow10(19) == 10_000_000_000_000_000_000,
{
    reveal_with_fuel(pow10, 20);
}

proof fn lemma_pow10_monotone(a: nat, b: nat)
    requires
        a <= b,
    ensures
        pow10(a) <= pow10(b),
    decreases b,
{
    if a < b {
        lemma_pow10_monotone(a, (b - 1) as nat);
        lemma_pow10_pos((b - 1) as nat);
    }
}

} // verus!
