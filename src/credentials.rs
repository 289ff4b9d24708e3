use vstd::prelude::*;
use vstd::string::{StrSliceExecFns, StringExecFns};

use crate::api::hex_digit;
use crate::data::Login;

verus! {

/// A session proof issued by the vendor at login: who owns it, the token to
/// present, and the absolute epoch second at which it stops being accepted.
pub struct Credentials {
    pub user_id: String,
    pub auth_token: String,
    pub token_expires_at: u64,
}

impl View for Credentials {
    type V = (Seq<char>, Seq<char>, u64);

    open spec fn view(&self) -> (Seq<char>, Seq<char>, u64) {
        (self.user_id@, self.auth_token@, self.token_expires_at)
    }
}

/// The credentials that a successful login hands out.
impl From<Login> for Credentials {
    fn from(val: Login) -> (r: Self) {
        Credentials {
            user_id: val.user_id,
            auth_token: val.auth_token,
            token_expires_at: val.token_expires_at,
        }
    }
}

impl vstd::std_specs::convert::FromSpecImpl<Login> for Credentials {
    open spec fn obeys_from_spec() -> bool {
        true
    }

    open spec fn from_spec(v: Login) -> Self {
        Credentials {
            user_id: v.user_id,
            auth_token: v.auth_token,
            token_expires_at: v.token_expires_at,
        }
    }
}

/// Where the credentials are kept when no other place is configured.
pub fn default_cache_file() -> (r: String)
    ensures
        r@ == "token_cache.json"@,
{
    "token_cache.json".to_owned()
}

impl Credentials {
    pub fn new(user_id: String, auth_token: String, token_expires_at: u64) -> (r: Self)
        ensures
            r.user_id@ == user_id@,
            r.auth_token@ == auth_token@,
            r.token_expires_at == token_expires_at,
    {
        Credentials { user_id, auth_token, token_expires_at }
    }

    /// Seconds left before the credentials expire, measured from `now`
    /// (epoch seconds); zero or negative once they have expired.
    pub open spec fn remaining(&self, now: u64) -> int {
        self.token_expires_at - now
    }

    /// `None` only where the difference cannot be held by an `i64`.
    pub fn expires_in(&self, now: u64) -> (r: Option<i64>)
        ensures
            r matches Some(v) ==> v == self.remaining(now),
            r is None <==> !(i64::MIN <= self.remaining(now) <= i64::MAX),
    {
        if self.token_expires_at >= now {
            let d: u64 = self.token_expires_at - now;
            if d <= i64::MAX as u64 {
                Some(d as i64)
            } else {
                None
            }
        } else {
            let d: u64 = now - self.token_expires_at;
            if d <= 0x8000_0000_0000_0000u64 {
                Some((0i128 - d as i128) as i64)
            } else {
                None
            }
        }
    }
}


/// Sign of the time left: negative exactly when `now` is past the expiry.
pub proof fn lemma_remaining_sign(c: Credentials, now: u64)
    ensures
        c.remaining(now) < 0 <==> now > c.token_expires_at,
        c.remaining(now) <= 0 <==> now >= c.token_expires_at,
{
}

// The stored form is the JSON object
// {"user_id":"..","auth_token":"..","token_expires_at":N}, with no spaces.
/// The letter of a control character's short escape, if it has one:
/// backspace, tab, line feed, form feed and carriage return.
pub open spec fn short_letter(c: char) -> Option<char> {
    if c == '\u{8}' {
        Some('b')
    } else if c == '\t' {
        Some('t')
    } else if c == '\n' {
        Some('n')
    } else if c == '\u{c}' {
        Some('f')
    } else if c == '\r' {
        Some('r')
    } else {
        None
    }
}

/// The control character that a short escape letter stands for.
pub open spec fn short_char(l: char) -> Option<char> {
    if l == 'b' {
        Some('\u{8}')
    } else if l == 't' {
        Some('\t')
    } else if l == 'n' {
        Some('\n')
    } else if l == 'f' {
        Some('\u{c}')
    } else if l == 'r' {
        Some('\r')
    } else {
        None
    }
}

/// How a character is written inside a JSON string, as serde_json writes it:
/// the quote and the backslash behind a backslash, the five control
/// characters that have one by their short escape, the other control
/// characters as `\u00XX` in lower-case hex.
pub open spec fn escape_char(c: char) -> Seq<char> {
    if c == '"' {
        seq!['\\', '"']
    } else if c == '\\' {
        seq!['\\', '\\']
    } else if short_letter(c) is Some {
        seq!['\\', short_letter(c)->0]
    } else if (c as u32) < 32 {
        seq!['\\', 'u', '0', '0', hex_digit(c as u32 as int / 16), hex_digit(c as u32 as int % 16)]
    } else {
        seq![c]
    }
}

pub open spec fn escape(s: Seq<char>) -> Seq<char>
    decreases s.len(),
{
    if s.len() == 0 {
        seq![]
    } else {
        escape_char(s[0]) + escape(s.drop_first())
    }
}

/// The decimal digits of `n`, without leading zeros.
pub open spec fn decimal(n: nat) -> Seq<char>
    decreases n,
{
    if n < 10 {
        seq![hex_digit(n as int)]
    } else {
        decimal(n / 10) + seq![hex_digit((n % 10) as int)]
    }
}

pub open spec fn json_of(v: (Seq<char>, Seq<char>, u64)) -> Seq<char> {
    "{\"user_id\":\""@ + escape(v.0) + "\",\"auth_token\":\""@ + escape(v.1)
        + "\",\"token_expires_at\":"@ + decimal(v.2 as nat) + "}"@
}

proof fn lemma_escape_concat(a: Seq<char>, b: Seq<char>)
    ensures
        escape(a + b) == escape(a) + escape(b),
    decreases a.len(),
{
    if a.len() == 0 {
        assert(a + b =~= b);
    } else {
        assert((a + b).drop_first() =~= a.drop_first() + b);
        lemma_escape_concat(a.drop_first(), b);
        assert(escape(a + b) =~= escape(a) + escape(b));
    }
}

/// Relies on String::push: appends one character.
#[verifier::external_body]
fn push_char(s: &mut String, c: char)
    ensures
        final(s)@ == old(s)@.push(c),
{
    s.push(c)
}

fn chars_of(s: &str) -> (r: Vec<char>)
    ensures
        r@ == s@,
{
    let n = s.unicode_len();
    let mut r: Vec<char> = Vec::new();
    let mut i: usize = 0;
    while i < n
        invariant
            i <= n,
            n == s@.len(),
            r@ == s@.take(i as int),
        decreases n - i,
    {
        r.push(s.get_char(i));
        assert(s@.take(i + 1) =~= s@.take(i as int).push(s@[i as int]));
        i = i + 1;
    }
    assert(s@.take(n as int) =~= s@);
    r
}

fn write_hex_digit(out: &mut String, n: u32)
    requires
        n < 16,
    ensures
        final(out)@ == old(out)@.push(hex_digit(n as int)),
{
    if n < 10 {
        push_char(out, (48 + n as u8) as char);
    } else {
        push_char(out, (87 + n as u8) as char);
    }
}

fn write_escaped(out: &mut String, s: &str)
    ensures
        final(out)@ == old(out)@ + escape(s@),
{
    let cs = chars_of(s);
    let mut i: usize = 0;
    while i < cs.len()
        invariant
            i <= cs@.len(),
            cs@ == s@,
            out@ == old(out)@ + escape(cs@.take(i as int)),
        decreases cs.len() - i,
    {
        let c = cs[i];
        let ghost before = out@;
        if c == '"' {
            push_char(out, '\\');
            push_char(out, '"');
        } else if c == '\\' {
            push_char(out, '\\');
            push_char(out, '\\');
        } else if c == '\u{8}' {
            push_char(out, '\\');
            push_char(out, 'b');
        } else if c == '\t' {
            push_char(out, '\\');
            push_char(out, 't');
        } else if c == '\n' {
            push_char(out, '\\');
            push_char(out, 'n');
        } else if c == '\u{c}' {
            push_char(out, '\\');
            push_char(out, 'f');
        } else if c == '\r' {
            push_char(out, '\\');
            push_char(out, 'r');
        } else if (c as u32) < 32 {
            push_char(out, '\\');
            push_char(out, 'u');
            push_char(out, '0');
            push_char(out, '0');
            write_hex_digit(out, c as u32 / 16);
            write_hex_digit(out, c as u32 % 16);
        } else {
            push_char(out, c);
        }
        proof {
            assert(escape(seq![c]) =~= escape_char(c)) by {
                assert(seq![c].drop_first() =~= Seq::<char>::empty());
                assert(seq![c][0] == c);
                assert(escape(Seq::<char>::empty()) == Seq::<char>::empty());
                assert(escape(seq![c]) == escape_char(c) + escape(Seq::<char>::empty()));
            }
            assert(out@ =~= before + escape_char(c));
            assert(cs@.take(i + 1) =~= cs@.take(i as int) + seq![c]);
            lemma_escape_concat(cs@.take(i as int), seq![c]);
        }
        i = i + 1;
    }
    assert(cs@.take(cs.len() as int) =~= cs@);
}

fn write_decimal(out: &mut String, n: u64)
    ensures
        final(out)@ == old(out)@ + decimal(n as nat),
    decreases n,
{
    if n >= 10 {
        write_decimal(out, n / 10);
    }
    write_hex_digit(out, (n % 10) as u32);
    assert(out@ =~= old(out)@ + decimal(n as nat));
}

impl Credentials {
    /// The stored form of the credentials.
    pub fn to_json(&self) -> (r: String)
        ensures
            r@ == json_of(self@),
    {
        let mut out = String::new();
        out.append("{\"user_id\":\"");
        write_escaped(&mut out, self.user_id.as_str());
        out.append("\",\"auth_token\":\"");
        write_escaped(&mut out, self.auth_token.as_str());
        out.append("\",\"token_expires_at\":");
        write_decimal(&mut out, self.token_expires_at);
        out.append("}");
        assert(out@ =~= json_of(self@));
        out
    }
}


pub open spec fn hex_value(c: char) -> int {
    let v = c as u32 as int;
    if 48 <= v <= 57 {
        v - 48
    } else if 97 <= v <= 102 {
        v - 87
    } else {
        -1
    }
}

pub open spec fn is_digit(c: char) -> bool {
    48 <= c as u32 <= 57
}

pub open spec fn shift(pre: Seq<char>, r: Option<(Seq<char>, int)>, k: int) -> Option<
    (Seq<char>, int),
> {
    match r {
        Some((s, n)) => Some((pre + s, n + k)),
        None => None,
    }
}

/// Reads the inside of a JSON string up to its closing quote: the characters
/// it stands for, and how many characters come before the quote.
pub open spec fn unescape(t: Seq<char>) -> Option<(Seq<char>, int)>
    decreases t.len(),
{
    if t.len() == 0 {
        None
    } else if t[0] == '"' {
        Some((seq![], 0))
    } else if t[0] == '\\' {
        if t.len() >= 2 && (t[1] == '"' || t[1] == '\\') {
            shift(seq![t[1]], unescape(t.skip(2)), 2)
        } else if t.len() >= 2 && short_char(t[1]) is Some {
            shift(seq![short_char(t[1])->0], unescape(t.skip(2)), 2)
        } else if t.len() >= 6 && t[1] == 'u' && t[2] == '0' && t[3] == '0' && 0 <= hex_value(t[4])
            < 2 && 0 <= hex_value(t[5]) {
            shift(
                seq![((16 * hex_value(t[4]) + hex_value(t[5])) as u8) as char],
                unescape(t.skip(6)),
                6,
            )
        } else {
            None
        }
    } else {
        shift(seq![t[0]], unescape(t.skip(1)), 1)
    }
}

/// How many decimal digits `t` starts with.
pub open spec fn digit_run(t: Seq<char>) -> nat
    decreases t.len(),
{
    if t.len() > 0 && is_digit(t[0]) {
        1 + digit_run(t.skip(1))
    } else {
        0
    }
}

pub open spec fn digits_value(d: Seq<char>) -> int
    decreases d.len(),
{
    if d.len() == 0 {
        0
    } else {
        digits_value(d.drop_last()) * 10 + (d.last() as u32 - 48)
    }
}

/// The number that `t` starts with, and how many digits it has.
pub open spec fn number_at(t: Seq<char>) -> Option<(u64, int)> {
    let n = digit_run(t);
    let v = digits_value(t.take(n as int));
    if n == 0 || v > u64::MAX {
        None
    } else {
        Some((v as u64, n as int))
    }
}

proof fn lemma_small_char(c: char)
    requires
        (c as u32) < 32,
    ensures
        ((c as u32 as int) as u8) as char == c,
{
}

proof fn lemma_unescape_escape(s: Seq<char>, rest: Seq<char>)
    requires
        rest.len() > 0,
        rest[0] == '"',
    ensures
        unescape(escape(s) + rest) == Some((s, escape(s).len() as int)),
    decreases s.len(),
{
    let t = escape(s) + rest;
    if s.len() == 0 {
        assert(t =~= rest);
    } else {
        let c = s[0];
        let s2 = s.drop_first();
        let tail = escape(s2) + rest;
        lemma_unescape_escape(s2, rest);
        assert(t =~= escape_char(c) + tail);
        let k = escape_char(c).len() as int;
        assert(t.skip(k) =~= tail);
        assert(seq![c] + s2 =~= s);
        if c == '"' || c == '\\' {
        } else if short_letter(c) is Some {
            assert(short_char(short_letter(c)->0) == Some(c));
        } else if (c as u32) < 32 {
            let v = c as u32 as int;
            assert(hex_value(hex_digit(v / 16)) == v / 16);
            assert(hex_value(hex_digit(v % 16)) == v % 16);
            assert(16 * (v / 16) + v % 16 == v);
            lemma_small_char(c);
        } else {
        }
    }
}

proof fn lemma_digits(t: Seq<char>, k: int)
    requires
        0 <= k <= t.len(),
        forall|i: int| 0 <= i < t.len() ==> is_digit(t[i]),
    ensures
        0 <= digits_value(t.take(k)) <= digits_value(t),
    decreases t.len(),
{
    if t.len() > 0 {
        if k == t.len() {
            assert(t.take(k) =~= t);
            lemma_digits(t.drop_last(), t.len() - 1);
            assert(t.drop_last().take(t.len() - 1) =~= t.drop_last());
        } else {
            lemma_digits(t.drop_last(), k);
            assert(t.drop_last().take(k) =~= t.take(k));
            lemma_digits(t.drop_last(), t.len() - 1);
            assert(t.drop_last().take(t.len() - 1) =~= t.drop_last());
        }
    } else {
        assert(t.take(k) =~= t);
    }
}

proof fn lemma_digit_run_len(t: Seq<char>)
    ensures
        digit_run(t) <= t.len(),
    decreases t.len(),
{
    if t.len() > 0 && is_digit(t[0]) {
        lemma_digit_run_len(t.skip(1));
    }
}

proof fn lemma_digit_run_digits(t: Seq<char>, i: int)
    requires
        0 <= i < digit_run(t),
    ensures
        i < t.len(),
        is_digit(t[i]),
    decreases t.len(),
{
    assert(t.len() > 0 && is_digit(t[0]));
    assert(digit_run(t) == 1 + digit_run(t.skip(1)));
    if i > 0 {
        lemma_digit_run_digits(t.skip(1), i - 1);
        assert(t.skip(1)[i - 1] == t[i]);
    }
}

proof fn lemma_digit_run_of(d: Seq<char>, rest: Seq<char>)
    requires
        forall|i: int| 0 <= i < d.len() ==> is_digit(d[i]),
        rest.len() == 0 || !is_digit(rest[0]),
    ensures
        digit_run(d + rest) == d.len(),
    decreases d.len(),
{
    if d.len() == 0 {
        assert(d + rest =~= rest);
    } else {
        assert((d + rest).skip(1) =~= d.skip(1) + rest);
        lemma_digit_run_of(d.skip(1), rest);
    }
}

proof fn lemma_decimal(n: nat)
    ensures
        decimal(n).len() >= 1,
        forall|i: int| 0 <= i < decimal(n).len() ==> is_digit(#[trigger] decimal(n)[i]),
        digits_value(decimal(n)) == n,
    decreases n,
{
    let k = (n % 10) as int;
    assert((((48 + k) as u8) as char) as u32 == 48 + k);
    let d = decimal(n);
    if n >= 10 {
        lemma_decimal(n / 10);
        assert(d.drop_last() =~= decimal(n / 10));
        assert(d.last() == hex_digit(k));
        assert(digits_value(d) == digits_value(decimal(n / 10)) * 10 + k);
        assert((n / 10) * 10 + k == n);
    } else {
        assert(d.drop_last() =~= Seq::<char>::empty());
        assert(digits_value(Seq::<char>::empty()) == 0);
        assert(d.last() == hex_digit(n as int));
        assert(digits_value(d) == digits_value(d.drop_last()) * 10 + (d.last() as u32 - 48));
    }
}

pub open spec fn starts_with(t: Seq<char>, p: Seq<char>) -> bool {
    p.len() <= t.len() && t.take(p.len() as int) == p
}

/// Reads the stored form back, where `t` is exactly one.
pub open spec fn parse_json(t: Seq<char>) -> Option<(Seq<char>, Seq<char>, u64)> {
    let l1 = "{\"user_id\":\""@;
    let l2 = "\",\"auth_token\":\""@;
    let l3 = "\",\"token_expires_at\":"@;
    let l4 = "}"@;
    if !starts_with(t, l1) {
        None
    } else {
        let at1 = l1.len() as int;
        match unescape(t.skip(at1)) {
            None => None,
            Some((u, n1)) => {
                let at2 = at1 + n1;
                if !starts_with(t.skip(at2), l2) {
                    None
                } else {
                    let at3 = at2 + l2.len();
                    match unescape(t.skip(at3)) {
                        None => None,
                        Some((a, n2)) => {
                            let at4 = at3 + n2;
                            if !starts_with(t.skip(at4), l3) {
                                None
                            } else {
                                let at5 = at4 + l3.len();
                                match number_at(t.skip(at5)) {
                                    None => None,
                                    Some((v, n3)) => if t.skip(at5 + n3) == l4 {
                                        Some((u, a, v))
                                    } else {
                                        None
                                    },
                                }
                            }
                        },
                    }
                }
            },
        }
    }
}

proof fn lemma_prefix(p: Seq<char>, rest: Seq<char>)
    ensures
        starts_with(p + rest, p),
        (p + rest).skip(p.len() as int) == rest,
{
    assert((p + rest).take(p.len() as int) =~= p);
    assert((p + rest).skip(p.len() as int) =~= rest);
}

proof fn lemma_skip_skip(t: Seq<char>, a: int, b: int)
    requires
        0 <= a,
        0 <= b,
        a + b <= t.len(),
    ensures
        t.skip(a).skip(b) == t.skip(a + b),
{
    assert(t.skip(a).skip(b) =~= t.skip(a + b));
}

proof fn lemma_parse_json_of(v: (Seq<char>, Seq<char>, u64))
    ensures
        parse_json(json_of(v)) == Some(v),
{
    let l1 = "{\"user_id\":\""@;
    let l2 = "\",\"auth_token\":\""@;
    let l3 = "\",\"token_expires_at\":"@;
    let l4 = "}"@;
    reveal_strlit("\",\"auth_token\":\"");
    reveal_strlit("\",\"token_expires_at\":");
    reveal_strlit("}");
    let e1 = escape(v.0);
    let e2 = escape(v.1);
    let d = decimal(v.2 as nat);
    let r5 = d + l4;
    let r4 = l3 + r5;
    let r3 = e2 + r4;
    let r2 = l2 + r3;
    let r1 = e1 + r2;
    let t = l1 + r1;
    assert(json_of(v) =~= t);
    let at1 = l1.len() as int;
    lemma_prefix(l1, r1);
    lemma_unescape_escape(v.0, r2);
    let at2 = at1 + e1.len();
    lemma_prefix(e1, r2);
    lemma_skip_skip(t, at1, e1.len() as int);
    lemma_prefix(l2, r3);
    let at3 = at2 + l2.len();
    lemma_skip_skip(t, at2, l2.len() as int);
    lemma_unescape_escape(v.1, r4);
    lemma_prefix(e2, r4);
    let at4 = at3 + e2.len();
    lemma_skip_skip(t, at3, e2.len() as int);
    lemma_prefix(l3, r5);
    let at5 = at4 + l3.len();
    lemma_skip_skip(t, at4, l3.len() as int);
    lemma_decimal(v.2 as nat);
    lemma_digit_run_of(d, l4);
    assert(r5.take(d.len() as int) =~= d);
    lemma_prefix(d, l4);
    lemma_skip_skip(t, at5, d.len() as int);
    assert(t.skip(at1) == r1);
    assert(unescape(t.skip(at1)) == Some((v.0, e1.len() as int)));
    assert(t.skip(at2) == r2);
    assert(t.skip(at3) == r3);
    assert(unescape(t.skip(at3)) == Some((v.1, e2.len() as int)));
    assert(t.skip(at4) == r4);
    assert(t.skip(at5) == r5);
    assert(number_at(t.skip(at5)) == Some((v.2, d.len() as int)));
    assert(t.skip(at5 + d.len()) == l4);
}

/// Saving credentials and reading them back gives the same credentials.
pub proof fn lemma_round_trip(c: Credentials)
    ensures
        parse_json(json_of(c@)) == Some(c@),
{
    lemma_parse_json_of(c@);
}

fn lit_at(t: &Vec<char>, i: usize, lit: &str) -> (r: bool)
    requires
        i <= t@.len(),
    ensures
        r == starts_with(t@.skip(i as int), lit@),
        r ==> i + lit@.len() <= t.len(),
{
    let n = lit.unicode_len();
    if n > t.len() - i {
        return false;
    }
    let mut k: usize = 0;
    while k < n
        invariant
            k <= n,
            n == lit@.len(),
            i + n <= t.len(),
            forall|j: int| 0 <= j < k ==> t@[i + j] == lit@[j],
        decreases n - k,
    {
        if t[i + k] != lit.get_char(k) {
            assert(t@.skip(i as int).take(n as int)[k as int] != lit@[k as int]);
            return false;
        }
        k = k + 1;
    }
    assert(t@.skip(i as int).take(n as int) =~= lit@);
    true
}

fn hex_value_of(c: char) -> (r: i32)
    ensures
        r == hex_value(c),
{
    let v = c as u32;
    if 48 <= v && v <= 57 {
        (v - 48) as i32
    } else if 97 <= v && v <= 102 {
        (v - 87) as i32
    } else {
        -1
    }
}

fn short_char_of(l: char) -> (r: Option<char>)
    ensures
        r == short_char(l),
{
    if l == 'b' {
        Some('\u{8}')
    } else if l == 't' {
        Some('\t')
    } else if l == 'n' {
        Some('\n')
    } else if l == 'f' {
        Some('\u{c}')
    } else if l == 'r' {
        Some('\r')
    } else {
        None
    }
}

fn read_string(t: &Vec<char>, start: usize) -> (r: Option<(String, usize)>)
    requires
        start <= t@.len(),
    ensures
        match unescape(t@.skip(start as int)) {
            Some((s, n)) => r matches Some((x, e)) && x@ == s && e == start + n,
            None => r is None,
        },
        r matches Some((_, e)) ==> e < t@.len(),
{
    let mut out = String::new();
    let mut i: usize = start;
    loop
        invariant
            start <= i <= t@.len(),
            unescape(t@.skip(start as int)) == shift(out@, unescape(t@.skip(i as int)), i - start),
        decreases t@.len() - i,
    {
        let ghost u = t@.skip(i as int);
        if i >= t.len() {
            return None;
        }
        let c = t[i];
        if c == '"' {
            return Some((out, i));
        }
        let ghost before = out@;
        if c == '\\' {
            if i + 1 < t.len() && (t[i + 1] == '"' || t[i + 1] == '\\') {
                push_char(&mut out, t[i + 1]);
                proof {
                    assert(u.skip(2) =~= t@.skip(i + 2));
                    assert(before + (seq![t@[i + 1]] + Seq::empty()) =~= out@ + Seq::empty());
                    match unescape(u.skip(2)) {
                        Some((s, n)) => {
                            assert(before + (seq![t@[i + 1]] + s) =~= out@ + s);
                        },
                        None => {},
                    }
                }
                i = i + 2;
            } else if i + 1 < t.len() && short_char_of(t[i + 1]).is_some() {
                let ch = short_char_of(t[i + 1]).unwrap();
                push_char(&mut out, ch);
                proof {
                    assert(u.skip(2) =~= t@.skip(i + 2));
                    match unescape(u.skip(2)) {
                        Some((s, n)) => {
                            assert(before + (seq![ch] + s) =~= out@ + s);
                        },
                        None => {},
                    }
                }
                i = i + 2;
            } else if t.len() - i > 5 && t[i + 1] == 'u' && t[i + 2] == '0' && t[i + 3] == '0' {
                let h4 = hex_value_of(t[i + 4]);
                let h5 = hex_value_of(t[i + 5]);
                if 0 <= h4 && h4 < 2 && 0 <= h5 {
                    let ch = ((16 * h4 + h5) as u8) as char;
                    push_char(&mut out, ch);
                    proof {
                        assert(u.skip(6) =~= t@.skip(i + 6));
                        match unescape(u.skip(6)) {
                            Some((s, n)) => {
                                assert(before + (seq![ch] + s) =~= out@ + s);
                            },
                            None => {},
                        }
                    }
                    i = i + 6;
                } else {
                    return None;
                }
            } else {
                return None;
            }
        } else {
            push_char(&mut out, c);
            proof {
                assert(u.skip(1) =~= t@.skip(i + 1));
                match unescape(u.skip(1)) {
                    Some((s, n)) => {
                        assert(before + (seq![c] + s) =~= out@ + s);
                    },
                    None => {},
                }
            }
            i = i + 1;
        }
    }
}

fn digit_at(t: &Vec<char>, i: usize) -> (r: bool)
    ensures
        r == (i < t@.len() && is_digit(t@[i as int])),
        r ==> i < t.len(),
{
    i < t.len() && 48 <= t[i] as u32 && t[i] as u32 <= 57
}

fn read_number(t: &Vec<char>, start: usize) -> (r: Option<(u64, usize)>)
    requires
        start <= t@.len(),
    ensures
        match number_at(t@.skip(start as int)) {
            Some((v, n)) => r matches Some((x, e)) && x == v && e == start + n,
            None => r is None,
        },
        r matches Some((_, e)) ==> e <= t@.len(),
{
    let ghost s = t@.skip(start as int);
    let ghost run = digit_run(s);
    let mut v: u64 = 0;
    let mut i: usize = start;
    proof {
        assert(t@.subrange(start as int, start as int) =~= Seq::<char>::empty());
    }
    while digit_at(t, i)
        invariant
            start <= i <= t@.len(),
            s == t@.skip(start as int),
            run == digit_run(s),
            run == (i - start) + digit_run(t@.skip(i as int)),
            v == digits_value(t@.subrange(start as int, i as int)),
        decreases t@.len() - i,
    {
        let d = (t[i] as u32 - 48) as u64;
        let ghost sub = t@.subrange(start as int, i + 1);
        proof {
            assert(sub.drop_last() =~= t@.subrange(start as int, i as int));
            assert(t@.skip(i as int).skip(1) =~= t@.skip(i + 1));
        }
        if v > (u64::MAX - d) / 10 {
            proof {
                let whole = s.take(run as int);
                lemma_digit_run_len(s);
                assert forall|j: int| 0 <= j < whole.len() implies is_digit(whole[j]) by {
                    lemma_digit_run_digits(s, j);
                    assert(whole[j] == s[j]);
                }
                assert(whole.take(i + 1 - start) =~= sub);
                lemma_digits(whole, i + 1 - start);
            }
            return None;
        }
        v = v * 10 + d;
        i = i + 1;
    }
    if i == start {
        return None;
    }
    proof {
        assert(s.take(run as int) =~= t@.subrange(start as int, i as int));
    }
    Some((v, i))
}

/// Reads credentials back from their stored form: exactly the text that
/// `to_json` writes is accepted.
pub fn from_json(text: &str) -> (r: Option<Credentials>)
    ensures
        r matches Some(c) ==> json_of(c@) == text@,
        forall|v: (Seq<char>, Seq<char>, u64)|
            #[trigger] json_of(v) == text@ ==> (r matches Some(c) && c@ == v),
{
    let t = chars_of(text);
    let r = parse_chars(&t);
    match r {
        Some(c) => {
            let back = c.to_json();
            let orig = text.to_owned();
            if back == orig {
                proof {
                    assert forall|v: (Seq<char>, Seq<char>, u64)| #[trigger]
                        json_of(v) == text@ implies c@ == v by {
                        lemma_parse_json_of(v);
                    }
                }
                Some(c)
            } else {
                proof {
                    assert forall|v: (Seq<char>, Seq<char>, u64)| #[trigger]
                        json_of(v) == text@ implies false by {
                        lemma_parse_json_of(v);
                    }
                }
                None
            }
        },
        None => {
            proof {
                assert forall|v: (Seq<char>, Seq<char>, u64)| #[trigger]
                    json_of(v) == text@ implies false by {
                    lemma_parse_json_of(v);
                }
            }
            None
        },
    }
}

fn parse_chars(t: &Vec<char>) -> (r: Option<Credentials>)
    ensures
        match parse_json(t@) {
            Some(v) => r matches Some(c) && c@ == v,
            None => r is None,
        },
{
    let l1 = "{\"user_id\":\"";
    let l2 = "\",\"auth_token\":\"";
    let l3 = "\",\"token_expires_at\":";
    let l4 = "}";
    assert(t@.skip(0) =~= t@);
    if !lit_at(t, 0, l1) {
        return None;
    }
    let at1 = l1.unicode_len();
    let (user_id, at2) = match read_string(t, at1) {
        Some(x) => x,
        None => return None,
    };
    if !lit_at(t, at2, l2) {
        return None;
    }
    let at3 = at2 + l2.unicode_len();
    let (auth_token, at4) = match read_string(t, at3) {
        Some(x) => x,
        None => return None,
    };
    if !lit_at(t, at4, l3) {
        return None;
    }
    let at5 = at4 + l3.unicode_len();
    let (token_expires_at, at6) = match read_number(t, at5) {
        Some(x) => x,
        None => return None,
    };
    if !(lit_at(t, at6, l4) && at6 + l4.unicode_len() == t.len()) {
        proof {
            if t@.skip(at6 as int) == l4@ {
                assert(t@.skip(at6 as int).take(l4@.len() as int) =~= l4@);
            }
        }
        return None;
    }
    proof {
        assert(t@.skip(at6 as int) =~= t@.skip(at6 as int).take(l4@.len() as int));
        assert(starts_with(t@, l1@));
        assert(unescape(t@.skip(at1 as int)) == Some((user_id@, at2 - at1)));
        assert(starts_with(t@.skip(at2 as int), l2@));
        assert(unescape(t@.skip(at3 as int)) == Some((auth_token@, at4 - at3)));
        assert(starts_with(t@.skip(at4 as int), l3@));
        assert(number_at(t@.skip(at5 as int)) == Some((token_expires_at, at6 - at5)));
        assert(t@.skip(at6 as int) == l4@);
    }
    Some(Credentials { user_id, auth_token, token_expires_at })
}

} // verus!
