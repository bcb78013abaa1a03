use vstd::prelude::*;

use crate::error::Error;

verus! {

/// Name of the cookie that carries the session token.
pub const AUTH_TOKEN: &'static str = "auth-token";

/// A session token, written `user-<user_id>.<expiration>.<signature>`.
/// The expiration and the signature are carried through without being read.
#[derive(Debug)]
pub struct Token {
    pub user_id: u64,
    pub expiration: String,
    pub signature: String,
}

pub open spec fn is_digit(c: char) -> bool {
    '0' <= c && c <= '9'
}

pub open spec fn digit_value(c: char) -> nat {
    (c as int - '0' as int) as nat
}

pub open spec fn digit_char(d: nat) -> char {
    (d + '0' as int) as char
}

pub open spec fn all_digits(s: Seq<char>) -> bool {
    forall|k: int| 0 <= k < s.len() ==> is_digit(#[trigger] s[k])
}

pub open spec fn no_dot(s: Seq<char>) -> bool {
    forall|k: int| 0 <= k < s.len() ==> #[trigger] s[k] != '.'
}

/// The number that a string of decimal digits denotes.
pub open spec fn digits_value(s: Seq<char>) -> nat
    decreases s.len(),
{
    if s.len() == 0 {
        0
    } else {
        digits_value(s.drop_last()) * 10 + digit_value(s.last())
    }
}

/// The decimal digits of `n`, without leading zeros.
pub open spec fn decimal(n: nat) -> Seq<char>
    decreases n,
{
    if n < 10 {
        seq![digit_char(n)]
    } else {
        decimal(n / 10).push(digit_char(n % 10))
    }
}


pub open spec fn user_prefix() -> Seq<char> {
    seq!['u', 's', 'e', 'r', '-']
}

/// Index of the first `.` in `s` at or after `from`, or `s.len()` when there is none.
pub open spec fn next_dot(s: Seq<char>, from: int) -> int
    decreases s.len() - from,
{
    if from >= s.len() {
        s.len() as int
    } else if s[from] == '.' {
        from
    } else {
        next_dot(s, from + 1)
    }
}

/// What a token string holds: the user id, the expiration and the signature,
/// or `None` where the string is not `user-<digits>.<exp>.<sig>` with
/// non-empty segments free of dots and a user id that fits in a `u64`.
pub open spec fn parse_spec(s: Seq<char>) -> Option<(nat, Seq<char>, Seq<char>)> {
    let i = next_dot(s, 5);
    let j = next_dot(s, i + 1);
    let digits = s.subrange(5, i);
    if s.len() >= 5 && s.subrange(0, 5) == user_prefix() && 5 < i && i < s.len()
        && all_digits(digits) && digits_value(digits) <= u64::MAX && i + 1 < j && j + 1 < s.len()
        && next_dot(s, j + 1) == s.len() {
        Some((digits_value(digits), s.subrange(i + 1, j), s.subrange(j + 1, s.len() as int)))
    } else {
        None
    }
}

/// The text of a token.
pub open spec fn token_text(user_id: nat, expiration: Seq<char>, signature: Seq<char>) -> Seq<char> {
    user_prefix() + decimal(user_id) + seq!['.'] + expiration + seq!['.'] + signature
}

proof fn lemma_next_dot_bounds(s: Seq<char>, from: int)
    requires
        0 <= from <= s.len(),
    ensures
        from <= next_dot(s, from) <= s.len(),
        next_dot(s, from) < s.len() ==> s[next_dot(s, from)] == '.',
    decreases s.len() - from,
{
    if from < s.len() && s[from] != '.' {
        lemma_next_dot_bounds(s, from + 1);
    }
}

proof fn lemma_next_dot_skip(s: Seq<char>, from: int, to: int)
    requires
        0 <= from <= to <= s.len(),
        forall|k: int| from <= k < to ==> s[k] != '.',
    ensures
        next_dot(s, from) == next_dot(s, to),
    decreases to - from,
{
    if from < to {
        lemma_next_dot_skip(s, from + 1, to);
    }
}

proof fn lemma_digits_prefix_le(s: Seq<char>, k: int)
    requires
        0 <= k <= s.len(),
    ensures
        digits_value(s.subrange(0, k)) <= digits_value(s),
    decreases s.len(),
{
    if k < s.len() {
        lemma_digits_prefix_le(s.drop_last(), k);
        assert(s.drop_last().subrange(0, k) =~= s.subrange(0, k));
    } else {
        assert(s.subrange(0, k) =~= s);
    }
}

proof fn lemma_decimal(n: nat)
    ensures
        decimal(n).len() > 0,
        all_digits(decimal(n)),
        digits_value(decimal(n)) == n,
    decreases n,
{
    if n < 10 {
        assert(decimal(n).drop_last() =~= Seq::<char>::empty());
        assert(digit_value(digit_char(n)) == n);
        assert(digits_value(Seq::<char>::empty()) == 0);
        assert(digits_value(decimal(n)) == digits_value(decimal(n).drop_last()) * 10 + n);
    } else {
        lemma_decimal(n / 10);
        assert(decimal(n).drop_last() =~= decimal(n / 10));
        assert(digit_value(digit_char(n % 10)) == n % 10);
        assert(decimal(n).last() == digit_char(n % 10));
        assert(is_digit(digit_char(n % 10)));
        assert(digits_value(decimal(n)) == digits_value(decimal(n / 10)) * 10 + n % 10);
    }
}

/// Parsing the text of a token gives back its fields, whenever the
/// expiration and the signature are non-empty and hold no dot.
pub proof fn lemma_parse_token_text(user_id: u64, expiration: Seq<char>, signature: Seq<char>)
    requires
        expiration.len() > 0,
        no_dot(expiration),
        signature.len() > 0,
        no_dot(signature),
    ensures
        parse_spec(token_text(user_id as nat, expiration, signature)) == Some(
            (user_id as nat, expiration, signature),
        ),
{
    let d = decimal(user_id as nat);
    lemma_decimal(user_id as nat);
    let s = token_text(user_id as nat, expiration, signature);
    let i: int = 5 + d.len() as int;
    let j: int = i + 1 + expiration.len() as int;
    assert(s.len() == j + 1 + signature.len());
    assert(s.subrange(0, 5) =~= user_prefix());
    assert forall|k: int| 5 <= k < i implies s[k] != '.' by {
        assert(s[k] == d[k - 5]);
        assert(is_digit(d[k - 5]));
    }
    assert(s[i] == '.');
    lemma_next_dot_skip(s, 5, i);
    assert forall|k: int| i + 1 <= k < j implies s[k] != '.' by {
        assert(s[k] == expiration[k - i - 1]);
    }
    assert(s[j] == '.');
    lemma_next_dot_skip(s, i + 1, j);
    assert forall|k: int| j + 1 <= k < s.len() implies s[k] != '.' by {
        assert(s[k] == signature[k - j - 1]);
    }
    lemma_next_dot_skip(s, j + 1, s.len() as int);
    assert(s.subrange(5, i) =~= d);
    assert(s.subrange(i + 1, j) =~= expiration);
    assert(s.subrange(j + 1, s.len() as int) =~= signature);
}

/// The single digit `d` as text.
fn digit_str(d: u64) -> (r: &'static str)
    requires
        d < 10,
    ensures
        r@ == seq![digit_char(d as nat)],
{
    let all = "0123456789";
    proof {
        reveal_strlit("0123456789");
    }
    let r = all.substring_char(d as usize, d as usize + 1);
    assert(r@ =~= seq![digit_char(d as nat)]);
    r
}

/// The decimal digits of `n`, without leading zeros.
fn decimal_string(n: u64) -> (r: String)
    ensures
        r@ == decimal(n as nat),
    decreases n,
{
    if n < 10 {
        String::from_str(digit_str(n))
    } else {
        let mut r = decimal_string(n / 10);
        r.append(digit_str(n % 10));
        r
    }
}

impl Token {
    /// Writes the token as `user-<user_id>.<expiration>.<signature>`.
    pub fn serialize(&self) -> (r: String)
        ensures
            r@ == token_text(self.user_id as nat, self.expiration@, self.signature@),
    {
        proof {
            reveal_strlit("user-");
            reveal_strlit(".");
        }
        let mut r = String::from_str("user-");
        assert(r@ =~= user_prefix());
        let digits = decimal_string(self.user_id);
        r.append(digits.as_str());
        r.append(".");
        r.append(self.expiration.as_str());
        r.append(".");
        r.append(self.signature.as_str());
        assert(r@ =~= token_text(self.user_id as nat, self.expiration@, self.signature@));
        r
    }

    /// Reads a token from its text. Fails with `AuthFailTokenWrongFormat`
    /// exactly where the text is not `user-<digits>.<exp>.<sig>`.
    pub fn parse(raw: &str) -> (r: Result<Token, Error>)
        ensures
            match r {
                Ok(t) => parse_spec(raw@) == Some((t.user_id as nat, t.expiration@, t.signature@)),
                Err(e) => parse_spec(raw@) is None && e == Error::AuthFailTokenWrongFormat,
            },
    {
        let ghost s = raw@;
        let n = raw.unicode_len();
        if n < 5 {
            return Err(Error::AuthFailTokenWrongFormat);
        }
        if raw.get_char(0) != 'u' || raw.get_char(1) != 's' || raw.get_char(2) != 'e'
            || raw.get_char(3) != 'r' || raw.get_char(4) != '-' {
            assert(s.subrange(0, 5)[0] == s[0]);
            assert(s.subrange(0, 5)[1] == s[1]);
            assert(s.subrange(0, 5)[2] == s[2]);
            assert(s.subrange(0, 5)[3] == s[3]);
            assert(s.subrange(0, 5)[4] == s[4]);
            return Err(Error::AuthFailTokenWrongFormat);
        }
        assert(s.subrange(0, 5) =~= user_prefix());
        // The user id: digits up to the first dot.
        let mut i: usize = 5;
        let mut value: u64 = 0;
        while i < n && raw.get_char(i) != '.'
            invariant
                s == raw@,
                n == s.len(),
                5 <= i <= n,
                forall|k: int| 5 <= k < i ==> s[k] != '.',
                all_digits(s.subrange(5, i as int)),
                value == digits_value(s.subrange(5, i as int)),
            decreases n - i,
        {
            let c = raw.get_char(i);
            proof {
                lemma_next_dot_skip(s, 5, i as int + 1);
                lemma_next_dot_bounds(s, i as int + 1);
                assert(s.subrange(5, i as int + 1).drop_last() =~= s.subrange(5, i as int));
            }
            let ghost e = next_dot(s, 5);
            if c < '0' || c > '9' {
                assert(s.subrange(5, e)[i - 5] == c);
                return Err(Error::AuthFailTokenWrongFormat);
            }
            let d = (c as u32 - '0' as u32) as u64;
            assert(d == digit_value(c));
            let next = match value.checked_mul(10) {
                Some(v) => v.checked_add(d),
                None => None,
            };
            match next {
                Some(v) => {
                    value = v;
                },
                None => {
                    proof {
                        if all_digits(s.subrange(5, e)) {
                            lemma_digits_prefix_le(s.subrange(5, e), i - 4);
                            assert(s.subrange(5, e).subrange(0, i - 4) =~= s.subrange(5, i + 1));
                        }
                    }
                    return Err(Error::AuthFailTokenWrongFormat);
                },
            }
            i = i + 1;
        }
        proof {
            lemma_next_dot_skip(s, 5, i as int);
        }
        if i == 5 || i == n {
            return Err(Error::AuthFailTokenWrongFormat);
        }
        // The expiration: up to the second dot.
        let mut j: usize = i + 1;
        while j < n && raw.get_char(j) != '.'
            invariant
                s == raw@,
                n == s.len(),
                i < n,
                i + 1 <= j <= n,
                forall|k: int| i + 1 <= k < j ==> s[k] != '.',
            decreases n - j,
        {
            j = j + 1;
        }
        proof {
            lemma_next_dot_skip(s, i + 1, j as int);
        }
        if j == i + 1 || j >= n - 1 {
            return Err(Error::AuthFailTokenWrongFormat);
        }
        // The signature: the rest, which holds no dot.
        let mut k: usize = j + 1;
        while k < n
            invariant
                s == raw@,
                n == s.len(),
                j + 1 < n,
                j + 1 <= k <= n,
                next_dot(s, 5) == i,
                next_dot(s, i + 1) == j,
                forall|m: int| j + 1 <= m < k ==> s[m] != '.',
            decreases n - k,
        {
            if raw.get_char(k) == '.' {
                proof {
                    lemma_next_dot_skip(s, j + 1, k as int);
                    assert(next_dot(s, k as int) == k);
                }
                return Err(Error::AuthFailTokenWrongFormat);
            }
            k = k + 1;
        }
        proof {
            lemma_next_dot_skip(s, j + 1, n as int);
        }
        let expiration = raw.substring_char(i + 1, j).to_owned();
        let signature = raw.substring_char(j + 1, n).to_owned();
        Ok(Token { user_id: value, expiration, signature })
    }
}

} // verus!
