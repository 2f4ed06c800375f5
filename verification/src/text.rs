//! Decimal numbers and whitespace-separated words, as the peers write them
//! into and read them out of their text messages.

use vstd::prelude::*;

verus! {

pub open spec fn is_digit(c: char) -> bool {
    '0' <= c <= '9'
}

pub open spec fn all_digits(s: Seq<char>) -> bool {
    forall|i: int| 0 <= i < s.len() ==> #[trigger] is_digit(s[i])
}

pub open spec fn digit_value(c: char) -> nat {
    (c as int - '0' as int) as nat
}

pub open spec fn digit_char(d: nat) -> char {
    ('0' as int + d) as char
}

/// The number that a string of decimal digits denotes.
pub open spec fn digits_value(s: Seq<char>) -> nat
    decreases s.len(),
{
    if s.len() == 0 {
        0
    } else {
        digits_value(s.drop_last()) * 10 + digit_value(s.last())
    }
}

/// The decimal digits of `n`, without leading zeros.
pub open spec fn decimal(n: nat) -> Seq<char>
    decreases n,
{
    if n < 10 {
        seq![digit_char(n)]
    } else {
        decimal(n / 10).push(digit_char(n % 10))
    }
}

/// The decimal form of `i`, with a leading '-' when it is negative.
pub open spec fn signed_decimal(i: int) -> Seq<char> {
    if i < 0 {
        seq!['-'] + decimal((-i) as nat)
    } else {
        decimal(i as nat)
    }
}

/// An unsigned number as `str::parse` reads it: an optional '+', then one
/// or more decimal digits whose value is at most `max`.
pub open spec fn spec_parse_unsigned(s: Seq<char>, max: nat) -> Option<nat> {
    let body = if s.len() > 0 && s[0] == '+' {
        s.drop_first()
    } else {
        s
    };
    if body.len() > 0 && all_digits(body) && digits_value(body) <= max {
        Some(digits_value(body))
    } else {
        None
    }
}

/// An `i64` as `str::parse` reads it: an optional '+' or '-', then one or
/// more decimal digits whose signed value lies in the range of `i64`.
pub open spec fn spec_parse_i64(s: Seq<char>) -> Option<int> {
    if s.len() > 0 && s[0] == '-' {
        let body = s.drop_first();
        if body.len() > 0 && all_digits(body) && digits_value(body) <= 0x8000_0000_0000_0000 {
            Some(-(digits_value(body) as int))
        } else {
            None
        }
    } else {
        match spec_parse_unsigned(s, 0x7fff_ffff_ffff_ffff) {
            Some(v) => Some(v as int),
            None => None,
        }
    }
}

/// The characters with the Unicode White_Space property, as
/// `char::is_whitespace` documents them.
pub open spec fn is_whitespace(c: char) -> bool {
    ('\u{9}' <= c <= '\u{d}') || c == ' ' || c == '\u{85}' || c == '\u{a0}' || c == '\u{1680}'
        || ('\u{2000}' <= c <= '\u{200a}') || c == '\u{2028}' || c == '\u{2029}' || c
        == '\u{202f}' || c == '\u{205f}' || c == '\u{3000}'
}

/// The words of `s` after the partial word `cur`: maximal runs of
/// characters that are not white space.
pub open spec fn words_from(s: Seq<char>, cur: Seq<char>) -> Seq<Seq<char>>
    decreases s.len(),
{
    if s.len() == 0 {
        if cur.len() > 0 {
            seq![cur]
        } else {
            seq![]
        }
    } else if is_whitespace(s[0]) {
        (if cur.len() > 0 {
            seq![cur]
        } else {
            seq![]
        }) + words_from(s.drop_first(), seq![])
    } else {
        words_from(s.drop_first(), cur.push(s[0]))
    }
}

/// The whitespace-separated words of `s`, as `str::split_whitespace`
/// yields them.
pub open spec fn words(s: Seq<char>) -> Seq<Seq<char>> {
    words_from(s, seq![])
}

pub fn is_whitespace_char(c: char) -> (r: bool)
    ensures
        r == is_whitespace(c),
{
    ('\u{9}' <= c && c <= '\u{d}') || c == ' ' || c == '\u{85}' || c == '\u{a0}' || c
        == '\u{1680}' || ('\u{2000}' <= c && c <= '\u{200a}') || c == '\u{2028}' || c
        == '\u{2029}' || c == '\u{202f}' || c == '\u{205f}' || c == '\u{3000}'
}

/// The characters of a string slice.
pub fn chars_of(s: &str) -> (r: Vec<char>)
    ensures
        r@ == s@,
{
    let n = s.unicode_len();
    let mut r: Vec<char> = Vec::new();
    let mut i: usize = 0;
    while i < n
        invariant
            n == s@.len(),
            i <= n,
            r@ == s@.take(i as int),
        decreases n - i,
    {
        r.push(s.get_char(i));
        assert(s@.take(i + 1) == s@.take(i as int).push(s@[i as int]));
        i = i + 1;
    }
    assert(s@.take(n as int) == s@);
    r
}

/// Collects characters into a string (`String: FromIterator<char>`).
#[verifier::external_body]
pub(crate) fn string_from_chars(chars: &Vec<char>) -> (s: String)
    ensures
        s@ == chars@,
{
    chars.iter().collect()
}

/// Appends the decimal digits of `n`.
pub fn push_decimal(out: &mut Vec<char>, n: u64)
    ensures
        final(out)@ == old(out)@ + decimal(n as nat),
    decreases n,
{
    if n >= 10 {
        push_decimal(out, n / 10);
    }
    let d = (n % 10) as u32;
    let c: char = match d {
        0 => '0',
        1 => '1',
        2 => '2',
        3 => '3',
        4 => '4',
        5 => '5',
        6 => '6',
        7 => '7',
        8 => '8',
        _ => '9',
    };
    out.push(c);
    proof {
        assert(c == digit_char((n % 10) as nat));
        if n < 10 {
            assert(decimal(n as nat) == seq![digit_char(n as nat)]);
        }
    }
}

/// Appends the decimal form of `i`, with a '-' when it is negative.
pub fn push_signed_decimal(out: &mut Vec<char>, i: i64)
    ensures
        final(out)@ == old(out)@ + signed_decimal(i as int),
{
    if i < 0 {
        out.push('-');
        let magnitude: u64 = (0i128 - i as i128) as u64;
        push_decimal(out, magnitude);
        assert(old(out)@.push('-') + decimal(magnitude as nat) == old(out)@ + (seq!['-'] + decimal(
            magnitude as nat,
        )));
    } else {
        push_decimal(out, i as u64);
    }
}

/// The decimal digits of `n` as a string, as `u32::to_string` writes them.
pub fn decimal_string(n: u64) -> (s: String)
    ensures
        s@ == decimal(n as nat),
{
    let mut chars: Vec<char> = Vec::new();
    push_decimal(&mut chars, n);
    assert(Seq::<char>::empty() + decimal(n as nat) == decimal(n as nat));
    string_from_chars(&chars)
}


/// Prefixes of a digit string never denote more than the whole string.
pub proof fn lemma_digits_value_prefix(s: Seq<char>, k: int)
    requires
        0 <= k <= s.len(),
        all_digits(s),
    ensures
        digits_value(s.take(k)) <= digits_value(s),
    decreases s.len(),
{
    if k < s.len() {
        let t = s.drop_last();
        assert(all_digits(t)) by {
            assert forall|i: int| 0 <= i < t.len() implies #[trigger] is_digit(t[i]) by {
                assert(is_digit(s[i]));
            }
        }
        lemma_digits_value_prefix(t, k);
        assert(t.take(k) == s.take(k));
    } else {
        assert(s.take(k) == s);
    }
}

/// The value of the digits of `s` from `start` on, when they are all digits
/// and their value is at most `max`.
fn parse_digits(s: &Vec<char>, start: usize, max: u64) -> (r: Option<u64>)
    requires
        start <= s@.len(),
    ensures
        ({
            let body = s@.skip(start as int);
            match r {
                Some(v) => body.len() > 0 && all_digits(body) && digits_value(body) <= max && v
                    == digits_value(body),
                None => !(body.len() > 0 && all_digits(body) && digits_value(body) <= max),
            }
        }),
{
    let ghost body = s@.skip(start as int);
    if start == s.len() {
        return None;
    }
    let mut v: u64 = 0;
    let mut i: usize = start;
    while i < s.len()
        invariant
            start <= i <= s@.len(),
            body == s@.skip(start as int),
            all_digits(body.take(i - start)),
            v == digits_value(body.take(i - start)),
            v <= max,
        decreases s@.len() - i,
    {
        let c = s[i];
        if !('0' <= c && c <= '9') {
            proof {
                assert(!is_digit(body[i - start]));
            }
            return None;
        }
        let d: u64 = match c {
            '0' => 0,
            '1' => 1,
            '2' => 2,
            '3' => 3,
            '4' => 4,
            '5' => 5,
            '6' => 6,
            '7' => 7,
            '8' => 8,
            _ => 9,
        };
        assert(d == digit_value(c));
        let ghost next = body.take(i + 1 - start);
        proof {
            assert(next.drop_last() == body.take(i - start));
            assert(next.last() == c);
            assert(digits_value(next) == v * 10 + d);
            assert(all_digits(next)) by {
                assert forall|k: int| 0 <= k < next.len() implies #[trigger] is_digit(next[k]) by {
                    if k < next.len() - 1 {
                        assert(is_digit(body.take(i - start)[k]));
                    }
                }
            }
        }
        if d > max || v > (max - d) / 10 {
            proof {
                assert(v * 10 + d > max) by (nonlinear_arith)
                    requires
                        d > max || v > (max - d) / 10,
                        d <= 9,
                ;
                if all_digits(body) {
                    lemma_digits_value_prefix(body, i + 1 - start);
                }
            }
            return None;
        }
        assert(v * 10 + d <= max) by (nonlinear_arith)
            requires
                d <= max,
                v <= (max - d) / 10,
        ;
        v = v * 10 + d;
        i = i + 1;
    }
    assert(body.take(i - start) == body);
    Some(v)
}

/// Reads an unsigned number at most `max` (see `spec_parse_unsigned`).
pub fn parse_unsigned(s: &Vec<char>, max: u64) -> (r: Option<u64>)
    ensures
        match r {
            Some(v) => spec_parse_unsigned(s@, max as nat) == Some(v as nat),
            None => spec_parse_unsigned(s@, max as nat) is None,
        },
{
    if s.len() > 0 && s[0] == '+' {
        assert(s@.skip(1) == s@.drop_first());
        parse_digits(s, 1, max)
    } else {
        assert(s@.skip(0) == s@);
        parse_digits(s, 0, max)
    }
}

/// Reads an `i64` (see `spec_parse_i64`).
pub fn parse_i64(s: &Vec<char>) -> (r: Option<i64>)
    ensures
        match r {
            Some(v) => spec_parse_i64(s@) == Some(v as int),
            None => spec_parse_i64(s@) is None,
        },
{
    if s.len() > 0 && s[0] == '-' {
        assert(s@.skip(1) == s@.drop_first());
        match parse_digits(s, 1, 0x8000_0000_0000_0000) {
            Some(m) => {
                let v: i64 = (0i128 - m as i128) as i64;
                Some(v)
            },
            None => None,
        }
    } else {
        match parse_unsigned(s, 0x7fff_ffff_ffff_ffff) {
            Some(m) => Some(m as i64),
            None => None,
        }
    }
}

/// The words of `s` (see `words`).
pub fn split_whitespace(s: &Vec<char>) -> (r: Vec<Vec<char>>)
    ensures
        r@.map_values(|w: Vec<char>| w@) == words(s@),
{
    let mut r: Vec<Vec<char>> = Vec::new();
    let mut cur: Vec<char> = Vec::new();
    let mut i: usize = 0;
    proof {
        assert(s@.skip(0) == s@);
        assert(r@.map_values(|w: Vec<char>| w@) == Seq::<Seq<char>>::empty());
        assert(Seq::<Seq<char>>::empty() + words_from(s@, cur@) == words_from(s@, cur@));
    }
    while i < s.len()
        invariant
            i <= s@.len(),
            r@.map_values(|w: Vec<char>| w@) + words_from(s@.skip(i as int), cur@) == words(s@),
        decreases s@.len() - i,
    {
        let c = s[i];
        let ghost rest = s@.skip(i as int);
        let ghost before = r@.map_values(|w: Vec<char>| w@);
        assert(rest.drop_first() == s@.skip(i + 1));
        assert(rest[0] == c);
        if is_whitespace_char(c) {
            if cur.len() > 0 {
                let ghost w = cur@;
                r.push(cur);
                cur = Vec::new();
                proof {
                    assert(r@.map_values(|w: Vec<char>| w@) == before.push(w));
                    assert(before + (seq![w] + words_from(s@.skip(i + 1), seq![])) == before.push(
                        w,
                    ) + words_from(s@.skip(i + 1), seq![]));
                    assert(cur@ == Seq::<char>::empty());
                }
            } else {
                proof {
                    assert(Seq::<Seq<char>>::empty() + words_from(s@.skip(i + 1), seq![])
                        == words_from(s@.skip(i + 1), seq![]));
                    assert(cur@ == Seq::<char>::empty());
                }
            }
        } else {
            cur.push(c);
        }
        i = i + 1;
    }
    let ghost before = r@.map_values(|w: Vec<char>| w@);
    assert(s@.skip(i as int).len() == 0);
    if cur.len() > 0 {
        let ghost w = cur@;
        r.push(cur);
        assert(r@.map_values(|w: Vec<char>| w@) == before.push(w));
        assert(before + seq![w] == before.push(w));
    } else {
        assert(before + Seq::<Seq<char>>::empty() == before);
    }
    r
}


pub open spec fn no_whitespace(s: Seq<char>) -> bool {
    forall|i: int| 0 <= i < s.len() ==> !is_whitespace(#[trigger] s[i])
}

/// The decimal form of a number is a non-empty run of digits, free of
/// white space, that denotes the number.
pub proof fn lemma_decimal(n: nat)
    ensures
        decimal(n).len() > 0,
        all_digits(decimal(n)),
        no_whitespace(decimal(n)),
        digits_value(decimal(n)) == n,
    decreases n,
{
    assert(digit_value(digit_char(n % 10)) == n % 10);
    assert(digits_value(decimal(n)) == digits_value(decimal(n).drop_last()) * 10 + digit_value(decimal(n).last()));
    if n >= 10 {
        assert((n / 10) * 10 + n % 10 == n);
        lemma_decimal(n / 10);
        let d = decimal(n);
        assert(d.last() == digit_char(n % 10));
        assert(d.drop_last() == decimal(n / 10));
        assert(all_digits(d)) by {
            assert forall|i: int| 0 <= i < d.len() implies #[trigger] is_digit(d[i]) by {
                if i < d.len() - 1 {
                    assert(is_digit(decimal(n / 10)[i]));
                }
            }
        }
        assert(no_whitespace(d)) by {
            assert forall|i: int| 0 <= i < d.len() implies !is_whitespace(#[trigger] d[i]) by {
                if i < d.len() - 1 {
                    assert(!is_whitespace(decimal(n / 10)[i]));
                }
            }
        }
    } else {
        let d = decimal(n);
        assert(d.drop_last() == Seq::<char>::empty());
        assert(d.last() == digit_char(n));
    }
}

/// Reading back the decimal form of a number gives the number.
pub proof fn lemma_parse_decimal(n: nat, max: nat)
    requires
        n <= max,
    ensures
        spec_parse_unsigned(decimal(n), max) == Some(n),
{
    lemma_decimal(n);
    assert(is_digit(decimal(n)[0]));
}

/// Reading back the decimal form of an `i64` gives the number.
pub proof fn lemma_parse_signed_decimal(i: i64)
    ensures
        spec_parse_i64(signed_decimal(i as int)) == Some(i as int),
        signed_decimal(i as int).len() > 0,
        no_whitespace(signed_decimal(i as int)),
{
    if i < 0 {
        let m = (-i) as nat;
        lemma_decimal(m);
        let s = signed_decimal(i as int);
        assert(s.drop_first() == decimal(m));
        assert(no_whitespace(s)) by {
            assert forall|k: int| 0 <= k < s.len() implies !is_whitespace(#[trigger] s[k]) by {
                if k > 0 {
                    assert(s[k] == decimal(m)[k - 1]);
                }
            }
        }
    } else {
        lemma_decimal(i as nat);
        assert(is_digit(decimal(i as nat)[0]));
    }
}

/// A run of non-white characters extends the word being read.
pub proof fn lemma_words_from_word(u: Seq<char>, rest: Seq<char>, cur: Seq<char>)
    requires
        no_whitespace(u),
    ensures
        words_from(u + rest, cur) == words_from(rest, cur + u),
    decreases u.len(),
{
    if u.len() == 0 {
        assert(u + rest == rest);
        assert(cur + u == cur);
    } else {
        assert((u + rest)[0] == u[0]);
        assert((u + rest).drop_first() == u.drop_first() + rest);
        assert(no_whitespace(u.drop_first())) by {
            assert forall|i: int| 0 <= i < u.drop_first().len() implies !is_whitespace(
                #[trigger] u.drop_first()[i],
            ) by {
                assert(!is_whitespace(u[i + 1]));
            }
        }
        lemma_words_from_word(u.drop_first(), rest, cur.push(u[0]));
        assert(cur.push(u[0]) + u.drop_first() == cur + u);
    }
}

/// A space ends the word being read.
pub proof fn lemma_words_from_space(rest: Seq<char>, cur: Seq<char>)
    requires
        cur.len() > 0,
    ensures
        words_from(seq![' '] + rest, cur) == seq![cur] + words_from(rest, seq![]),
{
    assert((seq![' '] + rest)[0] == ' ');
    assert((seq![' '] + rest).drop_first() == rest);
}

} // verus!
