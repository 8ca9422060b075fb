//! Decimal integers as they are written in timestamp tags and option values:
//! an optional sign, then one or more ASCII digits.

use vstd::prelude::*;
use crate::text::chars_of;

verus! {

/// `c` is one of the ASCII digits `0` to `9`.
pub open spec fn is_digit(c: char) -> bool {
    48 <= c as u32 <= 57
}

/// The number that the digit `c` stands for; zero for any other character.
pub open spec fn digit_value(c: char) -> nat {
    if is_digit(c) {
        (c as u32 - 48) as nat
    } else {
        0
    }
}

/// Every character of `s` is an ASCII digit.
pub open spec fn all_digits(s: Seq<char>) -> bool {
    forall|i: int| 0 <= i < s.len() ==> is_digit(#[trigger] s[i])
}

/// The value of `s` read in base ten, most significant digit first.
pub open spec fn decimal_value(s: Seq<char>) -> nat
    decreases s.len(),
{
    if s.len() == 0 {
        0
    } else {
        10 * decimal_value(s.drop_last()) + digit_value(s.last())
    }
}

/// The value of the digit string `body`, where it is a non-empty digit string
/// whose value does not exceed `limit`.
pub open spec fn bounded_magnitude(body: Seq<char>, limit: nat) -> Option<nat> {
    if body.len() > 0 && all_digits(body) && decimal_value(body) <= limit {
        Some(decimal_value(body))
    } else {
        None
    }
}

/// What `s` denotes as a signed 64-bit integer: an optional `+` or `-`, then
/// digits, the value within the range of `i64`.
pub open spec fn decimal_i64(s: Seq<char>) -> Option<i64> {
    if s.len() == 0 {
        None
    } else if s[0] == '-' {
        match bounded_magnitude(s.skip(1), 0x8000_0000_0000_0000) {
            Some(m) => Some((-m) as i64),
            None => None,
        }
    } else {
        let body = if s[0] == '+' { s.skip(1) } else { s };
        match bounded_magnitude(body, 0x7fff_ffff_ffff_ffff) {
            Some(m) => Some(m as i64),
            None => None,
        }
    }
}

/// What `s` denotes as an unsigned machine-sized integer: an optional `+`,
/// then digits, the value within the range of `usize`.
pub open spec fn decimal_usize(s: Seq<char>) -> Option<usize> {
    if s.len() == 0 {
        None
    } else {
        let body = if s[0] == '+' { s.skip(1) } else { s };
        match bounded_magnitude(body, usize::MAX as nat) {
            Some(m) => Some(m as usize),
            None => None,
        }
    }
}

/// A prefix of a digit string never denotes more than the whole string.
pub proof fn lemma_prefix_value(s: Seq<char>, k: int)
    requires
        0 <= k <= s.len(),
    ensures
        decimal_value(s.take(k)) <= decimal_value(s),
    decreases s.len(),
{
    if k == s.len() {
        assert(s.take(k) =~= s);
    } else {
        assert(s.drop_last().take(k) =~= s.take(k));
        lemma_prefix_value(s.drop_last(), k);
    }
}

/// Reads `chars[from..]` as a decimal magnitude of at most `limit`.
fn parse_magnitude(chars: &Vec<char>, from: usize, limit: u64) -> (r: Option<u64>)
    requires
        from <= chars.len(),
    ensures
        r matches Some(m) ==> bounded_magnitude(chars@.skip(from as int), limit as nat) == Some(
            m as nat,
        ),
        r is None ==> bounded_magnitude(chars@.skip(from as int), limit as nat) is None,
{
    let ghost body = chars@.skip(from as int);
    if from == chars.len() {
        return None;
    }
    let mut acc: u64 = 0;
    let mut i: usize = from;
    while i < chars.len()
        invariant
            from <= i <= chars.len(),
            body == chars@.skip(from as int),
            acc as nat == decimal_value(body.take(i - from)),
            acc <= limit,
            all_digits(body.take(i - from)),
        decreases chars.len() - i,
    {
        let c = chars[i];
        let u: u32 = c as u32;
        if u < 48 || u > 57 {
            assert(!is_digit(body[i - from]));
            return None;
        }
        let d: u64 = (u - 48) as u64;
        let next: u128 = acc as u128 * 10 + d as u128;
        proof {
            let longer = body.take(i - from + 1);
            assert(longer.drop_last() =~= body.take(i - from));
            assert(longer.last() == c);
            assert(decimal_value(longer) == next as nat);
            assert forall|j: int| 0 <= j < longer.len() implies is_digit(#[trigger] longer[j]) by {
                if j < i - from {
                    assert(longer[j] == body.take(i - from)[j]);
                }
            }
        }
        if next > limit as u128 {
            proof {
                lemma_prefix_value(body, i - from + 1);
            }
            return None;
        }
        acc = next as u64;
        i = i + 1;
    }
    assert(body.take(i - from) =~= body);
    Some(acc)
}

/// Parses a signed decimal integer that fits `i64`.
pub fn parse_i64(text: &str) -> (r: Option<i64>)
    ensures
        r == decimal_i64(text@),
{
    let chars = chars_of(text);
    if chars.len() == 0 {
        return None;
    }
    let first = chars[0];
    if first == '-' {
        match parse_magnitude(&chars, 1, 0x8000_0000_0000_0000) {
            Some(m) => {
                if m == 0x8000_0000_0000_0000 {
                    Some(i64::MIN)
                } else {
                    Some(-(m as i64))
                }
            },
            None => None,
        }
    } else {
        let from: usize = if first == '+' { 1 } else { 0 };
        assert(chars@.skip(0) =~= chars@);
        match parse_magnitude(&chars, from, 0x7fff_ffff_ffff_ffff) {
            Some(m) => Some(m as i64),
            None => None,
        }
    }
}

/// Parses an unsigned decimal integer that fits `usize`.
pub fn parse_usize(text: &str) -> (r: Option<usize>)
    ensures
        r == decimal_usize(text@),
{
    let chars = chars_of(text);
    if chars.len() == 0 {
        return None;
    }
    let from: usize = if chars[0] == '+' { 1 } else { 0 };
    assert(chars@.skip(0) =~= chars@);
    match parse_magnitude(&chars, from, usize::MAX as u64) {
        Some(m) => Some(m as usize),
        None => None,
    }
}

} // verus!
