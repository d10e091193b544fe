//! Building the texts of error descriptions: characters and decimal numbers.

use vstd::prelude::*;
use vstd::string::{StrSliceExecFns, StringExecFns};

verus! {

/// Appends one character to `s`.
#[verifier::external_body]
pub(crate) fn push_char(s: &mut String, c: char)
    ensures
        final(s)@ == old(s)@.push(c),
{
    s.push(c);
}

/// Appends `t` to `s`.
pub(crate) fn push_text(s: &mut String, t: &str)
    ensures
        final(s)@ == old(s)@ + t@,
{
    s.append(t);
}

/// The decimal digit of `d`.
pub open spec fn digit_char(d: int) -> char {
    (('0' as int) + d) as char
}

/// `n` written in decimal, without leading zeros.
pub open spec fn decimal(n: nat) -> Seq<char>
    decreases n,
{
    if n < 10 {
        seq![digit_char(n as int)]
    } else {
        decimal(n / 10).push(digit_char((n % 10) as int))
    }
}

fn digit(d: u64) -> (c: char)
    requires
        d < 10,
    ensures
        c == digit_char(d as int),
{
    if d == 0 {
        '0'
    } else if d == 1 {
        '1'
    } else if d == 2 {
        '2'
    } else if d == 3 {
        '3'
    } else if d == 4 {
        '4'
    } else if d == 5 {
        '5'
    } else if d == 6 {
        '6'
    } else if d == 7 {
        '7'
    } else if d == 8 {
        '8'
    } else {
        '9'
    }
}

/// Appends `n` in decimal to `s`.
pub(crate) fn push_decimal(s: &mut String, n: u64)
    ensures
        final(s)@ == old(s)@ + decimal(n as nat),
    decreases n,
{
    if n >= 10 {
        push_decimal(s, n / 10);
    }
    push_char(s, digit(n % 10));
    proof {
        if n >= 10 {
            assert(final(s)@ =~= old(s)@ + decimal(n as nat));
        } else {
            assert(final(s)@ =~= old(s)@ + decimal(n as nat));
        }
    }
}

/// Whether the characters of `s` from index `start` on begin with those of
/// `t`.
pub(crate) fn chars_match_at(s: &str, start: usize, t: &str) -> (b: bool)
    ensures
        b == (start + t@.len() <= s@.len() && s@.subrange(start as int, start + t@.len())
            == t@),
{
    let n = s.unicode_len();
    let m = t.unicode_len();
    if start > n || m > n - start {
        return false;
    }
    let mut i: usize = 0;
    while i < m
        invariant
            n == s@.len(),
            m == t@.len(),
            start + m <= n,
            i <= m,
            forall|j: int| 0 <= j < i ==> s@[start + j] == t@[j],
        decreases m - i,
    {
        if s.get_char(start + i) != t.get_char(i) {
            return false;
        }
        i = i + 1;
    }
    assert(s@.subrange(start as int, start + m) =~= t@);
    true
}

/// Whether `s` begins with the characters of `prefix`.
pub(crate) fn has_prefix(s: &str, prefix: &str) -> (b: bool)
    ensures
        b == prefix@.is_prefix_of(s@),
{
    let b = chars_match_at(s, 0, prefix);
    proof {
        if prefix@.is_prefix_of(s@) {
            assert(s@.subrange(0, prefix@.len() as int) =~= prefix@);
        }
    }
    b
}

} // verus!
