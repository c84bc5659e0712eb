//! Characters and strings: whitespace, decimal digits, and building text.

use vstd::prelude::*;

verus! {

/// Unicode White_Space, the set that `char::is_whitespace` tests.
pub open spec fn is_whitespace(c: char) -> bool {
    ('\t' <= c <= '\r') || c == ' ' || c == '\u{85}' || c == '\u{a0}' || c == '\u{1680}'
        || ('\u{2000}' <= c <= '\u{200a}') || c == '\u{2028}' || c == '\u{2029}'
        || c == '\u{202f}' || c == '\u{205f}' || c == '\u{3000}'
}

/// The first index at or after `i` that holds no whitespace, or the length.
pub open spec fn skip_whitespace(s: Seq<char>, i: nat) -> nat
    decreases s.len() - i,
{
    if i < s.len() && is_whitespace(s[i as int]) {
        skip_whitespace(s, i + 1)
    } else if i < s.len() {
        i
    } else {
        s.len()
    }
}

pub fn is_space(c: char) -> (r: bool)
    ensures
        r == is_whitespace(c),
{
    ('\t' <= c && c <= '\r') || c == ' ' || c == '\u{85}' || c == '\u{a0}' || c == '\u{1680}'
        || ('\u{2000}' <= c && c <= '\u{200a}') || c == '\u{2028}' || c == '\u{2029}'
        || c == '\u{202f}' || c == '\u{205f}' || c == '\u{3000}'
}

pub fn skip_whitespace_at(s: &str, start: usize) -> (r: usize)
    requires
        start <= s@.len(),
    ensures
        r == skip_whitespace(s@, start as nat),
{
    let n = s.unicode_len();
    let mut i = start;
    while i < n && is_space(s.get_char(i))
        invariant
            start <= i <= n,
            n == s@.len(),
            skip_whitespace(s@, start as nat) == skip_whitespace(s@, i as nat),
        decreases n - i,
    {
        i = i + 1;
    }
    proof {
        lemma_skip_stops(s@, i as nat);
    }
    i
}

proof fn lemma_skip_stops(s: Seq<char>, i: nat)
    requires
        i <= s.len(),
        i < s.len() ==> !is_whitespace(s[i as int]),
    ensures
        skip_whitespace(s, i) == i,
{
}

/// Relies on `String::push`: the character is appended.
#[verifier::external_body]
pub fn push_char(s: &mut String, c: char)
    ensures
        final(s)@ == old(s)@.push(c),
{
    s.push(c);
}

} // verus!
