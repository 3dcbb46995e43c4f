//! Small verified helpers on strings and characters.
use vstd::prelude::*;
use std::collections::HashMap;
use vstd::string::*;

verus! {

/// Whether two string slices hold the same characters.
pub fn str_matches(s: &str, lit: &str) -> (r: bool)
    ensures r == (s@ == lit@),
{
    let n = s.unicode_len();
    let m = lit.unicode_len();
    if n != m {
        return false;
    }
    let mut i: usize = 0;
    while i < n
        invariant
            n == s@.len(),
            m == lit@.len(),
            n == m,
            i <= n,
            forall|j: int| 0 <= j < i ==> s@[j] == lit@[j],
        decreases n - i,
    {
        if s.get_char(i) != lit.get_char(i) {
            return false;
        }
        i += 1;
    }
    assert(s@ =~= lit@);
    true
}

/// `HashMap::insert` on a map keyed by strings: the key is bound to the
/// value, replacing an earlier binding.
#[verifier::external_body]
pub(crate) fn string_map_insert<V>(m: &mut HashMap<String, V>, k: String, v: V)
    ensures final(m)@ == old(m)@.insert(k, v),
{
    m.insert(k, v);
}

/// Appends one character to a string (`String::push`).
#[verifier::external_body]
pub(crate) fn string_push(s: &mut String, c: char)
    ensures final(s)@ == old(s)@.push(c),
{
    s.push(c);
}

/// Appends a string slice to a string (`String::push_str`).
#[verifier::external_body]
pub(crate) fn string_push_str(s: &mut String, t: &str)
    ensures final(s)@ == old(s)@ + t@,
{
    s.push_str(t);
}

/// The characters of a string slice, in order.
pub fn str_to_chars(s: &str) -> (r: Vec<char>)
    ensures r@ == s@,
{
    broadcast use vstd::string::group_string_axioms;
    let mut out: Vec<char> = Vec::new();
    for c in iter: s.chars()
        invariant
            out.len() == iter.index(),
            forall|j: int| 0 <= j < out.len() ==> out@[j] == iter.seq()[j],
    {
        out.push(c);
    }
    assert(out@ =~= s@);
    out
}

/// `sub` occurs in `s` at index `i`.
pub open spec fn occurs_at(s: Seq<char>, sub: Seq<char>, i: int) -> bool {
    0 <= i && i + sub.len() <= s.len() && s.subrange(i, i + sub.len()) == sub
}

/// `sub` occurs somewhere in `s` (the empty text occurs in every text).
pub open spec fn seq_contains(s: Seq<char>, sub: Seq<char>) -> bool {
    exists|i: int| #[trigger] occurs_at(s, sub, i)
}

/// `s` ends with `suffix`.
pub open spec fn seq_ends_with(s: Seq<char>, suffix: Seq<char>) -> bool {
    suffix.len() <= s.len() && s.subrange(s.len() - suffix.len(), s.len() as int) == suffix
}

/// `s` starts with `prefix`.
pub open spec fn seq_starts_with(s: Seq<char>, prefix: Seq<char>) -> bool {
    prefix.len() <= s.len() && s.subrange(0, prefix.len() as int) == prefix
}

/// Whether `sub` occurs at index `i` of `s`.
pub fn chars_occur_at(s: &[char], sub: &[char], i: usize) -> (r: bool)
    ensures r == occurs_at(s@, sub@, i as int),
{
    let slen = s.len();
    if sub.len() > slen || i > slen - sub.len() {
        return false;
    }
    let mut k: usize = 0;
    while k < sub.len()
        invariant
            slen == s@.len(),
            k <= sub@.len(),
            i + sub@.len() <= s@.len(),
            forall|t: int| 0 <= t < k ==> s@[i + t] == sub@[t],
        decreases sub@.len() - k,
    {
        assert(i + k < s@.len());
        let at = i + k;
        if s[at] != sub[k] {
            assert(s@.subrange(i as int, i + sub@.len())[k as int] != sub@[k as int]);
            return false;
        }
        k += 1;
    }
    assert(s@.subrange(i as int, i + sub@.len()) =~= sub@);
    true
}

/// Whether `sub` occurs in `s`.
pub fn chars_contain(s: &[char], sub: &[char]) -> (r: bool)
    ensures r == seq_contains(s@, sub@),
{
    if sub.len() == 0 {
        assert(s@.subrange(0, 0) =~= sub@);
        assert(occurs_at(s@, sub@, 0));
        return true;
    }
    if sub.len() > s.len() {
        assert forall|i: int| !occurs_at(s@, sub@, i) by {};
        return false;
    }
    let n = s.len() - sub.len() + 1;
    let mut i: usize = 0;
    while i < n
        invariant
            n == s@.len() - sub@.len() + 1,
            i <= n,
            forall|j: int| 0 <= j < i ==> !#[trigger] occurs_at(s@, sub@, j),
        decreases n - i,
    {
        if chars_occur_at(s, sub, i) {
            return true;
        }
        i += 1;
    }
    false
}

/// Whether `s` ends with `suffix`.
pub fn chars_end_with(s: &[char], suffix: &[char]) -> (r: bool)
    ensures r == seq_ends_with(s@, suffix@),
{
    if suffix.len() > s.len() {
        return false;
    }
    let r = chars_occur_at(s, suffix, s.len() - suffix.len());
    r
}

/// Whether `s` starts with `prefix`.
pub fn chars_start_with(s: &[char], prefix: &[char]) -> (r: bool)
    ensures r == seq_starts_with(s@, prefix@),
{
    chars_occur_at(s, prefix, 0)
}

/// A string holding the given characters.
pub fn string_from_chars(cs: &[char]) -> (r: String)
    ensures r@ == cs@,
{
    let mut out = String::new();
    let mut i: usize = 0;
    while i < cs.len()
        invariant
            i <= cs.len(),
            out@ == cs@.subrange(0, i as int),
        decreases cs.len() - i,
    {
        string_push(&mut out, cs[i]);
        assert(out@ =~= cs@.subrange(0, i + 1));
        i += 1;
    }
    assert(out@ =~= cs@);
    out
}

} // verus!

verus! {

/// The decimal digit character for a value below ten.
pub open spec fn digit_char(d: nat) -> char {
    if d == 0 { '0' } else if d == 1 { '1' } else if d == 2 { '2' } else if d == 3 { '3' }
    else if d == 4 { '4' } else if d == 5 { '5' } else if d == 6 { '6' } else if d == 7 { '7' }
    else if d == 8 { '8' } else { '9' }
}

/// The decimal spelling of a natural number, most significant digit first.
pub open spec fn decimal(n: nat) -> Seq<char>
    decreases n,
{
    if n < 10 {
        seq![digit_char(n)]
    } else {
        decimal(n / 10).push(digit_char(n % 10))
    }
}

fn digit_of(d: usize) -> (c: char)
    requires d < 10,
    ensures c == digit_char(d as nat),
{
    if d == 0 { '0' } else if d == 1 { '1' } else if d == 2 { '2' } else if d == 3 { '3' }
    else if d == 4 { '4' } else if d == 5 { '5' } else if d == 6 { '6' } else if d == 7 { '7' }
    else if d == 8 { '8' } else { '9' }
}

/// Appends the decimal spelling of `n` to `s`.
pub fn push_decimal(s: &mut String, n: usize)
    ensures final(s)@ == old(s)@ + decimal(n as nat),
    decreases n,
{
    if n < 10 {
        string_push(s, digit_of(n));
        assert(decimal(n as nat) =~= seq![digit_char(n as nat)]);
    } else {
        push_decimal(s, n / 10);
        string_push(s, digit_of(n % 10));
        assert(decimal(n as nat) == decimal((n / 10) as nat).push(digit_char((n % 10) as nat)));
        assert(s@ =~= old(s)@ + decimal(n as nat));
    }
}

/// The decimal spelling of `n`.
pub fn usize_to_string(n: usize) -> (r: String)
    ensures r@ == decimal(n as nat),
{
    let mut s = String::new();
    push_decimal(&mut s, n);
    assert(s@ =~= decimal(n as nat));
    s
}

} // verus!

verus! {

/// Whether a character is upper case (Unicode `Uppercase` property).
pub uninterp spec fn char_is_uppercase(c: char) -> bool;

/// Whether a character is alphabetic (Unicode `Alphabetic` property).
pub uninterp spec fn char_is_alphabetic(c: char) -> bool;

/// Whether a character is numeric (Unicode `Numeric` property).
pub uninterp spec fn char_is_numeric(c: char) -> bool;

/// Whether a character is white space (Unicode `White_Space` property).
pub uninterp spec fn char_is_whitespace(c: char) -> bool;

/// `char::is_whitespace`: the character has the Unicode `White_Space`
/// property; for ASCII that is exactly space, tab, line feed, vertical tab,
/// form feed and carriage return.
#[verifier::external_body]
pub(crate) fn is_whitespace(c: char) -> (r: bool)
    ensures
        r == char_is_whitespace(c),
        (c as u32) < 128 ==> (r <==> (c == ' ' || ('\t' <= c && c <= '\r'))),
{
    c.is_whitespace()
}

/// `char::is_uppercase`: the character has the Unicode `Uppercase` property;
/// for ASCII that is exactly 'A'..='Z'.
#[verifier::external_body]
pub(crate) fn is_uppercase(c: char) -> (r: bool)
    ensures
        r == char_is_uppercase(c),
        (c as u32) < 128 ==> (r <==> ('A' <= c && c <= 'Z')),
{
    c.is_uppercase()
}

/// `char::is_alphabetic`: the character has the Unicode `Alphabetic`
/// property; for ASCII that is exactly the letters.
#[verifier::external_body]
pub(crate) fn is_alphabetic(c: char) -> (r: bool)
    ensures
        r == char_is_alphabetic(c),
        (c as u32) < 128 ==> (r <==> (('a' <= c && c <= 'z') || ('A' <= c && c <= 'Z'))),
{
    c.is_alphabetic()
}

/// `char::is_numeric`: the character has the Unicode `Numeric` property;
/// for ASCII that is exactly the digits.
#[verifier::external_body]
pub(crate) fn is_numeric(c: char) -> (r: bool)
    ensures
        r == char_is_numeric(c),
        (c as u32) < 128 ==> (r <==> ('0' <= c && c <= '9')),
{
    c.is_numeric()
}

} // verus!
