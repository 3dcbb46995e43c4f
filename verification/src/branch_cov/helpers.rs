//! Which Go source files a coverage run looks at.
use vstd::prelude::*;
use crate::strs::{str_to_chars, chars_contain, chars_end_with, seq_contains, seq_ends_with};

verus! {

/// A line and column in a source file.
#[derive(Debug, Clone, Copy)]
pub struct SourceLocation {
    pub line: u32,
    pub column: u32,
}

/// `s` without its leading `*` characters.
pub open spec fn trim_leading_stars(s: Seq<char>) -> Seq<char>
    decreases s.len(),
{
    if s.len() > 0 && s[0] == '*' { trim_leading_stars(s.drop_first()) } else { s }
}

/// `s` without its trailing `*` characters.
pub open spec fn trim_trailing_stars(s: Seq<char>) -> Seq<char>
    decreases s.len(),
{
    if s.len() > 0 && s.last() == '*' { trim_trailing_stars(s.drop_last()) } else { s }
}

/// `s` without the `*` characters at either end (`str::trim_matches('*')`).
pub open spec fn trim_stars(s: Seq<char>) -> Seq<char> {
    trim_trailing_stars(trim_leading_stars(s))
}

/// The characters of `s` without the `*` characters at either end.
fn trimmed_star_chars(s: &str) -> (r: Vec<char>)
    ensures r@ == trim_stars(s@),
{
    let cs = str_to_chars(s);
    let mut a: usize = 0;
    assert(cs@.subrange(0, cs@.len() as int) =~= cs@);
    while a < cs.len() && cs[a] == '*'
        invariant
            a <= cs@.len(),
            trim_leading_stars(cs@) == trim_leading_stars(cs@.subrange(a as int, cs@.len() as int)),
        decreases cs@.len() - a,
    {
        let ghost rest = cs@.subrange(a as int, cs@.len() as int);
        assert(rest.drop_first() =~= cs@.subrange(a + 1, cs@.len() as int));
        a += 1;
    }
    let ghost lead = cs@.subrange(a as int, cs@.len() as int);
    assert(trim_leading_stars(lead) == lead);
    let mut b: usize = cs.len();
    assert(cs@.subrange(a as int, b as int) =~= lead);
    while b > a && cs[b - 1] == '*'
        invariant
            a <= b <= cs@.len(),
            lead == cs@.subrange(a as int, cs@.len() as int),
            trim_trailing_stars(lead) == trim_trailing_stars(cs@.subrange(a as int, b as int)),
        decreases b - a,
    {
        let ghost cur = cs@.subrange(a as int, b as int);
        assert(cur.drop_last() =~= cs@.subrange(a as int, b - 1));
        b -= 1;
    }
    let mut out: Vec<char> = Vec::new();
    let mut k: usize = a;
    while k < b
        invariant
            a <= k <= b <= cs@.len(),
            out@ == cs@.subrange(a as int, k as int),
        decreases b - k,
    {
        out.push(cs[k]);
        assert(out@ =~= cs@.subrange(a as int, k + 1));
        k += 1;
    }
    assert(trim_trailing_stars(out@) == out@);
    out
}

/// Whether the path names a Go test file (it ends with `_test.go`).
pub fn is_test_file(path: &str) -> (r: bool)
    ensures r == seq_ends_with(path@, "_test.go"@),
{
    let p = str_to_chars(path);
    let suffix = str_to_chars("_test.go");
    chars_end_with(p.as_slice(), suffix.as_slice())
}

/// Whether some exclusion pattern, with the `*` at its ends removed, occurs
/// in the path.
pub fn should_exclude_file(path: &str, exclude_patterns: &[String]) -> (r: bool)
    ensures r == exists|i: int| 0 <= i < exclude_patterns@.len()
        && #[trigger] seq_contains(path@, trim_stars(exclude_patterns@[i]@)),
{
    let p = str_to_chars(path);
    let mut i: usize = 0;
    while i < exclude_patterns.len()
        invariant
            p@ == path@,
            i <= exclude_patterns@.len(),
            forall|j: int| 0 <= j < i ==> !#[trigger] seq_contains(path@, trim_stars(exclude_patterns@[j]@)),
        decreases exclude_patterns@.len() - i,
    {
        let pat = trimmed_star_chars(exclude_patterns[i].as_str());
        if chars_contain(p.as_slice(), pat.as_slice()) {
            return true;
        }
        i += 1;
    }
    false
}

} // verus!
