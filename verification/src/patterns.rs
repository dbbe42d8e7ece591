//! The junk-file pattern language: case-insensitive base-name patterns in
//! which `*` matches any (possibly empty) run of characters and every other
//! character matches itself.

use vstd::prelude::*;

use crate::strings::str_chars;

verus! {

/// ASCII-lowercases one character; anything outside `A`..`Z` is unchanged.
pub open spec fn spec_fold_char(c: char) -> char {
    if 'A' <= c && c <= 'Z' {
        (((c as u32) + 32) as u8) as char
    } else {
        c
    }
}

/// A whole string, ASCII-lowercased.
pub open spec fn spec_fold(s: Seq<char>) -> Seq<char> {
    s.map_values(|c: char| spec_fold_char(c))
}

/// Glob matching: an empty pattern matches only the empty string, `*`
/// matches any run of characters, and any other character matches itself.
pub open spec fn spec_glob_match(p: Seq<char>, s: Seq<char>) -> bool
    decreases p.len() + s.len(),
{
    if p.len() == 0 {
        s.len() == 0
    } else if p[0] == '*' {
        spec_glob_match(p.skip(1), s) || (s.len() > 0 && spec_glob_match(p, s.skip(1)))
    } else {
        s.len() > 0 && p[0] == s[0] && spec_glob_match(p.skip(1), s.skip(1))
    }
}

/// A base name matches a pattern when its ASCII-lowercased form matches the
/// ASCII-lowercased pattern as a glob.
pub open spec fn spec_name_matches(pattern: Seq<char>, name: Seq<char>) -> bool {
    spec_glob_match(spec_fold(pattern), spec_fold(name))
}

/// A base name matches a pattern set when it matches one of its patterns.
pub open spec fn spec_matches_any(name: Seq<char>, patterns: Seq<Seq<char>>) -> bool {
    exists|k: int| 0 <= k < patterns.len() && spec_name_matches(patterns[k], name)
}

/// ASCII-lowercases one character.
pub fn fold_char(c: char) -> (r: char)
    ensures
        r == spec_fold_char(c),
{
    if 'A' <= c && c <= 'Z' {
        (((c as u32) + 32) as u8) as char
    } else {
        c
    }
}

/// The ASCII-lowercased characters of `s`.
fn fold_chars(s: &str) -> (r: Vec<char>)
    ensures
        r@ == spec_fold(s@),
{
    let cs = str_chars(s);
    let mut out: Vec<char> = Vec::new();
    let mut i: usize = 0;
    while i < cs.len()
        invariant
            cs@ == s@,
            i <= cs.len(),
            out@ == spec_fold(s@.take(i as int)),
        decreases cs.len() - i,
    {
        out.push(fold_char(cs[i]));
        proof {
            assert(out@ =~= spec_fold(s@.take(i + 1)));
        }
        i = i + 1;
    }
    proof {
        assert(s@.take(s@.len() as int) =~= s@);
    }
    out
}

/// Recursive glob matcher over the suffixes `p[i..]` and `s[j..]`.
fn glob_match_at(p: &Vec<char>, s: &Vec<char>, i: usize, j: usize) -> (r: bool)
    requires
        i <= p.len(),
        j <= s.len(),
    ensures
        r == spec_glob_match(p@.skip(i as int), s@.skip(j as int)),
    decreases p.len() - i + s.len() - j,
{
    proof {
        if i < p.len() {
            assert(p@.skip(i as int)[0] == p@[i as int]);
            assert(p@.skip(i as int).skip(1) =~= p@.skip(i + 1));
        }
        if j < s.len() {
            assert(s@.skip(j as int)[0] == s@[j as int]);
            assert(s@.skip(j as int).skip(1) =~= s@.skip(j + 1));
        }
    }
    if i == p.len() {
        j == s.len()
    } else if p[i] == '*' {
        if glob_match_at(p, s, i + 1, j) {
            true
        } else if j < s.len() {
            glob_match_at(p, s, i, j + 1)
        } else {
            false
        }
    } else {
        j < s.len() && p[i] == s[j] && glob_match_at(p, s, i + 1, j + 1)
    }
}

/// Does `name` match `pattern`, ignoring ASCII case?
pub fn name_matches(pattern: &str, name: &str) -> (r: bool)
    ensures
        r == spec_name_matches(pattern@, name@),
{
    let p = fold_chars(pattern);
    let s = fold_chars(name);
    proof {
        assert(p@.skip(0) =~= p@);
        assert(s@.skip(0) =~= s@);
    }
    glob_match_at(&p, &s, 0, 0)
}

/// Does `name` match one of the patterns, ignoring ASCII case?
pub fn matches_any(name: &str, patterns: &Vec<String>) -> (r: bool)
    ensures
        r == spec_matches_any(name@, patterns.deep_view()),
{
    let mut k: usize = 0;
    while k < patterns.len()
        invariant
            k <= patterns.len(),
            forall|j: int|
                0 <= j < k ==> !spec_name_matches(patterns.deep_view()[j], name@),
        decreases patterns.len() - k,
    {
        if name_matches(patterns[k].as_str(), name) {
            proof {
                assert(patterns.deep_view()[k as int] == patterns@[k as int]@);
            }
            return true;
        }
        proof {
            assert(patterns.deep_view()[k as int] == patterns@[k as int]@);
        }
        k = k + 1;
    }
    false
}

} // verus!
