//! Cache-file naming for fetched tarballs.
//!
//! A downloaded tarball is stored under the cache directory as
//! `<sanitized-name>@<version>.tgz`, where the sanitized name replaces `/`
//! with `__`, drops `@`, and replaces `.` with `_`.  Because the sanitized
//! name never contains `@`, the file name determines the sanitized name and
//! the version unambiguously.

use vstd::prelude::*;
use vstd::string::StrSliceExecFns;
use vstd::string::StringExecFns;

use crate::strings::chars_to_string;

verus! {

/// What one character of a package name contributes to the sanitized name:
/// `/` becomes `__`, `@` is dropped, `.` becomes `_`, anything else is kept.
pub open spec fn sanitize_char(c: char) -> Seq<char> {
    if c == '/' {
        seq!['_', '_']
    } else if c == '@' {
        Seq::<char>::empty()
    } else if c == '.' {
        seq!['_']
    } else {
        seq![c]
    }
}

/// The sanitized package name, built character by character.
pub open spec fn spec_sanitize(s: Seq<char>) -> Seq<char>
    decreases s.len(),
{
    if s.len() == 0 {
        Seq::<char>::empty()
    } else {
        spec_sanitize(s.drop_last()) + sanitize_char(s.last())
    }
}

/// The cache file name for one (package name, version) pair.
pub open spec fn spec_cache_file_name(name: Seq<char>, version: Seq<char>) -> Seq<char> {
    spec_sanitize(name) + seq!['@'] + version + seq!['.', 't', 'g', 'z']
}

/// Replaces `/` with `__`, drops `@`, and replaces `.` with `_`.
pub fn sanitize_name(name: &str) -> (r: String)
    ensures
        r@ == spec_sanitize(name@),
{
    let n = name.unicode_len();
    let mut out: Vec<char> = Vec::new();
    let mut i: usize = 0;
    while i < n
        invariant
            n == name@.len(),
            i <= n,
            out@ == spec_sanitize(name@.take(i as int)),
        decreases n - i,
    {
        let c = name.get_char(i);
        if c == '/' {
            out.push('_');
            out.push('_');
        } else if c == '@' {
        } else if c == '.' {
            out.push('_');
        } else {
            out.push(c);
        }
        proof {
            assert(name@.take(i + 1).drop_last() =~= name@.take(i as int));
            assert(name@.take(i + 1).last() == name@[i as int]);
            assert(out@ =~= spec_sanitize(name@.take(i as int)) + sanitize_char(name@[i as int]));
        }
        i = i + 1;
    }
    proof {
        assert(name@.take(n as int) =~= name@);
    }
    chars_to_string(&out)
}

/// The name of the cache file that holds the tarball of `name` at `version`.
pub fn cache_file_name(name: &str, version: &str) -> (r: String)
    ensures
        r@ == spec_cache_file_name(name@, version@),
{
    let mut s = sanitize_name(name);
    s.append("@");
    s.append(version);
    s.append(".tgz");
    proof {
        reveal_strlit("@");
        reveal_strlit(".tgz");
        assert("@"@ =~= seq!['@']);
        assert(".tgz"@ =~= seq!['.', 't', 'g', 'z']);
    }
    s
}

/// A sanitized package name never contains `@`.
pub proof fn lemma_sanitize_no_at(s: Seq<char>)
    ensures
        forall|i: int| 0 <= i < spec_sanitize(s).len() ==> spec_sanitize(s)[i] != '@',
    decreases s.len(),
{
    if s.len() > 0 {
        lemma_sanitize_no_at(s.drop_last());
        assert forall|i: int| 0 <= i < spec_sanitize(s).len() implies spec_sanitize(s)[i]
            != '@' by {
            let head = spec_sanitize(s.drop_last());
            if i < head.len() {
                assert(spec_sanitize(s)[i] == head[i]);
            } else {
                assert(spec_sanitize(s)[i] == sanitize_char(s.last())[i - head.len()]);
            }
        }
    }
}

/// The cache file name pins down the sanitized name and the version: two
/// (name, version) pairs share a cache file name only when their sanitized
/// names and their versions agree.
pub proof fn lemma_cache_file_name_injective(
    n1: Seq<char>,
    v1: Seq<char>,
    n2: Seq<char>,
    v2: Seq<char>,
)
    requires
        spec_cache_file_name(n1, v1) == spec_cache_file_name(n2, v2),
    ensures
        spec_sanitize(n1) == spec_sanitize(n2),
        v1 == v2,
{
    let a = spec_sanitize(n1);
    let b = spec_sanitize(n2);
    let ext = seq!['.', 't', 'g', 'z'];
    let whole = spec_cache_file_name(n1, v1);
    lemma_sanitize_no_at(n1);
    lemma_sanitize_no_at(n2);
    lemma_name_at_position(a, v1);
    lemma_name_at_position(b, v2);
    assert(whole.len() == a.len() + 1 + v1.len() + ext.len());
    assert(whole.len() == b.len() + 1 + v2.len() + ext.len());
    if a.len() < b.len() {
        assert(whole[a.len() as int] == b[a.len() as int]) by {
            assert((b + seq!['@'])[a.len() as int] == b[a.len() as int]);
            assert((b + seq!['@'] + v2)[a.len() as int] == b[a.len() as int]);
        }
        assert(false);
    }
    if b.len() < a.len() {
        assert(whole[b.len() as int] == a[b.len() as int]) by {
            assert((a + seq!['@'])[b.len() as int] == a[b.len() as int]);
            assert((a + seq!['@'] + v1)[b.len() as int] == a[b.len() as int]);
        }
        assert(false);
    }
    assert forall|i: int| 0 <= i < a.len() implies a[i] == b[i] by {
        assert((a + seq!['@'])[i] == a[i]);
        assert((a + seq!['@'] + v1)[i] == a[i]);
        assert(whole[i] == a[i]);
        assert((b + seq!['@'])[i] == b[i]);
        assert((b + seq!['@'] + v2)[i] == b[i]);
        assert(spec_cache_file_name(n2, v2)[i] == b[i]);
    }
    assert(a =~= b);
    assert(v1.len() == v2.len());
    assert forall|i: int| 0 <= i < v1.len() implies v1[i] == v2[i] by {
        assert((a + seq!['@'] + v1)[a.len() + 1 + i] == v1[i]);
        assert(whole[a.len() + 1 + i] == v1[i]);
        assert((b + seq!['@'] + v2)[b.len() + 1 + i] == v2[i]);
        assert(spec_cache_file_name(n2, v2)[b.len() + 1 + i] == v2[i]);
    }
    assert(v1 =~= v2);
}

/// In a cache file name the `@` that ends the sanitized name is the first
/// character at the sanitized name's length.
proof fn lemma_name_at_position(a: Seq<char>, v: Seq<char>)
    requires
        forall|i: int| 0 <= i < a.len() ==> a[i] != '@',
    ensures
        (a + seq!['@'] + v + seq!['.', 't', 'g', 'z'])[a.len() as int] == '@',
{
    assert((a + seq!['@'])[a.len() as int] == '@');
    assert((a + seq!['@'] + v)[a.len() as int] == '@');
}

/// Two versions of one package never share a cache file name.
pub proof fn lemma_distinct_versions_distinct_names(n: Seq<char>, v1: Seq<char>, v2: Seq<char>)
    requires
        v1 != v2,
    ensures
        spec_cache_file_name(n, v1) != spec_cache_file_name(n, v2),
{
    if spec_cache_file_name(n, v1) == spec_cache_file_name(n, v2) {
        lemma_cache_file_name_injective(n, v1, n, v2);
    }
}

} // verus!
