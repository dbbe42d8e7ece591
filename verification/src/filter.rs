//! The junk-file filter over the tree model: an entry is removed exactly
//! when some path component strictly below its package directory matches a
//! pattern of the ignore set.  The tree root and the package directories
//! themselves are never removed, even when a package is named like a junk
//! directory; a scoped package (`@scope/pkg`) occupies two components, and
//! both are protected.

use vstd::prelude::*;

use vstd::string::StrSliceExecFns;

use crate::patterns::matches_any;
use crate::patterns::spec_matches_any;
use crate::tree::FileEntry;
use crate::tree::clone_entry;

verus! {

/// How many leading path components a package's own directory occupies,
/// judged by its top-level component: a scope marker (`@...`) means the
/// package directory is one level deeper.
pub open spec fn spec_package_depth(top: Seq<char>) -> int {
    if top.len() > 0 && top[0] == '@' {
        2
    } else {
        1
    }
}

/// The number of leading components of an entry's path that belong to the
/// package's own directory and are exempt from matching.
pub open spec fn spec_protected_depth(path: Seq<Seq<char>>) -> int {
    if path.len() == 0 {
        1
    } else {
        spec_package_depth(path[0])
    }
}

/// How many leading path components the package directory under this
/// top-level entry occupies (2 under a scope directory, 1 otherwise).
pub fn package_depth(top: &str) -> (r: usize)
    ensures
        r == spec_package_depth(top@),
{
    if top.unicode_len() > 0 && top.get_char(0) == '@' {
        2
    } else {
        1
    }
}

/// An entry survives the filter when no component of its path below the
/// package directory matches a pattern.
pub open spec fn entry_survives(path: Seq<Seq<char>>, patterns: Seq<Seq<char>>) -> bool {
    forall|i: int| spec_protected_depth(path) <= i < path.len() ==> !spec_matches_any(
        path[i],
        patterns,
    )
}

/// The tree after one filter pass: exactly the surviving entries, in order.
pub open spec fn spec_filter_tree(
    tree: Seq<(Seq<Seq<char>>, Seq<u8>)>,
    patterns: Seq<Seq<char>>,
) -> Seq<(Seq<Seq<char>>, Seq<u8>)>
    decreases tree.len(),
{
    if tree.len() == 0 {
        Seq::<(Seq<Seq<char>>, Seq<u8>)>::empty()
    } else {
        let rest = spec_filter_tree(tree.drop_last(), patterns);
        if entry_survives(tree.last().0, patterns) {
            rest.push(tree.last())
        } else {
            rest
        }
    }
}

/// Does this entry survive the filter?
pub fn path_survives(path: &Vec<String>, patterns: &Vec<String>) -> (r: bool)
    ensures
        r == entry_survives(path.deep_view(), patterns.deep_view()),
{
    if path.len() == 0 {
        return true;
    }
    proof {
        assert(path.deep_view()[0] == path@[0]@);
    }
    let start = package_depth(path[0].as_str());
    let mut i: usize = start;
    while i < path.len()
        invariant
            start <= i,
            start == spec_protected_depth(path.deep_view()),
            path@.len() > 0,
            i <= path.len() || i == start,
            forall|j: int|
                start <= j < i ==> !spec_matches_any(
                    path.deep_view()[j],
                    patterns.deep_view(),
                ),
        decreases path.len() - i,
    {
        if matches_any(path[i].as_str(), patterns) {
            proof {
                assert(path.deep_view()[i as int] == path@[i as int]@);
            }
            return false;
        }
        proof {
            assert(path.deep_view()[i as int] == path@[i as int]@);
        }
        i = i + 1;
    }
    true
}

/// The decision the tree walk asks for at each visited entry, given the
/// entry's depth below its package directory (0 for the package directory
/// itself; `package_depth` says how many components that directory
/// occupies) and its base name: only entries strictly inside a package are
/// removed, exactly when the base name matches a pattern.  Removing an
/// entry removes its whole subtree, so a walker must not descend into an
/// entry it removed.
pub fn should_remove(depth_in_package: usize, base_name: &str, patterns: &Vec<String>) -> (r:
    bool)
    ensures
        r == (depth_in_package >= 1 && spec_matches_any(base_name@, patterns.deep_view())),
{
    depth_in_package >= 1 && matches_any(base_name, patterns)
}

/// One filter pass over the whole tree model.
pub fn filter_tree(tree: &Vec<FileEntry>, patterns: &Vec<String>) -> (r: Vec<FileEntry>)
    ensures
        r.deep_view() == spec_filter_tree(tree.deep_view(), patterns.deep_view()),
{
    let mut out: Vec<FileEntry> = Vec::new();
    let mut i: usize = 0;
    while i < tree.len()
        invariant
            i <= tree.len(),
            out.deep_view() == spec_filter_tree(
                tree.deep_view().take(i as int),
                patterns.deep_view(),
            ),
        decreases tree.len() - i,
    {
        let e = &tree[i];
        let keep = path_survives(&e.path, patterns);
        if keep {
            out.push(clone_entry(e));
        }
        proof {
            let t = tree.deep_view();
            assert(t.take(i + 1).drop_last() =~= t.take(i as int));
            assert(t.take(i + 1).last() == t[i as int]);
            assert(tree.deep_view()[i as int] == tree@[i as int].deep_view());
            if keep {
                assert(out.deep_view() =~= spec_filter_tree(t.take(i as int), patterns.deep_view())
                    .push(t[i as int]));
            }
        }
        i = i + 1;
    }
    proof {
        assert(tree.deep_view().take(tree@.len() as int) =~= tree.deep_view());
    }
    out
}

/// Filtering is idempotent: a second pass over an already filtered tree
/// removes nothing.
pub proof fn lemma_filter_idempotent(
    tree: Seq<(Seq<Seq<char>>, Seq<u8>)>,
    patterns: Seq<Seq<char>>,
)
    ensures
        spec_filter_tree(spec_filter_tree(tree, patterns), patterns) == spec_filter_tree(
            tree,
            patterns,
        ),
    decreases tree.len(),
{
    if tree.len() > 0 {
        lemma_filter_idempotent(tree.drop_last(), patterns);
        if entry_survives(tree.last().0, patterns) {
            let once = spec_filter_tree(tree, patterns);
            assert(once.drop_last() =~= spec_filter_tree(tree.drop_last(), patterns));
        }
    }
}

/// The filter only removes entries: everything it keeps stood in the tree.
pub proof fn lemma_filter_entries_from_tree(
    tree: Seq<(Seq<Seq<char>>, Seq<u8>)>,
    patterns: Seq<Seq<char>>,
    k: int,
)
    requires
        0 <= k < spec_filter_tree(tree, patterns).len(),
    ensures
        tree.contains(spec_filter_tree(tree, patterns)[k]),
    decreases tree.len(),
{
    if tree.len() > 0 {
        let rest = spec_filter_tree(tree.drop_last(), patterns);
        if k < rest.len() {
            lemma_filter_entries_from_tree(tree.drop_last(), patterns, k);
            let e = rest[k];
            let j = choose|j: int| 0 <= j < tree.drop_last().len() && tree.drop_last()[j] == e;
            assert(tree[j] == e);
        } else {
            assert(spec_filter_tree(tree, patterns)[k] == tree.last());
            assert(tree[tree.len() - 1] == tree.last());
        }
    }
}

} // verus!
