//! An in-memory model of the dependency tree: the set of installed files,
//! each named by its path components relative to the tree root.  An
//! entry's leading path components are the name of the package that owns
//! it, split at `/` — one component for a plain name, two for a scoped
//! name such as `@scope/pkg` — mirroring the on-disk layout.
//!
//! Installing a package replaces, never merges: every entry owned by the
//! package is dropped before the new payload is added, so the tree holds at
//! most one installation per package name.

use vstd::prelude::*;

use crate::strings::str_eq;

verus! {

/// One file of the dependency tree (or of an archive's payload): its path
/// components and its contents.
#[derive(Debug)]
pub struct FileEntry {
    pub path: Vec<String>,
    pub data: Vec<u8>,
}

impl View for FileEntry {
    type V = (Seq<Seq<char>>, Seq<u8>);

    open spec fn view(&self) -> Self::V {
        (self.path.deep_view(), self.data@)
    }
}

impl DeepView for FileEntry {
    type V = (Seq<Seq<char>>, Seq<u8>);

    open spec fn deep_view(&self) -> Self::V {
        self.view()
    }
}

/// Does the entry belong to the package called `name`?  A package's
/// directory components are its name split at `/`, so a scoped name owns
/// the subtree under both of its components.
pub open spec fn owned_by(e: (Seq<Seq<char>>, Seq<u8>), name: Seq<char>) -> bool {
    let nc = crate::archive::spec_split_path(name);
    e.0.len() >= nc.len() && e.0.subrange(0, nc.len() as int) == nc
}

/// The tree without the entries owned by `name`.
pub open spec fn spec_keep_others(
    tree: Seq<(Seq<Seq<char>>, Seq<u8>)>,
    name: Seq<char>,
) -> Seq<(Seq<Seq<char>>, Seq<u8>)>
    decreases tree.len(),
{
    if tree.len() == 0 {
        Seq::<(Seq<Seq<char>>, Seq<u8>)>::empty()
    } else {
        let rest = spec_keep_others(tree.drop_last(), name);
        if owned_by(tree.last(), name) {
            rest
        } else {
            rest.push(tree.last())
        }
    }
}

/// The payload of a package, re-rooted under the package's own directory.
pub open spec fn spec_prefix_all(
    name: Seq<char>,
    payload: Seq<(Seq<Seq<char>>, Seq<u8>)>,
) -> Seq<(Seq<Seq<char>>, Seq<u8>)>
    decreases payload.len(),
{
    if payload.len() == 0 {
        Seq::<(Seq<Seq<char>>, Seq<u8>)>::empty()
    } else {
        spec_prefix_all(name, payload.drop_last()).push(
            (crate::archive::spec_split_path(name) + payload.last().0, payload.last().1),
        )
    }
}

/// The tree after installing `payload` as the package called `name`:
/// everything the package owned is gone, and exactly the new payload stands
/// under its directory.
pub open spec fn spec_install(
    tree: Seq<(Seq<Seq<char>>, Seq<u8>)>,
    name: Seq<char>,
    payload: Seq<(Seq<Seq<char>>, Seq<u8>)>,
) -> Seq<(Seq<Seq<char>>, Seq<u8>)> {
    spec_keep_others(tree, name) + spec_prefix_all(name, payload)
}

/// A value copy of a byte vector.
pub fn clone_bytes(v: &Vec<u8>) -> (r: Vec<u8>)
    ensures
        r@ == v@,
{
    let mut out: Vec<u8> = Vec::new();
    let mut i: usize = 0;
    while i < v.len()
        invariant
            i <= v.len(),
            out@ == v@.take(i as int),
        decreases v.len() - i,
    {
        out.push(v[i]);
        proof {
            assert(v@.take(i + 1) =~= v@.take(i as int).push(v@[i as int]));
        }
        i = i + 1;
    }
    proof {
        assert(v@.take(v@.len() as int) =~= v@);
    }
    out
}

/// A value copy of a vector of strings.
pub fn clone_strings(v: &Vec<String>) -> (r: Vec<String>)
    ensures
        r@ == v@,
        r.deep_view() == v.deep_view(),
{
    let mut out: Vec<String> = Vec::new();
    let mut i: usize = 0;
    while i < v.len()
        invariant
            i <= v.len(),
            out@ == v@.take(i as int),
        decreases v.len() - i,
    {
        out.push(v[i].clone());
        proof {
            assert(out@ =~= v@.take(i + 1));
        }
        i = i + 1;
    }
    proof {
        assert(v@.take(v@.len() as int) =~= v@);
        assert(out.deep_view() =~= v.deep_view());
    }
    out
}

/// A value copy of one tree entry.
pub fn clone_entry(e: &FileEntry) -> (r: FileEntry)
    ensures
        r.deep_view() == e.deep_view(),
{
    let r = FileEntry { path: clone_strings(&e.path), data: clone_bytes(&e.data) };
    proof {
        assert(r.path.deep_view() =~= e.path.deep_view());
    }
    r
}

/// Do the path's leading components equal `parts`?
fn has_prefix(path: &Vec<String>, parts: &Vec<String>) -> (r: bool)
    ensures
        r == (path.deep_view().len() >= parts.deep_view().len() && path.deep_view().subrange(
            0,
            parts.deep_view().len() as int,
        ) == parts.deep_view()),
{
    if path.len() < parts.len() {
        return false;
    }
    let mut k: usize = 0;
    while k < parts.len()
        invariant
            k <= parts@.len(),
            path@.len() >= parts@.len(),
            forall|j: int| 0 <= j < k ==> path.deep_view()[j] == parts.deep_view()[j],
        decreases parts@.len() - k,
    {
        proof {
            assert(path.deep_view()[k as int] == path@[k as int]@);
            assert(parts.deep_view()[k as int] == parts@[k as int]@);
        }
        if !str_eq(path[k].as_str(), parts[k].as_str()) {
            proof {
                let pre = path.deep_view().subrange(0, parts.deep_view().len() as int);
                if pre == parts.deep_view() {
                    assert(pre[k as int] == path.deep_view()[k as int]);
                }
            }
            return false;
        }
        k = k + 1;
    }
    proof {
        assert(path.deep_view().subrange(0, parts.deep_view().len() as int)
            =~= parts.deep_view());
    }
    true
}

/// Installs `payload` as the package called `name`, replacing whatever the
/// tree held for that package before.
pub fn install_package(tree: &Vec<FileEntry>, name: &str, payload: &Vec<FileEntry>) -> (r: Vec<
    FileEntry,
>)
    ensures
        r.deep_view() == spec_install(tree.deep_view(), name@, payload.deep_view()),
{
    let name_parts = crate::archive::split_path(name);
    proof {
        assert(name_parts.deep_view() == crate::archive::spec_split_path(name@));
    }
    let mut out: Vec<FileEntry> = Vec::new();
    let mut i: usize = 0;
    while i < tree.len()
        invariant
            i <= tree.len(),
            name_parts.deep_view() == crate::archive::spec_split_path(name@),
            out.deep_view() == spec_keep_others(tree.deep_view().take(i as int), name@),
        decreases tree.len() - i,
    {
        let e = &tree[i];
        proof {
            assert(tree.deep_view()[i as int] == tree@[i as int].deep_view());
        }
        let keep = !has_prefix(&e.path, &name_parts);
        let ghost pre = out.deep_view();
        if keep {
            out.push(clone_entry(e));
            proof {
                assert(out.deep_view() =~= pre.push(tree.deep_view()[i as int]));
            }
        }
        proof {
            let t = tree.deep_view();
            assert(t.take(i + 1).drop_last() =~= t.take(i as int));
            assert(t.take(i + 1).last() == t[i as int]);
            assert(keep == !owned_by(t[i as int], name@));
        }
        i = i + 1;
    }
    proof {
        assert(tree.deep_view().take(tree@.len() as int) =~= tree.deep_view());
    }
    let mut j: usize = 0;
    while j < payload.len()
        invariant
            j <= payload.len(),
            name_parts.deep_view() == crate::archive::spec_split_path(name@),
            out.deep_view() == spec_keep_others(tree.deep_view(), name@) + spec_prefix_all(
                name@,
                payload.deep_view().take(j as int),
            ),
        decreases payload.len() - j,
    {
        let e = &payload[j];
        let mut path: Vec<String> = clone_strings(&name_parts);
        proof {
            assert(path@ =~= name_parts@ + e.path@.take(0));
        }
        let mut k: usize = 0;
        while k < e.path.len()
            invariant
                k <= e.path@.len(),
                path@ == name_parts@ + e.path@.take(k as int),
            decreases e.path.len() - k,
        {
            path.push(e.path[k].clone());
            proof {
                assert(path@ =~= name_parts@ + e.path@.take(k + 1));
            }
            k = k + 1;
        }
        proof {
            assert(e.path@.take(e.path@.len() as int) =~= e.path@);
            let nc = crate::archive::spec_split_path(name@);
            assert forall|t: int| 0 <= t < path.deep_view().len() implies path.deep_view()[t] == (
            nc + e.path.deep_view())[t] by {
                assert(path.deep_view()[t] == path@[t]@);
                if t < name_parts@.len() {
                    assert(path@[t] == name_parts@[t]);
                    assert(name_parts.deep_view()[t] == name_parts@[t]@);
                } else {
                    assert(path@[t] == e.path@[t - name_parts@.len()]);
                    assert(e.path.deep_view()[t - name_parts@.len()] == e.path@[t
                        - name_parts@.len()]@);
                }
            }
            assert(path.deep_view() =~= nc + e.path.deep_view());
        }
        let ghost pre = out.deep_view();
        out.push(FileEntry { path, data: clone_bytes(&e.data) });
        proof {
            let nc = crate::archive::spec_split_path(name@);
            let p = payload.deep_view();
            assert(p.take(j + 1).drop_last() =~= p.take(j as int));
            assert(p.take(j + 1).last() == p[j as int]);
            assert(payload.deep_view()[j as int] == payload@[j as int].deep_view());
            assert(out.deep_view() =~= pre.push((nc + p[j as int].0, p[j as int].1)));
            assert(out.deep_view() =~= spec_keep_others(tree.deep_view(), name@)
                + spec_prefix_all(name@, p.take(j + 1)));
        }
        j = j + 1;
    }
    proof {
        assert(payload.deep_view().take(payload@.len() as int) =~= payload.deep_view());
    }
    out
}

/// Replace semantics: installing a package and then installing it again
/// (any versions) leaves exactly what the second installation brought —
/// the first one leaves no residue.
pub proof fn lemma_install_replaces(
    tree: Seq<(Seq<Seq<char>>, Seq<u8>)>,
    name: Seq<char>,
    p1: Seq<(Seq<Seq<char>>, Seq<u8>)>,
    p2: Seq<(Seq<Seq<char>>, Seq<u8>)>,
)
    ensures
        spec_install(spec_install(tree, name, p1), name, p2) == spec_install(tree, name, p2),
{
    lemma_keep_others_add(spec_keep_others(tree, name), spec_prefix_all(name, p1), name);
    lemma_keep_others_idempotent(tree, name);
    lemma_keep_others_of_prefixed(name, p1);
    assert(spec_keep_others(spec_install(tree, name, p1), name) =~= spec_keep_others(tree, name));
}

/// After an installation the tree holds, for the installed name, exactly
/// the new payload: every entry owned by the name is one of the re-rooted
/// payload entries, and every payload entry stands in the tree.
pub proof fn lemma_install_exactly_payload(
    tree: Seq<(Seq<Seq<char>>, Seq<u8>)>,
    name: Seq<char>,
    payload: Seq<(Seq<Seq<char>>, Seq<u8>)>,
)
    ensures
        forall|k: int|
            0 <= k < spec_install(tree, name, payload).len() && owned_by(
                #[trigger] spec_install(tree, name, payload)[k],
                name,
            ) ==> spec_prefix_all(name, payload).contains(spec_install(tree, name, payload)[k]),
        forall|k: int|
            0 <= k < spec_prefix_all(name, payload).len() ==> spec_install(
                tree,
                name,
                payload,
            ).contains(#[trigger] spec_prefix_all(name, payload)[k]),
{
    let kept = spec_keep_others(tree, name);
    let fresh = spec_prefix_all(name, payload);
    lemma_keep_others_drops_owner(tree, name);
    assert forall|k: int|
        0 <= k < spec_install(tree, name, payload).len() && owned_by(
            #[trigger] spec_install(tree, name, payload)[k],
            name,
        ) implies fresh.contains(spec_install(tree, name, payload)[k]) by {
        if k < kept.len() {
            assert(spec_install(tree, name, payload)[k] == kept[k]);
        } else {
            assert(spec_install(tree, name, payload)[k] == fresh[k - kept.len()]);
        }
    }
    assert forall|k: int| 0 <= k < fresh.len() implies spec_install(tree, name, payload).contains(
        #[trigger] fresh[k],
    ) by {
        assert(spec_install(tree, name, payload)[kept.len() + k] == fresh[k]);
    }
}

/// Nothing that survives the removal of a package's entries is owned by it.
proof fn lemma_keep_others_drops_owner(tree: Seq<(Seq<Seq<char>>, Seq<u8>)>, name: Seq<char>)
    ensures
        forall|k: int|
            0 <= k < spec_keep_others(tree, name).len() ==> !owned_by(
                #[trigger] spec_keep_others(tree, name)[k],
                name,
            ),
    decreases tree.len(),
{
    if tree.len() > 0 {
        lemma_keep_others_drops_owner(tree.drop_last(), name);
        let rest = spec_keep_others(tree.drop_last(), name);
        if !owned_by(tree.last(), name) {
            assert forall|k: int|
                0 <= k < spec_keep_others(tree, name).len() implies !owned_by(
                #[trigger] spec_keep_others(tree, name)[k],
                name,
            ) by {
                if k < rest.len() {
                    assert(spec_keep_others(tree, name)[k] == rest[k]);
                } else {
                    assert(spec_keep_others(tree, name)[k] == tree.last());
                }
            }
        }
    }
}

/// Every entry of a re-rooted payload is owned by the package, so removing
/// that package's entries from it leaves nothing.
proof fn lemma_keep_others_of_prefixed(name: Seq<char>, payload: Seq<(Seq<Seq<char>>, Seq<u8>)>)
    ensures
        spec_keep_others(spec_prefix_all(name, payload), name) == Seq::<
            (Seq<Seq<char>>, Seq<u8>),
        >::empty(),
    decreases payload.len(),
{
    if payload.len() > 0 {
        lemma_keep_others_of_prefixed(name, payload.drop_last());
        let whole = spec_prefix_all(name, payload);
        assert(whole.drop_last() =~= spec_prefix_all(name, payload.drop_last()));
        let nc = crate::archive::spec_split_path(name);
        assert((nc + payload.last().0).subrange(0, nc.len() as int) =~= nc);
        assert(owned_by(whole.last(), name));
    }
}

/// Removing a package's entries twice is the same as removing them once.
proof fn lemma_keep_others_idempotent(tree: Seq<(Seq<Seq<char>>, Seq<u8>)>, name: Seq<char>)
    ensures
        spec_keep_others(spec_keep_others(tree, name), name) == spec_keep_others(tree, name),
    decreases tree.len(),
{
    if tree.len() > 0 {
        lemma_keep_others_idempotent(tree.drop_last(), name);
        if !owned_by(tree.last(), name) {
            let inner = spec_keep_others(tree, name);
            assert(inner.drop_last() =~= spec_keep_others(tree.drop_last(), name));
        }
    }
}

/// Removing a package's entries distributes over concatenation.
proof fn lemma_keep_others_add(
    a: Seq<(Seq<Seq<char>>, Seq<u8>)>,
    b: Seq<(Seq<Seq<char>>, Seq<u8>)>,
    name: Seq<char>,
)
    ensures
        spec_keep_others(a + b, name) == spec_keep_others(a, name) + spec_keep_others(b, name),
    decreases b.len(),
{
    if b.len() == 0 {
        assert(a + b =~= a);
        assert(spec_keep_others(a, name) + spec_keep_others(b, name) =~= spec_keep_others(
            a,
            name,
        ));
    } else {
        lemma_keep_others_add(a, b.drop_last(), name);
        assert((a + b).drop_last() =~= a + b.drop_last());
        assert((a + b).last() == b.last());
        if !owned_by(b.last(), name) {
            assert(spec_keep_others(a, name) + spec_keep_others(b.drop_last(), name).push(
                b.last(),
            ) =~= (spec_keep_others(a, name) + spec_keep_others(b.drop_last(), name)).push(
                b.last(),
            ));
        }
    }
}

} // verus!
