//! The archive layer: gzip-compressed tar archives carry a package's
//! payload (extraction) and the packed dependency tree (compaction).
//!
//! The codecs themselves come from the `flate2` and `tar` crates and are
//! reached through trusted wrappers over in-memory bytes; everything around
//! them — path joining and splitting, the file-entry model, and the
//! round-trip of packing and unpacking — is verified.

use vstd::prelude::*;
use vstd::string::StringExecFns;

use crate::strings::chars_to_string;
use crate::strings::str_chars;
use crate::tree::FileEntry;
use crate::tree::clone_bytes;

verus! {

/// Why an archive could not be extracted.
#[derive(Clone, Copy, PartialEq, Eq, Structural, Debug)]
pub enum ExtractError {
    /// The bytes are not a valid gzip stream.
    InvalidGzip,
    /// The decompressed bytes are not a readable tar archive.
    MalformedTar,
    /// The archive holds an entry whose path could reach outside the
    /// package directory (`..`, `.`, an empty component) or that the tree
    /// cannot represent (a NUL character).
    UnsafePath,
}

/// One entry as the tar layer sees it: a slash-joined path, the contents,
/// and whether the entry is a regular file.
pub struct RawEntry {
    pub path: String,
    pub data: Vec<u8>,
    pub is_file: bool,
}

impl View for RawEntry {
    type V = (Seq<char>, Seq<u8>, bool);

    open spec fn view(&self) -> Self::V {
        (self.path@, self.data@, self.is_file)
    }
}

impl DeepView for RawEntry {
    type V = (Seq<char>, Seq<u8>, bool);

    open spec fn deep_view(&self) -> Self::V {
        self.view()
    }
}

/// What gzip decoding yields on given bytes: the decompressed bytes, or
/// nothing when the bytes are not a valid gzip stream.  The result depends
/// on the bytes alone.
pub uninterp spec fn gunzip_of(b: Seq<u8>) -> Option<Seq<u8>>;

/// What reading a tar archive yields on given bytes: the entries in order
/// (path, contents, is-regular-file), or nothing when the bytes are not a
/// readable archive.  The result depends on the bytes alone.
pub uninterp spec fn untar_of(b: Seq<u8>) -> Option<Seq<(Seq<char>, Seq<u8>, bool)>>;

/// Relies on flate2's `read::GzDecoder`: decoding is a function of the
/// bytes alone, and fails exactly on bytes that are not a valid gzip
/// stream.
#[verifier::external_body]
fn gunzip_bytes(b: &Vec<u8>) -> (r: Result<Vec<u8>, ExtractError>)
    ensures
        match r {
            Ok(v) => gunzip_of(b@) == Some(v@),
            Err(e) => gunzip_of(b@) is None && e == ExtractError::InvalidGzip,
        },
{
    let mut out: Vec<u8> = Vec::new();
    let mut dec = flate2::read::GzDecoder::new(&b[..]);
    match std::io::Read::read_to_end(&mut dec, &mut out) {
        Ok(_) => Ok(out),
        Err(_) => Err(ExtractError::InvalidGzip),
    }
}

/// Relies on flate2's `write::GzEncoder`: the gzip decoder returns exactly
/// the bytes that were given to the encoder, and encoding into an
/// in-memory buffer cannot fail.
#[verifier::external_body]
fn gzip_bytes(b: &Vec<u8>) -> (r: Vec<u8>)
    ensures
        gunzip_of(r@) == Some(b@),
{
    let mut enc = flate2::write::GzEncoder::new(Vec::new(), flate2::Compression::default());
    std::io::Write::write_all(&mut enc, &b[..]).unwrap();
    enc.finish().unwrap()
}

/// Relies on tar's `Archive` over an in-memory reader: the entry list read
/// from an archive is a function of the bytes alone.
#[verifier::external_body]
fn untar_bytes(b: &Vec<u8>) -> (r: Result<Vec<RawEntry>, ExtractError>)
    ensures
        match r {
            Ok(v) => untar_of(b@) == Some(v.deep_view()),
            Err(e) => untar_of(b@) is None && e == ExtractError::MalformedTar,
        },
{
    let mut ar = tar::Archive::new(&b[..]);
    let mut out: Vec<RawEntry> = Vec::new();
    let bad = ExtractError::MalformedTar;
    for entry in ar.entries().map_err(|_| bad)? {
        let mut entry = entry.map_err(|_| bad)?;
        let path = entry.path().ok().and_then(|p| p.to_str().map(str::to_owned)).ok_or(bad)?;
        let is_file = entry.header().entry_type().is_file();
        let mut data: Vec<u8> = Vec::new();
        std::io::Read::read_to_end(&mut entry, &mut data).map_err(|_| bad)?;
        out.push(RawEntry { path, data, is_file });
    }
    Ok(out)
}

/// Relies on tar's `Builder` with an in-memory writer.  A path whose
/// components are all clean is stored verbatim (the builder drops `.`
/// components, collapses repeated separators, and rejects `..`, absolute
/// paths and NUL, so those shapes are excluded here), appending such
/// entries to an in-memory buffer cannot fail, and reading the archive
/// back yields exactly the appended entries, in order, as regular files.
#[verifier::external_body]
fn tar_bytes(entries: &Vec<RawEntry>) -> (r: Vec<u8>)
    requires
        forall|k: int|
            0 <= k < entries.deep_view().len() ==> tar_path_ok(
                (#[trigger] entries.deep_view()[k]).0,
            ) && entries.deep_view()[k].2,
    ensures
        untar_of(r@) == Some(entries.deep_view()),
{
    let mut bld = tar::Builder::new(Vec::new());
    for e in entries.iter() {
        let mut header = tar::Header::new_gnu();
        header.set_size(e.data.len() as u64);
        header.set_mode(0o644);
        header.set_cksum();
        bld.append_data(&mut header, &e.path, &e.data[..]).unwrap();
    }
    bld.into_inner().unwrap()
}

/// A path component is slash-free.
pub open spec fn sep_free(c: Seq<char>) -> bool {
    forall|i: int| 0 <= i < c.len() ==> c[i] != '/'
}

/// A clean path component: nonempty, not `.`, not `..`, and free of NUL —
/// exactly the components the tar layer stores verbatim, and the ones that
/// cannot step outside the directory they are resolved under.
pub open spec fn clean_component(c: Seq<char>) -> bool {
    c.len() >= 1 && c != seq!['.'] && c != seq!['.', '.'] && forall|i: int|
        0 <= i < c.len() ==> c[i] != '\u{0}'
}

/// A slash-joined path the tar layer stores verbatim: nonempty, and every
/// component of its split is clean.
pub open spec fn tar_path_ok(p: Seq<char>) -> bool {
    p.len() > 0 && forall|j: int|
        0 <= j < spec_split_path(p).len() ==> clean_component(#[trigger] spec_split_path(p)[j])
}

/// A well-formed entry path: at least one component, each slash-free and
/// clean.
pub open spec fn wf_path(p: Seq<Seq<char>>) -> bool {
    p.len() >= 1 && forall|k: int|
        0 <= k < p.len() ==> sep_free(#[trigger] p[k]) && clean_component(p[k])
}

/// Every entry path of the tree is well formed.
pub open spec fn wf_tree(t: Seq<(Seq<Seq<char>>, Seq<u8>)>) -> bool {
    forall|k: int| 0 <= k < t.len() ==> wf_path((#[trigger] t[k]).0)
}

/// Is one component slash-free and clean?
fn component_is_clean(c: &str) -> (r: bool)
    ensures
        r == (sep_free(c@) && clean_component(c@)),
{
    let cs = str_chars(c);
    if cs.len() == 0 {
        return false;
    }
    if cs.len() == 1 && cs[0] == '.' {
        proof {
            assert(c@ =~= seq!['.']);
        }
        return false;
    }
    if cs.len() == 2 && cs[0] == '.' && cs[1] == '.' {
        proof {
            assert(c@ =~= seq!['.', '.']);
        }
        return false;
    }
    let mut i: usize = 0;
    while i < cs.len()
        invariant
            cs@ == c@,
            i <= c@.len(),
            forall|j: int| 0 <= j < i ==> c@[j] != '/' && c@[j] != '\u{0}',
        decreases c@.len() - i,
    {
        if cs[i] == '/' || cs[i] == '\u{0}' {
            return false;
        }
        i = i + 1;
    }
    proof {
        assert(c@ != seq!['.']) by {
            if c@ == seq!['.'] {
                assert(c@.len() == 1);
                assert(c@[0] == '.');
            }
        }
        assert(c@ != seq!['.', '.']) by {
            if c@ == seq!['.', '.'] {
                assert(c@.len() == 2);
                assert(c@[0] == '.');
                assert(c@[1] == '.');
            }
        }
    }
    true
}

/// Does the tree (and the pack format) accept this path: at least one
/// component, each slash-free and clean?
pub fn path_is_safe(path: &Vec<String>) -> (r: bool)
    ensures
        r == wf_path(path.deep_view()),
{
    if path.len() == 0 {
        return false;
    }
    let mut k: usize = 0;
    while k < path.len()
        invariant
            k <= path@.len(),
            path@.len() >= 1,
            forall|j: int|
                0 <= j < k ==> sep_free(#[trigger] path.deep_view()[j]) && clean_component(
                    path.deep_view()[j],
                ),
        decreases path@.len() - k,
    {
        proof {
            assert(path.deep_view()[k as int] == path@[k as int]@);
        }
        if !component_is_clean(path[k].as_str()) {
            return false;
        }
        k = k + 1;
    }
    true
}

/// Path components joined with `/`.
pub open spec fn spec_join_path(c: Seq<Seq<char>>) -> Seq<char>
    decreases c.len(),
{
    if c.len() == 0 {
        Seq::<char>::empty()
    } else if c.len() == 1 {
        c[0]
    } else {
        c[0] + seq!['/'] + spec_join_path(c.skip(1))
    }
}

/// A path split at its `/` separators, empty components preserved.
pub open spec fn spec_split_path(s: Seq<char>) -> Seq<Seq<char>>
    decreases s.len(),
{
    if s.len() == 0 {
        seq![Seq::<char>::empty()]
    } else if s[0] == '/' {
        seq![Seq::<char>::empty()] + spec_split_path(s.skip(1))
    } else {
        let rest = spec_split_path(s.skip(1));
        seq![seq![s[0]] + rest[0]] + rest.skip(1)
    }
}

/// Splitting always yields at least one component.
pub proof fn lemma_split_len(s: Seq<char>)
    ensures
        spec_split_path(s).len() >= 1,
    decreases s.len(),
{
    if s.len() > 0 {
        lemma_split_len(s.skip(1));
    }
}

/// A slash-free string splits into itself alone.
pub proof fn lemma_split_no_sep(s: Seq<char>)
    requires
        sep_free(s),
    ensures
        spec_split_path(s) == seq![s],
    decreases s.len(),
{
    if s.len() == 0 {
        assert(s =~= Seq::<char>::empty());
        assert(spec_split_path(s) =~= seq![s]);
    } else {
        assert(s[0] != '/');
        assert(sep_free(s.skip(1)));
        lemma_split_no_sep(s.skip(1));
        let rest = spec_split_path(s.skip(1));
        assert(spec_split_path(s) == seq![seq![s[0]] + rest[0]] + rest.skip(1));
        assert(rest[0] == s.skip(1));
        assert(rest.skip(1) =~= Seq::<Seq<char>>::empty());
        assert(seq![s[0]] + rest[0] =~= s);
        assert(seq![seq![s[0]] + rest[0]].len() == 1);
        assert((seq![seq![s[0]] + rest[0]] + rest.skip(1)).len() == 1);
        assert((seq![seq![s[0]] + rest[0]] + rest.skip(1))[0] == seq![s[0]] + rest[0]);
        assert(spec_split_path(s) =~= seq![s]);
    }
}

/// Splitting a string that starts with a slash-free component, a `/`, and a
/// tail peels off exactly that component.
pub proof fn lemma_split_at_sep(a: Seq<char>, t: Seq<char>)
    requires
        sep_free(a),
    ensures
        spec_split_path(a + seq!['/'] + t) == seq![a] + spec_split_path(t),
    decreases a.len(),
{
    let s = a + seq!['/'] + t;
    if a.len() == 0 {
        assert(s[0] == '/');
        assert(s.skip(1) =~= t);
        assert(a =~= Seq::<char>::empty());
        assert(seq![Seq::<char>::empty()] + spec_split_path(t) =~= seq![a] + spec_split_path(t));
    } else {
        assert(s[0] == a[0]);
        assert(s[0] != '/');
        assert(sep_free(a.skip(1)));
        assert(s.skip(1) =~= a.skip(1) + seq!['/'] + t);
        lemma_split_at_sep(a.skip(1), t);
        let rest = spec_split_path(s.skip(1));
        assert(rest == seq![a.skip(1)] + spec_split_path(t));
        lemma_split_len(t);
        assert(rest[0] == a.skip(1));
        assert(seq![s[0]] + rest[0] =~= a);
        assert(rest.skip(1) =~= spec_split_path(t));
        assert(spec_split_path(s) =~= seq![a] + spec_split_path(t));
    }
}

/// Splitting inverts joining on well-formed paths.
pub proof fn lemma_split_join(c: Seq<Seq<char>>)
    requires
        c.len() >= 1,
        forall|k: int| 0 <= k < c.len() ==> sep_free(#[trigger] c[k]),
    ensures
        spec_split_path(spec_join_path(c)) == c,
    decreases c.len(),
{
    if c.len() == 1 {
        lemma_split_no_sep(c[0]);
        assert(seq![c[0]] =~= c);
    } else {
        lemma_split_at_sep(c[0], spec_join_path(c.skip(1)));
        lemma_split_join(c.skip(1));
        assert(seq![c[0]] + c.skip(1) =~= c);
    }
}

/// Joining after pushing one more component appends `/` and the component.
proof fn lemma_join_push(c: Seq<Seq<char>>, x: Seq<char>)
    requires
        c.len() >= 1,
    ensures
        spec_join_path(c.push(x)) == spec_join_path(c) + seq!['/'] + x,
    decreases c.len(),
{
    if c.len() == 1 {
        assert(c.push(x).skip(1) =~= seq![x]);
        assert(spec_join_path(seq![x]) == x);
        assert(c.push(x)[0] == c[0]);
    } else {
        lemma_join_push(c.skip(1), x);
        assert(c.push(x).skip(1) =~= c.skip(1).push(x));
        assert(c.push(x)[0] == c[0]);
        assert(c[0] + seq!['/'] + (spec_join_path(c.skip(1)) + seq!['/'] + x) =~= (c[0] + seq!['/']
            + spec_join_path(c.skip(1))) + seq!['/'] + x);
    }
}

/// The joined path of a nonempty well-formed path is nonempty.
pub proof fn lemma_join_nonempty(c: Seq<Seq<char>>)
    requires
        c.len() >= 1,
        c[0].len() >= 1,
    ensures
        spec_join_path(c).len() >= 1,
{
}

/// The components of `path`, joined with `/`.
pub fn join_path(path: &Vec<String>) -> (r: String)
    requires
        path@.len() >= 1,
    ensures
        r@ == spec_join_path(path.deep_view()),
{
    let mut out: String = path[0].clone();
    proof {
        assert(path.deep_view().take(1) =~= seq![path.deep_view()[0]]);
        assert(spec_join_path(seq![path.deep_view()[0]]) == path.deep_view()[0]);
    }
    let mut i: usize = 1;
    while i < path.len()
        invariant
            1 <= i <= path@.len(),
            path@.len() >= 1,
            out@ == spec_join_path(path.deep_view().take(i as int)),
        decreases path@.len() - i,
    {
        out.append("/");
        out.append(path[i].as_str());
        proof {
            reveal_strlit("/");
            assert("/"@ =~= seq!['/']);
            let p = path.deep_view();
            lemma_join_push(p.take(i as int), p[i as int]);
            assert(p.take(i as int).push(p[i as int]) =~= p.take(i + 1));
        }
        i = i + 1;
    }
    proof {
        assert(path.deep_view().take(path@.len() as int) =~= path.deep_view());
    }
    out
}

/// Splits `s` at `/` into its path components.
pub fn split_path(s: &str) -> (r: Vec<String>)
    ensures
        r.deep_view() == spec_split_path(s@),
        r@.len() >= 1,
        forall|k: int| 0 <= k < r.deep_view().len() ==> sep_free(#[trigger] r.deep_view()[k]),
{
    let cs = str_chars(s);
    let n = cs.len();
    let mut out: Vec<String> = Vec::new();
    let mut cur: Vec<char> = Vec::new();
    let mut start: usize = 0;
    let mut i: usize = 0;
    proof {
        assert(s@.subrange(0, 0) =~= Seq::<char>::empty());
        assert(s@.skip(0) =~= s@);
        assert(out.deep_view() + spec_split_path(s@) =~= spec_split_path(s@));
    }
    while i < n
        invariant
            cs@ == s@,
            n == s@.len(),
            start <= i <= n,
            cur@ == s@.subrange(start as int, i as int),
            sep_free(cur@),
            forall|k: int|
                0 <= k < out.deep_view().len() ==> sep_free(#[trigger] out.deep_view()[k]),
            spec_split_path(s@) == out.deep_view() + spec_split_path(s@.skip(start as int)),
        decreases n - i,
    {
        let c = cs[i];
        if c == '/' {
            proof {
                assert(s@.skip(start as int) =~= cur@ + seq!['/'] + s@.skip(i + 1));
                lemma_split_at_sep(cur@, s@.skip(i + 1));
            }
            let ghost pre = out.deep_view();
            out.push(chars_to_string(&cur));
            proof {
                assert(out.deep_view() =~= pre.push(cur@));
                assert(pre + (seq![cur@] + spec_split_path(s@.skip(i + 1))) =~= pre.push(cur@)
                    + spec_split_path(s@.skip(i + 1)));
                assert(spec_split_path(s@) == out.deep_view() + spec_split_path(s@.skip(i + 1)));
            }
            cur = Vec::new();
            start = i + 1;
            proof {
                assert(cur@ =~= s@.subrange(start as int, i + 1));
            }
        } else {
            cur.push(c);
            proof {
                assert(s@.subrange(start as int, i + 1) =~= s@.subrange(start as int, i as int)
                    .push(s@[i as int]));
            }
        }
        i = i + 1;
    }
    proof {
        assert(s@.skip(start as int) =~= cur@);
        lemma_split_no_sep(cur@);
    }
    let ghost pre = out.deep_view();
    out.push(chars_to_string(&cur));
    proof {
        assert(out.deep_view() =~= pre.push(cur@));
        assert(pre + seq![cur@] =~= pre.push(cur@));
        assert(out.deep_view() =~= spec_split_path(s@));
    }
    out
}

/// The file entries of a raw entry list: regular files only, their paths
/// split into components.
pub open spec fn spec_file_entries(raws: Seq<(Seq<char>, Seq<u8>, bool)>) -> Seq<
    (Seq<Seq<char>>, Seq<u8>),
>
    decreases raws.len(),
{
    if raws.len() == 0 {
        Seq::<(Seq<Seq<char>>, Seq<u8>)>::empty()
    } else {
        let rest = spec_file_entries(raws.drop_last());
        if raws.last().2 {
            rest.push((spec_split_path(raws.last().0), raws.last().1))
        } else {
            rest
        }
    }
}

/// What unpacking an archive yields: gzip-decode, read the tar entries,
/// keep the regular files, and split their paths — or nothing when either
/// codec rejects the bytes.
pub open spec fn spec_unpack(b: Seq<u8>) -> Option<Seq<(Seq<Seq<char>>, Seq<u8>)>> {
    match gunzip_of(b) {
        Some(t) => match untar_of(t) {
            Some(raws) => Some(spec_file_entries(raws)),
            None => None,
        },
        None => None,
    }
}

/// Decompresses and reads a gzip-compressed tar archive into file entries.
/// It succeeds exactly when both codecs accept the bytes, and each failure
/// is reported by its stage.
pub fn unpack_archive(bytes: &Vec<u8>) -> (r: Result<Vec<FileEntry>, ExtractError>)
    ensures
        r is Ok <==> spec_unpack(bytes@) is Some,
        r matches Ok(v) ==> Some(v.deep_view()) == spec_unpack(bytes@),
        r matches Err(e) ==> (e == ExtractError::InvalidGzip <==> gunzip_of(bytes@) is None),
        r matches Err(e) ==> (e == ExtractError::MalformedTar <==> (gunzip_of(bytes@) is Some
            && untar_of(gunzip_of(bytes@).unwrap()) is None)),
{
    let tar_data = match gunzip_bytes(bytes) {
        Ok(t) => t,
        Err(e) => {
            return Err(e);
        },
    };
    let raws = match untar_bytes(&tar_data) {
        Ok(v) => v,
        Err(e) => {
            return Err(e);
        },
    };
    let mut out: Vec<FileEntry> = Vec::new();
    let mut i: usize = 0;
    while i < raws.len()
        invariant
            i <= raws.len(),
            out.deep_view() == spec_file_entries(raws.deep_view().take(i as int)),
        decreases raws.len() - i,
    {
        let e = &raws[i];
        if e.is_file {
            let path = split_path(e.path.as_str());
            out.push(FileEntry { path, data: clone_bytes(&e.data) });
        }
        proof {
            let rs = raws.deep_view();
            assert(rs.take(i + 1).drop_last() =~= rs.take(i as int));
            assert(rs.take(i + 1).last() == rs[i as int]);
            assert(raws.deep_view()[i as int] == raws@[i as int].deep_view());
            if raws@[i as int].is_file {
                assert(out.deep_view() =~= spec_file_entries(rs.take(i as int)).push(
                    (spec_split_path(rs[i as int].0), rs[i as int].1),
                ));
            }
        }
        i = i + 1;
    }
    proof {
        assert(raws.deep_view().take(raws@.len() as int) =~= raws.deep_view());
    }
    Ok(out)
}

/// The raw-entry forms of the tree's file entries, paths joined with `/`.
pub open spec fn spec_joined_entries(t: Seq<(Seq<Seq<char>>, Seq<u8>)>) -> Seq<
    (Seq<char>, Seq<u8>, bool),
>
    decreases t.len(),
{
    if t.len() == 0 {
        Seq::<(Seq<char>, Seq<u8>, bool)>::empty()
    } else {
        spec_joined_entries(t.drop_last()).push((spec_join_path(t.last().0), t.last().1, true))
    }
}

/// Unpacking the joined entries of a well-formed tree gives the tree back.
proof fn lemma_file_entries_of_joined(t: Seq<(Seq<Seq<char>>, Seq<u8>)>)
    requires
        wf_tree(t),
    ensures
        spec_file_entries(spec_joined_entries(t)) == t,
    decreases t.len(),
{
    if t.len() > 0 {
        assert(wf_tree(t.drop_last())) by {
            assert(forall|k: int|
                0 <= k < t.drop_last().len() ==> t.drop_last()[k] == t[k]);
        }
        lemma_file_entries_of_joined(t.drop_last());
        let js = spec_joined_entries(t);
        assert(js.drop_last() =~= spec_joined_entries(t.drop_last()));
        assert(wf_path(t.last().0));
        lemma_split_join(t.last().0);
        assert(spec_file_entries(js) =~= t);
    }
}

/// Builds the single compressed pack archive of the tree.  The archive
/// unpacks to exactly the tree it was built from — the round-trip
/// guarantee of the pack format — and building cannot fail: every
/// well-formed tree is packable.
pub fn pack_tree(tree: &Vec<FileEntry>) -> (r: Vec<u8>)
    requires
        wf_tree(tree.deep_view()),
    ensures
        spec_unpack(r@) == Some(tree.deep_view()),
{
    let mut raws: Vec<RawEntry> = Vec::new();
    let mut i: usize = 0;
    while i < tree.len()
        invariant
            i <= tree.len(),
            wf_tree(tree.deep_view()),
            raws.deep_view() == spec_joined_entries(tree.deep_view().take(i as int)),
            forall|k: int|
                0 <= k < raws.deep_view().len() ==> tar_path_ok(
                    (#[trigger] raws.deep_view()[k]).0,
                ) && raws.deep_view()[k].2,
        decreases tree.len() - i,
    {
        let e = &tree[i];
        proof {
            assert(tree.deep_view()[i as int] == tree@[i as int].deep_view());
            assert(wf_path(tree.deep_view()[i as int].0));
        }
        let path = join_path(&e.path);
        proof {
            let comps = tree.deep_view()[i as int].0;
            lemma_join_nonempty(comps);
            lemma_split_join(comps);
            assert(tar_path_ok(spec_join_path(comps)));
        }
        raws.push(RawEntry { path, data: clone_bytes(&e.data), is_file: true });
        proof {
            let t = tree.deep_view();
            assert(t.take(i + 1).drop_last() =~= t.take(i as int));
            assert(t.take(i + 1).last() == t[i as int]);
            assert(raws.deep_view() =~= spec_joined_entries(t.take(i as int)).push(
                (spec_join_path(t[i as int].0), t[i as int].1, true),
            ));
        }
        i = i + 1;
    }
    proof {
        assert(tree.deep_view().take(tree@.len() as int) =~= tree.deep_view());
    }
    let tar_data = tar_bytes(&raws);
    let packed = gzip_bytes(&tar_data);
    proof {
        lemma_file_entries_of_joined(tree.deep_view());
    }
    packed
}

/// Every entry path of an untrusted payload is well formed: no entry can
/// step outside the directory it is installed under.
pub open spec fn spec_safe_payload(es: Seq<(Seq<Seq<char>>, Seq<u8>)>) -> bool {
    forall|k: int| 0 <= k < es.len() ==> wf_path((#[trigger] es[k]).0)
}

/// The extractor: unpacks a fetched tarball and installs its payload as
/// the package called `name`, replacing any earlier installation of that
/// name.  The archive's content is untrusted: a payload entry whose path
/// could escape the package directory (`..`, `.`, an empty component, NUL)
/// is rejected, and on any failure the tree is untouched — extraction is
/// all-or-nothing.  Registry tarballs conventionally nest their payload
/// under a `package/` directory; that nesting is preserved, so the payload
/// lands under the package directory exactly as it stands in the archive.
pub fn extract_into_tree(tree: &Vec<FileEntry>, name: &str, bytes: &Vec<u8>) -> (r: Result<
    Vec<FileEntry>,
    ExtractError,
>)
    ensures
        r is Ok <==> (spec_unpack(bytes@) is Some && spec_safe_payload(
            spec_unpack(bytes@).unwrap(),
        )),
        r matches Ok(t) ==> t.deep_view() == crate::tree::spec_install(
            tree.deep_view(),
            name@,
            spec_unpack(bytes@).unwrap(),
        ),
        r matches Err(e) ==> (e == ExtractError::InvalidGzip <==> gunzip_of(bytes@) is None),
        r matches Err(e) ==> (e == ExtractError::MalformedTar <==> (gunzip_of(bytes@) is Some
            && untar_of(gunzip_of(bytes@).unwrap()) is None)),
        r matches Err(e) ==> (e == ExtractError::UnsafePath <==> (spec_unpack(bytes@) is Some
            && !spec_safe_payload(spec_unpack(bytes@).unwrap()))),
{
    let payload = match unpack_archive(bytes) {
        Ok(p) => p,
        Err(e) => {
            return Err(e);
        },
    };
    let mut i: usize = 0;
    while i < payload.len()
        invariant
            i <= payload.len(),
            Some(payload.deep_view()) == spec_unpack(bytes@),
            forall|j: int| 0 <= j < i ==> wf_path((#[trigger] payload.deep_view()[j]).0),
        decreases payload.len() - i,
    {
        proof {
            assert(payload.deep_view()[i as int] == payload@[i as int].deep_view());
        }
        if !path_is_safe(&payload[i].path) {
            return Err(ExtractError::UnsafePath);
        }
        i = i + 1;
    }
    Ok(crate::tree::install_package(tree, name, &payload))
}

} // verus!
