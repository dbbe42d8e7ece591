use std::io::Write;

use volt::Compress;
use volt::archive::ExtractError;
use volt::archive::extract_into_tree;
use volt::archive::join_path;
use volt::archive::pack_tree;
use volt::archive::path_is_safe;
use volt::archive::split_path;
use volt::archive::unpack_archive;
use volt::tree::FileEntry;
use volt::tree::install_package;

fn entry(path: &[&str], data: &[u8]) -> FileEntry {
    FileEntry {
        path: path.iter().map(|c| String::from(*c)).collect(),
        data: data.to_vec(),
    }
}

fn shape(tree: &[FileEntry]) -> Vec<(Vec<String>, Vec<u8>)> {
    tree.iter().map(|e| (e.path.clone(), e.data.clone())).collect()
}

/// A gzip-compressed tar archive holding the given files, built with the
/// same outside crates the library calls.
fn make_tgz(entries: &[(&str, &[u8])]) -> Vec<u8> {
    let mut builder = tar::Builder::new(Vec::new());
    for (path, data) in entries {
        let mut header = tar::Header::new_gnu();
        header.set_size(data.len() as u64);
        header.set_mode(0o644);
        header.set_cksum();
        builder.append_data(&mut header, *path, *data).unwrap();
    }
    let tar_bytes = builder.into_inner().unwrap();
    let mut enc = flate2::write::GzEncoder::new(Vec::new(), flate2::Compression::default());
    enc.write_all(&tar_bytes).unwrap();
    enc.finish().unwrap()
}

#[test]
fn split_and_join_paths() {
    let parts = split_path("left-pad/package/index.js");
    assert_eq!(
        parts,
        vec![
            String::from("left-pad"),
            String::from("package"),
            String::from("index.js")
        ]
    );
    assert_eq!(join_path(&parts), "left-pad/package/index.js");
    assert_eq!(split_path("plain"), vec![String::from("plain")]);
}

#[test]
fn pack_then_unpack_reproduces_tree() {
    let tree = vec![
        entry(&["left-pad", "package", "index.js"], b"module.exports = leftPad;"),
        entry(&["left-pad", "package", "package.json"], b"{\"name\":\"left-pad\"}"),
        entry(&["other", "main.js"], b"console.log(1);"),
    ];
    let packed = pack_tree(&tree);
    let unpacked = unpack_archive(&packed).unwrap();
    assert_eq!(shape(&tree), shape(&unpacked));
}

#[test]
fn pack_of_scoped_package_round_trips() {
    let tree = vec![
        entry(&["@scope", "pkg", "index.js"], b"scoped"),
        entry(&["plain", "main.js"], b"plain"),
    ];
    let packed = pack_tree(&tree);
    let unpacked = unpack_archive(&packed).unwrap();
    assert_eq!(shape(&tree), shape(&unpacked));
}

#[test]
fn unpack_of_externally_built_archive() {
    let tgz = make_tgz(&[
        ("package/index.js", b"mod"),
        ("package/README.md", b"doc"),
    ]);
    let entries = unpack_archive(&tgz).unwrap();
    assert_eq!(
        shape(&entries),
        vec![
            (
                vec![String::from("package"), String::from("index.js")],
                b"mod".to_vec()
            ),
            (
                vec![String::from("package"), String::from("README.md")],
                b"doc".to_vec()
            ),
        ]
    );
}

#[test]
fn extract_scenario_replaces_prior_install() {
    let tgz = make_tgz(&[
        ("package/index.js", b"new code"),
        ("package/README.md", b"doc"),
    ]);
    let tree = vec![
        entry(&["left-pad", "stale.js"], b"old"),
        entry(&["other", "x.js"], b"keep"),
    ];
    let installed = extract_into_tree(&tree, "left-pad", &tgz).unwrap();
    assert_eq!(
        shape(&installed),
        vec![
            (vec![String::from("other"), String::from("x.js")], b"keep".to_vec()),
            (
                vec![
                    String::from("left-pad"),
                    String::from("package"),
                    String::from("index.js")
                ],
                b"new code".to_vec()
            ),
            (
                vec![
                    String::from("left-pad"),
                    String::from("package"),
                    String::from("README.md")
                ],
                b"doc".to_vec()
            ),
        ]
    );
}

#[test]
fn extracting_twice_leaves_only_latest_payload() {
    let v1 = make_tgz(&[("package/a.js", b"v1")]);
    let v2 = make_tgz(&[("package/b.js", b"v2")]);
    let tree: Vec<FileEntry> = Vec::new();
    let after_v1 = extract_into_tree(&tree, "left-pad", &v1).unwrap();
    let after_v2 = extract_into_tree(&after_v1, "left-pad", &v2).unwrap();
    assert_eq!(
        shape(&after_v2),
        vec![(
            vec![
                String::from("left-pad"),
                String::from("package"),
                String::from("b.js")
            ],
            b"v2".to_vec()
        )]
    );
}

#[test]
fn scoped_install_uses_nested_directories() {
    let tree = vec![
        entry(&["@scope", "pkg", "old.js"], b"old"),
        entry(&["other", "x.js"], b"keep"),
    ];
    let payload = vec![entry(&["package", "index.js"], b"new")];
    let out = install_package(&tree, "@scope/pkg", &payload);
    assert_eq!(
        shape(&out),
        vec![
            (vec![String::from("other"), String::from("x.js")], b"keep".to_vec()),
            (
                vec![
                    String::from("@scope"),
                    String::from("pkg"),
                    String::from("package"),
                    String::from("index.js")
                ],
                b"new".to_vec()
            ),
        ]
    );
}

#[test]
fn safe_path_rules() {
    assert!(path_is_safe(&vec![String::from("a"), String::from("b.js")]));
    assert!(!path_is_safe(&Vec::new()));
    assert!(!path_is_safe(&vec![String::from("..")]));
    assert!(!path_is_safe(&vec![String::from(".")]));
    assert!(!path_is_safe(&vec![String::from("")]));
    assert!(!path_is_safe(&vec![String::from("a"), String::from("b/c")]));
    assert!(!path_is_safe(&vec![String::from("a\0b")]));
}

#[test]
fn traversal_entry_is_rejected() {
    let mut builder = tar::Builder::new(Vec::new());
    let mut header = tar::Header::new_gnu();
    let name = b"../evil";
    header.as_old_mut().name[..name.len()].copy_from_slice(name);
    header.set_size(4);
    header.set_mode(0o644);
    header.set_cksum();
    builder.append(&header, &b"boom"[..]).unwrap();
    let tar_bytes = builder.into_inner().unwrap();
    let mut enc = flate2::write::GzEncoder::new(Vec::new(), flate2::Compression::default());
    enc.write_all(&tar_bytes).unwrap();
    let tgz = enc.finish().unwrap();

    let tree: Vec<FileEntry> = Vec::new();
    assert_eq!(
        extract_into_tree(&tree, "left-pad", &tgz).unwrap_err(),
        ExtractError::UnsafePath
    );
}

#[test]
fn install_is_replace_not_merge() {
    let tree = vec![entry(&["p", "one.js"], b"1")];
    let payload1 = vec![entry(&["x.js"], b"x")];
    let payload2 = vec![entry(&["y.js"], b"y")];
    let once = install_package(&tree, "p", &payload2);
    let twice = install_package(&install_package(&tree, "p", &payload1), "p", &payload2);
    assert_eq!(shape(&once), shape(&twice));
}

#[test]
fn pack_of_empty_tree_round_trips() {
    let tree: Vec<FileEntry> = Vec::new();
    let packed = pack_tree(&tree);
    let unpacked = unpack_archive(&packed).unwrap();
    assert!(unpacked.is_empty());
}

#[test]
fn split_keeps_empty_components() {
    assert_eq!(
        split_path("a//b"),
        vec![String::from("a"), String::from(""), String::from("b")]
    );
    assert_eq!(split_path(""), vec![String::from("")]);
}

#[test]
fn not_gzip_is_rejected() {
    let bytes: Vec<u8> = b"this is not a gzip stream".to_vec();
    assert_eq!(unpack_archive(&bytes).unwrap_err(), ExtractError::InvalidGzip);
}

#[test]
fn gzip_of_junk_is_not_a_tar() {
    let mut enc = flate2::write::GzEncoder::new(Vec::new(), flate2::Compression::default());
    enc.write_all(b"junk that is no tar archive").unwrap();
    let bytes = enc.finish().unwrap();
    assert_eq!(unpack_archive(&bytes).unwrap_err(), ExtractError::MalformedTar);
}

#[test]
fn compact_filters_then_packs() {
    let pats = Compress::removable_patterns();
    let tree = vec![
        entry(&["left-pad", "README.md"], b"doc"),
        entry(&["left-pad", "test", "index.js"], b"t"),
        entry(&["left-pad", "index.js"], b"code"),
    ];
    let packed = Compress::compact(&tree, &pats);
    let unpacked = unpack_archive(&packed).unwrap();
    assert_eq!(
        shape(&unpacked),
        vec![(
            vec![String::from("left-pad"), String::from("index.js")],
            b"code".to_vec()
        )]
    );
}
