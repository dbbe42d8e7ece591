use volt::Compress;
use volt::filter::filter_tree;
use volt::filter::package_depth;
use volt::filter::path_survives;
use volt::filter::should_remove;
use volt::patterns::matches_any;
use volt::patterns::name_matches;
use volt::tree::FileEntry;

fn entry(path: &[&str], data: &[u8]) -> FileEntry {
    FileEntry {
        path: path.iter().map(|c| String::from(*c)).collect(),
        data: data.to_vec(),
    }
}

fn paths(tree: &[FileEntry]) -> Vec<Vec<String>> {
    tree.iter().map(|e| e.path.clone()).collect()
}

#[test]
fn star_glob_matches_any_case() {
    assert!(name_matches("*.md", "CHANGELOG.MD"));
    assert!(name_matches("*.md", "foo.md"));
    assert!(!name_matches("*.md", "foo.mdx"));
}

#[test]
fn exact_pattern_matches_whole_name_only() {
    assert!(name_matches("license", "LICENSE"));
    assert!(!name_matches("license", "LICENSE.txt"));
}

#[test]
fn directory_pattern_matches_ignoring_case() {
    assert!(name_matches("test", "Test"));
    assert!(!name_matches("test", "tests"));
}

#[test]
fn suffix_glob() {
    assert!(name_matches("readme.*", "README.TXT"));
    assert!(!name_matches("readme.*", "readme"));
}

#[test]
fn two_star_glob() {
    assert!(name_matches("*.vcxproj*", "proj.vcxproj.filters"));
    assert!(name_matches("*.vcxproj*", "a.vcxproj"));
    assert!(!name_matches("*.vcxproj*", "a.vcproj"));
}

#[test]
fn removable_patterns_cover_common_junk() {
    let pats = Compress::removable_patterns();
    assert!(matches_any("README.md", &pats));
    assert!(matches_any("yarn-error.log", &pats));
    assert!(matches_any(".DS_Store", &pats));
    assert!(!matches_any("index.js", &pats));
    assert!(!matches_any("package.json", &pats));
}

#[test]
fn package_directory_is_protected() {
    let pats = Compress::removable_patterns();
    // a top-level package that happens to be called like a junk directory
    assert!(path_survives(&vec![String::from("test")], &pats));
    assert!(path_survives(
        &vec![String::from("test"), String::from("index.js")],
        &pats
    ));
    // but a test directory inside a package is stripped
    assert!(!path_survives(
        &vec![
            String::from("left-pad"),
            String::from("test"),
            String::from("index.js")
        ],
        &pats
    ));
}

#[test]
fn scoped_package_directory_is_protected() {
    let pats = Compress::removable_patterns();
    // the package "@types/test": both name components are exempt
    assert!(path_survives(
        &vec![String::from("@types"), String::from("test")],
        &pats
    ));
    assert!(path_survives(
        &vec![
            String::from("@types"),
            String::from("test"),
            String::from("index.js")
        ],
        &pats
    ));
    // but a test directory inside the scoped package is stripped
    assert!(!path_survives(
        &vec![
            String::from("@types"),
            String::from("test"),
            String::from("test"),
            String::from("x.js")
        ],
        &pats
    ));
}

#[test]
fn package_depth_by_scope_marker() {
    assert_eq!(package_depth("@types"), 2);
    assert_eq!(package_depth("left-pad"), 1);
    assert_eq!(package_depth(""), 1);
}

#[test]
fn walk_decision_depth_rules() {
    let pats = Compress::removable_patterns();
    assert!(!should_remove(0, "test", &pats));
    assert!(should_remove(1, "Test", &pats));
    assert!(should_remove(2, "README.md", &pats));
    assert!(!should_remove(1, "index.js", &pats));
}

#[test]
fn filter_scenario_left_pad() {
    let pats = Compress::removable_patterns();
    let tree = vec![
        entry(&["left-pad", "README.md"], b"doc"),
        entry(&["left-pad", "test", "index.js"], b"t"),
        entry(&["left-pad", "index.js"], b"code"),
    ];
    let kept = filter_tree(&tree, &pats);
    assert_eq!(
        paths(&kept),
        vec![vec![String::from("left-pad"), String::from("index.js")]]
    );
    assert_eq!(kept[0].data, b"code".to_vec());
}

#[test]
fn filter_twice_is_filter_once() {
    let pats = Compress::removable_patterns();
    let tree = vec![
        entry(&["a", "README.md"], b"1"),
        entry(&["a", "lib", "a.js"], b"2"),
        entry(&["b", "Test", "x.js"], b"3"),
        entry(&["b", "main.js"], b"4"),
    ];
    let once = filter_tree(&tree, &pats);
    let twice = filter_tree(&once, &pats);
    assert_eq!(paths(&once), paths(&twice));
    let once_data: Vec<Vec<u8>> = once.iter().map(|e| e.data.clone()).collect();
    let twice_data: Vec<Vec<u8>> = twice.iter().map(|e| e.data.clone()).collect();
    assert_eq!(once_data, twice_data);
}
