use volt::App;
use volt::cache::cache_file_name;
use volt::cache::sanitize_name;
use volt::enable_ansi_support;
use volt::get_arguments;
use volt::get_basename;
use volt::package::Dist;
use volt::package::FetchError;
use volt::package::Package;
use volt::package::VersionEntry;

fn descriptor(name: &str, pairs: &[(&str, &str)]) -> Package {
    let versions = pairs
        .iter()
        .map(|(v, url)| VersionEntry {
            version: String::from(*v),
            dist: Dist { tarball: String::from(*url) },
        })
        .collect();
    Package { name: String::from(name), versions }
}

#[test]
fn sanitize_scoped_name() {
    assert_eq!(sanitize_name("@types/node"), "types__node");
}

#[test]
fn sanitize_dotted_name() {
    assert_eq!(sanitize_name("lodash.merge"), "lodash_merge");
}

#[test]
fn sanitize_plain_name() {
    assert_eq!(sanitize_name("left-pad"), "left-pad");
}

#[test]
fn sanitize_all_special_characters() {
    assert_eq!(sanitize_name("@scope/pkg.js"), "scope__pkg_js");
}

#[test]
fn basename_of_empty_path() {
    assert_eq!(get_basename(""), "");
}

#[test]
fn cache_file_name_left_pad() {
    assert_eq!(cache_file_name("left-pad", "1.3.0"), "left-pad@1.3.0.tgz");
}

#[test]
fn cache_file_name_scoped() {
    assert_eq!(cache_file_name("@babel/core", "7.0.0"), "babel__core@7.0.0.tgz");
}

#[test]
fn cache_file_names_distinct_for_distinct_versions() {
    let a = cache_file_name("left-pad", "1.3.0");
    let b = cache_file_name("left-pad", "1.2.0");
    assert_ne!(a, b);
}

#[test]
fn fetch_plan_left_pad() {
    let pkg = descriptor(
        "left-pad",
        &[("1.3.0", "https://registry.example/left-pad-1.3.0.tgz")],
    );
    let plan = pkg.fetch_plan("1.3.0").unwrap();
    assert_eq!(plan.file_name, "left-pad@1.3.0.tgz");
    assert_eq!(plan.url, "https://registry.example/left-pad-1.3.0.tgz");
}

#[test]
fn fetch_plan_unknown_version() {
    let pkg = descriptor(
        "left-pad",
        &[("1.3.0", "https://registry.example/left-pad-1.3.0.tgz")],
    );
    let err = pkg.fetch_plan("9.9.9").unwrap_err();
    assert_eq!(err, FetchError::UnknownVersion);
}

#[test]
fn tarball_lookup() {
    let pkg = descriptor(
        "left-pad",
        &[
            ("1.2.0", "https://registry.example/left-pad-1.2.0.tgz"),
            ("1.3.0", "https://registry.example/left-pad-1.3.0.tgz"),
        ],
    );
    assert_eq!(
        pkg.tarball_for("1.2.0"),
        Some(String::from("https://registry.example/left-pad-1.2.0.tgz"))
    );
    assert_eq!(pkg.tarball_for("2.0.0"), None);
}

#[test]
fn basename_of_nested_path() {
    assert_eq!(get_basename("node_modules/left-pad/index.js"), "index.js");
}

#[test]
fn basename_of_bare_name() {
    assert_eq!(get_basename("index.js"), "index.js");
}

#[test]
fn basename_of_trailing_slash() {
    assert_eq!(get_basename("node_modules/left-pad/"), "");
}

#[test]
fn arguments_split_into_flags_and_packages() {
    let args: Vec<String> = ["volt", "add", "left-pad", "--verbose", "-np", "express"]
        .iter()
        .map(|s| String::from(*s))
        .collect();
    let (flags, packages) = get_arguments(&args);
    assert_eq!(flags, vec![String::from("--verbose"), String::from("-np")]);
    assert_eq!(packages, vec![String::from("left-pad"), String::from("express")]);
}

#[test]
fn arguments_short_command_line() {
    let args: Vec<String> = vec![String::from("volt")];
    let (flags, packages) = get_arguments(&args);
    assert!(flags.is_empty());
    assert!(packages.is_empty());
}

#[test]
fn ansi_support_is_on() {
    assert!(enable_ansi_support().is_ok());
}

#[test]
fn app_paths_derived() {
    let app = App::new(String::from("/work/project"), String::from("/home/dev"));
    assert_eq!(app.node_modules_dir, "/work/project/node_modules");
    assert_eq!(app.volt_dir, "/home/dev/.volt");
    assert_eq!(app.lock_file_path, "/work/project/volt.lock");
    assert_eq!(app.current_dir, "/work/project");
    assert_eq!(app.home_dir, "/home/dev");
}
