//! The compaction command: strip non-essential files from the dependency
//! tree and pack what is left into one compressed archive.

use vstd::prelude::*;
use vstd::string::StringExecFns;

use crate::archive::pack_tree;
use crate::archive::spec_unpack;
use crate::archive::wf_tree;
use crate::filter::filter_tree;
use crate::filter::spec_filter_tree;
use crate::filter::lemma_filter_entries_from_tree;
use crate::tree::FileEntry;

verus! {

/// The compaction command over the tree model.
pub struct Compress {}

/// The curated ignore-pattern set: base names (matched ignoring case, `*`
/// as a glob) of files and directories that a package does not need at
/// runtime.
pub open spec fn spec_removable_patterns() -> Seq<Seq<char>> {
    seq![
        "readme"@,
        "readme.*"@,
        ".npmignore"@,
        "license"@,
        "license.md"@,
        "licence.md"@,
        "license.markdown"@,
        "licence.markdown"@,
        "license-mit"@,
        "history.md"@,
        "history.markdown"@,
        ".gitattributes"@,
        ".gitmodules"@,
        ".travis.yml"@,
        "binding.gyp"@,
        "contributing*"@,
        "component.json"@,
        "composer.json"@,
        "makefile.*"@,
        "gemfile.*"@,
        "rakefile.*"@,
        ".coveralls.yml"@,
        "example.*"@,
        "changelog"@,
        "changelog.*"@,
        "changes"@,
        ".jshintrc"@,
        "bower.json"@,
        "*appveyor.yml"@,
        "*.log"@,
        "*.tlog"@,
        "*.patch"@,
        "*.sln"@,
        "*.pdb"@,
        "*.vcxproj*"@,
        ".gitignore"@,
        ".sauce-labs*"@,
        ".vimrc*"@,
        ".idea"@,
        "examples"@,
        "samples"@,
        "test"@,
        "tests"@,
        "draft-00"@,
        "draft-01"@,
        "draft-02"@,
        "draft-03"@,
        "draft-04"@,
        ".eslintrc"@,
        ".eslintrc.*"@,
        ".jamignore"@,
        ".jscsrc"@,
        "*.todo"@,
        "*.md"@,
        "*.markdown"@,
        "*.js.map"@,
        "contributors"@,
        "*.orig"@,
        "*.rej"@,
        ".zuul.yml"@,
        ".editorconfig"@,
        ".npmrc"@,
        ".jshintignore"@,
        ".eslintignore"@,
        ".lint"@,
        ".lintignore"@,
        "cakefile"@,
        ".istanbul.yml"@,
        "authors"@,
        "hyper-schema"@,
        "mocha.opts"@,
        ".gradle"@,
        ".tern-port"@,
        ".gitkeep"@,
        ".dntrc"@,
        "*.watchr"@,
        ".jsbeautifyrc"@,
        "cname"@,
        "screenshots"@,
        ".dir-locals.el"@,
        "jsl.conf"@,
        "jsstyle"@,
        "benchmark"@,
        "dockerfile"@,
        "*.nuspec"@,
        "*.csproj"@,
        "thumbs.db"@,
        ".ds_store"@,
        "desktop.ini"@,
        "yarn-error.log"@,
        "npm-debug.log"@,
        "wercker.yml"@,
        ".flowconfig"@,
    ]
}

impl Compress {
    /// The curated ignore-pattern set, as pattern strings.
    pub fn removable_patterns() -> (r: Vec<String>)
        ensures
            r.deep_view() == spec_removable_patterns(),
    {
        let mut v: Vec<String> = Vec::new();
        v.push(String::from_str("readme"));
        v.push(String::from_str("readme.*"));
        v.push(String::from_str(".npmignore"));
        v.push(String::from_str("license"));
        v.push(String::from_str("license.md"));
        v.push(String::from_str("licence.md"));
        v.push(String::from_str("license.markdown"));
        v.push(String::from_str("licence.markdown"));
        v.push(String::from_str("license-mit"));
        v.push(String::from_str("history.md"));
        v.push(String::from_str("history.markdown"));
        v.push(String::from_str(".gitattributes"));
        v.push(String::from_str(".gitmodules"));
        v.push(String::from_str(".travis.yml"));
        v.push(String::from_str("binding.gyp"));
        v.push(String::from_str("contributing*"));
        v.push(String::from_str("component.json"));
        v.push(String::from_str("composer.json"));
        v.push(String::from_str("makefile.*"));
        v.push(String::from_str("gemfile.*"));
        v.push(String::from_str("rakefile.*"));
        v.push(String::from_str(".coveralls.yml"));
        v.push(String::from_str("example.*"));
        v.push(String::from_str("changelog"));
        v.push(String::from_str("changelog.*"));
        v.push(String::from_str("changes"));
        v.push(String::from_str(".jshintrc"));
        v.push(String::from_str("bower.json"));
        v.push(String::from_str("*appveyor.yml"));
        v.push(String::from_str("*.log"));
        v.push(String::from_str("*.tlog"));
        v.push(String::from_str("*.patch"));
        v.push(String::from_str("*.sln"));
        v.push(String::from_str("*.pdb"));
        v.push(String::from_str("*.vcxproj*"));
        v.push(String::from_str(".gitignore"));
        v.push(String::from_str(".sauce-labs*"));
        v.push(String::from_str(".vimrc*"));
        v.push(String::from_str(".idea"));
        v.push(String::from_str("examples"));
        v.push(String::from_str("samples"));
        v.push(String::from_str("test"));
        v.push(String::from_str("tests"));
        v.push(String::from_str("draft-00"));
        v.push(String::from_str("draft-01"));
        v.push(String::from_str("draft-02"));
        v.push(String::from_str("draft-03"));
        v.push(String::from_str("draft-04"));
        v.push(String::from_str(".eslintrc"));
        v.push(String::from_str(".eslintrc.*"));
        v.push(String::from_str(".jamignore"));
        v.push(String::from_str(".jscsrc"));
        v.push(String::from_str("*.todo"));
        v.push(String::from_str("*.md"));
        v.push(String::from_str("*.markdown"));
        v.push(String::from_str("*.js.map"));
        v.push(String::from_str("contributors"));
        v.push(String::from_str("*.orig"));
        v.push(String::from_str("*.rej"));
        v.push(String::from_str(".zuul.yml"));
        v.push(String::from_str(".editorconfig"));
        v.push(String::from_str(".npmrc"));
        v.push(String::from_str(".jshintignore"));
        v.push(String::from_str(".eslintignore"));
        v.push(String::from_str(".lint"));
        v.push(String::from_str(".lintignore"));
        v.push(String::from_str("cakefile"));
        v.push(String::from_str(".istanbul.yml"));
        v.push(String::from_str("authors"));
        v.push(String::from_str("hyper-schema"));
        v.push(String::from_str("mocha.opts"));
        v.push(String::from_str(".gradle"));
        v.push(String::from_str(".tern-port"));
        v.push(String::from_str(".gitkeep"));
        v.push(String::from_str(".dntrc"));
        v.push(String::from_str("*.watchr"));
        v.push(String::from_str(".jsbeautifyrc"));
        v.push(String::from_str("cname"));
        v.push(String::from_str("screenshots"));
        v.push(String::from_str(".dir-locals.el"));
        v.push(String::from_str("jsl.conf"));
        v.push(String::from_str("jsstyle"));
        v.push(String::from_str("benchmark"));
        v.push(String::from_str("dockerfile"));
        v.push(String::from_str("*.nuspec"));
        v.push(String::from_str("*.csproj"));
        v.push(String::from_str("thumbs.db"));
        v.push(String::from_str(".ds_store"));
        v.push(String::from_str("desktop.ini"));
        v.push(String::from_str("yarn-error.log"));
        v.push(String::from_str("npm-debug.log"));
        v.push(String::from_str("wercker.yml"));
        v.push(String::from_str(".flowconfig"));
        proof {
            assert(v.deep_view() =~= spec_removable_patterns());
        }
        v
    }

    /// The whole compaction step over the tree model: filter out the
    /// entries matched by `patterns`, then pack what is left.  It cannot
    /// fail, and the archive unpacks to exactly the filtered tree.
    pub fn compact(tree: &Vec<FileEntry>, patterns: &Vec<String>) -> (r: Vec<u8>)
        requires
            wf_tree(tree.deep_view()),
        ensures
            spec_unpack(r@) == Some(spec_filter_tree(tree.deep_view(), patterns.deep_view())),
    {
        let kept = filter_tree(tree, patterns);
        proof {
            assert forall|k: int| 0 <= k < kept.deep_view().len() implies crate::archive::wf_path(
                (#[trigger] kept.deep_view()[k]).0,
            ) by {
                lemma_filter_entries_from_tree(tree.deep_view(), patterns.deep_view(), k);
                let e = kept.deep_view()[k];
                let j = choose|j: int|
                    0 <= j < tree.deep_view().len() && tree.deep_view()[j] == e;
            }
        }
        pack_tree(&kept)
    }
}

} // verus!
