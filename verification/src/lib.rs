//! Artifact pipeline for a package dependency tree: deterministic cache
//! naming for fetched tarballs, archive extraction with replace semantics,
//! junk-file filtering over the installed tree, and re-packing the
//! filtered tree into a single compressed archive.

pub mod archive;
pub mod cache;
pub mod compress;
pub mod filter;
pub mod package;
pub mod patterns;
pub mod strings;
pub mod tree;
pub mod util;

pub use compress::Compress;
pub use package::Package;
pub use util::App;
pub use util::enable_ansi_support;
pub use util::get_arguments;
pub use util::get_basename;

use vstd::prelude::*;
use vstd::string::StrSliceExecFns;

verus! {

/// A command-line argument is a flag when it starts with `-`.
pub open spec fn spec_is_flag(s: Seq<char>) -> bool {
    s.len() > 0 && s[0] == '-'
}

/// Tells a flag argument (`-v`, `--verbose`) from a package argument.
pub fn is_flag(arg: &String) -> (r: bool)
    ensures
        r == spec_is_flag(arg@),
{
    let s = arg.as_str();
    if s.unicode_len() == 0 {
        false
    } else {
        s.get_char(0) == '-'
    }
}

} // verus!
