//! Process-level helpers: the per-run path context, argument splitting,
//! and base-name extraction.

use vstd::prelude::*;
use vstd::string::StringExecFns;

use crate::spec_is_flag;
use crate::is_flag;
use crate::strings::chars_to_string;
use crate::strings::str_chars;

verus! {

/// The per-run path context: where the dependency tree, the cache and the
/// lock file live.  The directories themselves are discovered by the
/// caller; this type only derives the dependent paths.
pub struct App {
    pub current_dir: String,
    pub home_dir: String,
    pub node_modules_dir: String,
    pub volt_dir: String,
    pub lock_file_path: String,
}

impl App {
    /// Derives the per-run paths from the current and home directories.
    pub fn new(current_dir: String, home_dir: String) -> (r: App)
        ensures
            r.current_dir@ == current_dir@,
            r.home_dir@ == home_dir@,
            r.node_modules_dir@ == current_dir@ + "/node_modules"@,
            r.volt_dir@ == home_dir@ + "/.volt"@,
            r.lock_file_path@ == current_dir@ + "/volt.lock"@,
    {
        let mut node_modules_dir = current_dir.clone();
        node_modules_dir.append("/node_modules");
        let mut volt_dir = home_dir.clone();
        volt_dir.append("/.volt");
        let mut lock_file_path = current_dir.clone();
        lock_file_path.append("/volt.lock");
        App { current_dir, home_dir, node_modules_dir, volt_dir, lock_file_path }
    }
}

/// The flag arguments among `args`, in order, skipping the program name and
/// the command word.
pub open spec fn spec_flags(args: Seq<Seq<char>>) -> Seq<Seq<char>>
    decreases args.len(),
{
    if args.len() == 0 {
        Seq::<Seq<char>>::empty()
    } else {
        let rest = spec_flags(args.drop_last());
        if spec_is_flag(args.last()) {
            rest.push(args.last())
        } else {
            rest
        }
    }
}

/// The package arguments among `args`, in order.
pub open spec fn spec_packages(args: Seq<Seq<char>>) -> Seq<Seq<char>>
    decreases args.len(),
{
    if args.len() == 0 {
        Seq::<Seq<char>>::empty()
    } else {
        let rest = spec_packages(args.drop_last());
        if spec_is_flag(args.last()) {
            rest
        } else {
            rest.push(args.last())
        }
    }
}

/// The arguments after the program name and the command word.
pub open spec fn spec_arg_tail(args: Seq<Seq<char>>) -> Seq<Seq<char>> {
    if args.len() < 2 {
        Seq::<Seq<char>>::empty()
    } else {
        args.skip(2)
    }
}

/// Splits the command line into flags (starting with `-`) and package
/// arguments, keeping each group's order; the program name and the command
/// word are skipped.
pub fn get_arguments(args: &Vec<String>) -> (r: (Vec<String>, Vec<String>))
    ensures
        r.0.deep_view() == spec_flags(spec_arg_tail(args.deep_view())),
        r.1.deep_view() == spec_packages(spec_arg_tail(args.deep_view())),
{
    let mut flags: Vec<String> = Vec::new();
    let mut packages: Vec<String> = Vec::new();
    let mut i: usize = 2;
    if args.len() < 2 {
        return (flags, packages);
    }
    while i < args.len()
        invariant
            2 <= i,
            args@.len() >= 2,
            i <= args@.len() || i == 2,
            flags.deep_view() == spec_flags(args.deep_view().subrange(2, i as int)),
            packages.deep_view() == spec_packages(args.deep_view().subrange(2, i as int)),
        decreases args.len() - i,
    {
        proof {
            let a = args.deep_view();
            assert(a.subrange(2, i + 1).drop_last() =~= a.subrange(2, i as int));
            assert(a.subrange(2, i + 1).last() == a[i as int]);
            assert(args.deep_view()[i as int] == args@[i as int]@);
        }
        if is_flag(&args[i]) {
            flags.push(args[i].clone());
            proof {
                assert(flags.deep_view() =~= spec_flags(
                    args.deep_view().subrange(2, i + 1),
                ));
            }
        } else {
            packages.push(args[i].clone());
            proof {
                assert(packages.deep_view() =~= spec_packages(
                    args.deep_view().subrange(2, i + 1),
                ));
            }
        }
        i = i + 1;
    }
    proof {
        assert(args.deep_view().subrange(2, args@.len() as int) =~= spec_arg_tail(
            args.deep_view(),
        ));
    }
    (flags, packages)
}

/// The suffix of `s` after its last `/`; `s` itself when it has none.
pub open spec fn spec_basename(s: Seq<char>) -> Seq<char>
    decreases s.len(),
{
    if s.len() == 0 {
        Seq::<char>::empty()
    } else if s.last() == '/' {
        Seq::<char>::empty()
    } else {
        spec_basename(s.drop_last()).push(s.last())
    }
}

/// The base name of a `/`-separated path: everything after the last
/// separator, or the whole path when it has none.
pub fn get_basename(path: &str) -> (r: String)
    ensures
        r@ == spec_basename(path@),
{
    let cs = str_chars(path);
    let n = cs.len();
    let mut cut: usize = 0;
    let mut i: usize = 0;
    while i < n
        invariant
            cs@ == path@,
            n == path@.len(),
            cut <= i <= n,
            cut > 0 ==> path@[cut - 1] == '/',
            forall|j: int| cut <= j < i ==> path@[j] != '/',
        decreases n - i,
    {
        if cs[i] == '/' {
            cut = i + 1;
        }
        i = i + 1;
    }
    let mut out: Vec<char> = Vec::new();
    let mut k: usize = cut;
    while k < n
        invariant
            cs@ == path@,
            n == path@.len(),
            cut <= k <= n,
            out@ == path@.subrange(cut as int, k as int),
        decreases n - k,
    {
        out.push(cs[k]);
        proof {
            assert(path@.subrange(cut as int, k + 1) =~= path@.subrange(cut as int, k as int)
                .push(path@[k as int]));
        }
        k = k + 1;
    }
    proof {
        if cut == 0 {
            lemma_basename_no_sep(path@);
            assert(path@.subrange(0, n as int) =~= path@);
        } else {
            lemma_basename_after_sep(path@, cut as int - 1);
        }
    }
    chars_to_string(&out)
}

/// A path without separators is its own base name.
proof fn lemma_basename_no_sep(s: Seq<char>)
    requires
        forall|j: int| 0 <= j < s.len() ==> s[j] != '/',
    ensures
        spec_basename(s) == s,
    decreases s.len(),
{
    if s.len() > 0 {
        lemma_basename_no_sep(s.drop_last());
        assert(spec_basename(s) =~= s);
    }
}

/// The base name is the suffix after the last separator.
proof fn lemma_basename_after_sep(s: Seq<char>, l: int)
    requires
        0 <= l < s.len(),
        s[l] == '/',
        forall|j: int| l < j < s.len() ==> s[j] != '/',
    ensures
        spec_basename(s) == s.subrange(l + 1, s.len() as int),
    decreases s.len(),
{
    if l == s.len() - 1 {
        assert(s.subrange(l + 1, s.len() as int) =~= Seq::<char>::empty());
    } else {
        lemma_basename_after_sep(s.drop_last(), l);
        assert(s.last() != '/');
        assert(s.drop_last().subrange(l + 1, s.drop_last().len() as int) =~= s.subrange(
            l + 1,
            s.len() - 1,
        ));
        assert(s.subrange(l + 1, s.len() - 1).push(s.last()) =~= s.subrange(
            l + 1,
            s.len() as int,
        ));
    }
}

/// Terminal setup: this build targets platforms whose terminals accept
/// ANSI escape sequences without any console-mode configuration.
pub fn enable_ansi_support() -> (r: Result<(), u32>)
    ensures
        r is Ok,
{
    Ok(())
}

} // verus!
