//! The package descriptor: the minimal registry record needed to locate a
//! package version's tarball, and the fetch step's planning logic.

use vstd::prelude::*;

use crate::cache::cache_file_name;
use crate::cache::spec_cache_file_name;
use crate::strings::str_eq;

verus! {

/// Distribution info of one published version.
pub struct Dist {
    pub tarball: String,
}

/// One published version of a package and its distribution info.
pub struct VersionEntry {
    pub version: String,
    pub dist: Dist,
}

impl View for VersionEntry {
    type V = (Seq<char>, Seq<char>);

    open spec fn view(&self) -> Self::V {
        (self.version@, self.dist.tarball@)
    }
}

impl DeepView for VersionEntry {
    type V = (Seq<char>, Seq<char>);

    open spec fn deep_view(&self) -> Self::V {
        self.view()
    }
}

/// The registry descriptor of one package: its name and its published
/// versions.
pub struct Package {
    pub name: String,
    pub versions: Vec<VersionEntry>,
}

/// The tarball URL recorded for `version`, if that version is present
/// (first match wins).
pub open spec fn spec_lookup(versions: Seq<(Seq<char>, Seq<char>)>, version: Seq<char>) -> Option<
    Seq<char>,
>
    decreases versions.len(),
{
    if versions.len() == 0 {
        None
    } else if versions[0].0 == version {
        Some(versions[0].1)
    } else {
        spec_lookup(versions.skip(1), version)
    }
}

/// Everything the fetch step must compute before any byte moves: the URL
/// to download and the cache file to write.
#[derive(Debug)]
pub struct FetchPlan {
    pub url: String,
    pub file_name: String,
}

/// Why a fetch cannot even be planned.
#[derive(Clone, Copy, PartialEq, Eq, Structural, Debug)]
pub enum FetchError {
    /// The requested version is not among the descriptor's versions.
    UnknownVersion,
}

impl Package {
    /// The tarball URL recorded for `version`.
    pub fn tarball_for(&self, version: &str) -> (r: Option<String>)
        ensures
            match r {
                Some(u) => spec_lookup(self.versions.deep_view(), version@) == Some(u@),
                None => spec_lookup(self.versions.deep_view(), version@) is None,
            },
    {
        let mut i: usize = 0;
        proof {
            assert(self.versions.deep_view().skip(0) =~= self.versions.deep_view());
        }
        while i < self.versions.len()
            invariant
                i <= self.versions.len(),
                spec_lookup(self.versions.deep_view(), version@) == spec_lookup(
                    self.versions.deep_view().skip(i as int),
                    version@,
                ),
            decreases self.versions.len() - i,
        {
            proof {
                let vs = self.versions.deep_view();
                assert(vs.skip(i as int)[0] == vs[i as int]);
                assert(vs.skip(i as int).skip(1) =~= vs.skip(i + 1));
                assert(vs[i as int] == self.versions@[i as int].deep_view());
            }
            let e = &self.versions[i];
            if str_eq(e.version.as_str(), version) {
                return Some(e.dist.tarball.clone());
            }
            i = i + 1;
        }
        proof {
            assert(self.versions.deep_view().skip(self.versions@.len() as int) =~= Seq::<
                (Seq<char>, Seq<char>),
            >::empty());
        }
        None
    }

    /// Plans the fetch of `version`: the published URL, kept on whatever
    /// scheme the registry gave, and the deterministic cache file name.
    /// It fails exactly when the version is not in the descriptor.
    pub fn fetch_plan(&self, version: &str) -> (r: Result<FetchPlan, FetchError>)
        ensures
            r is Ok <==> spec_lookup(self.versions.deep_view(), version@) is Some,
            r matches Ok(p) ==> Some(p.url@) == spec_lookup(self.versions.deep_view(), version@),
            r matches Ok(p) ==> p.file_name@ == spec_cache_file_name(self.name@, version@),
            r matches Err(e) ==> e == FetchError::UnknownVersion,
    {
        match self.tarball_for(version) {
            Some(url) => Ok(
                FetchPlan { url, file_name: cache_file_name(self.name.as_str(), version) },
            ),
            None => Err(FetchError::UnknownVersion),
        }
    }
}

} // verus!
