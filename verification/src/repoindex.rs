//! Repository indices: which versions of which packages a repository
//! offers, and the choice of the best version for a constraint.

use crate::dependency::Dependency;
use crate::text::str_eq;
use crate::version::lemma_version_lt_transitive;
use crate::version::parse_version;
use crate::version::parse_version_str;
use crate::version::version_lt;
use crate::version::version_str;
use crate::version::VersionView;
use crate::vreq::req_matches;
use crate::vreq::ComparatorView;
use vstd::prelude::*;

verus! {

/// Where a repository lives.
#[derive(Clone, Debug, PartialEq, Eq)]
pub enum Repository {
    Local { path: String },
    Http { index_url: String },
}

/// One package's versions in an index, as stored strings.
#[derive(Clone, Debug, PartialEq, Eq)]
pub struct RepositoryPackageEntry {
    pub name: String,
    pub versions: Vec<String>,
}

/// An index: a repository's name, its URL, and its packages.
#[derive(Clone, Debug, PartialEq, Eq)]
pub struct RepositoryIndex {
    pub name: String,
    pub url: String,
    pub packages: Vec<RepositoryPackageEntry>,
}

/// The version at `k`, where it parses; the zero version elsewhere.
pub open spec fn parsed_of(vs: Seq<String>, k: int) -> VersionView {
    match parse_version(vs[k]@) {
        Some(v) => v,
        None => VersionView {
            major: 0,
            minor: 0,
            patch: 0,
            pre: Seq::<char>::empty(),
            build: Seq::<char>::empty(),
        },
    }
}

/// Whether the entry at `k` parses and satisfies the requirement.
pub open spec fn parsed_match(vs: Seq<String>, req: Seq<ComparatorView>, k: int) -> bool {
    0 <= k < vs.len() && parse_version(vs[k]@) is Some && req_matches(req, parsed_of(vs, k))
}

/// Whether position `k` holds a satisfying version that no other
/// satisfying entry exceeds.
pub open spec fn best_match_at(vs: Seq<String>, req: Seq<ComparatorView>, k: int) -> bool {
    parsed_match(vs, req, k) && (forall|k2: int|
        #[trigger] parsed_match(vs, req, k2) ==> !version_lt(parsed_of(vs, k), parsed_of(vs, k2)))
}

impl RepositoryIndex {
    /// The version list of the first entry with this name.
    pub fn get_versions(&self, pkg: &str) -> (r: Option<&Vec<String>>)
        ensures
            match r {
                Some(v) => exists|j: int|
                    0 <= j < self.packages@.len() && (#[trigger] self.packages@[j]).name@ == pkg@
                        && v == &self.packages@[j].versions && (forall|j2: int|
                        0 <= j2 < j ==> (#[trigger] self.packages@[j2]).name@ != pkg@),
                None => forall|j: int|
                    0 <= j < self.packages@.len() ==> (#[trigger] self.packages@[j]).name@ != pkg@,
            },
    {
        let n = self.packages.len();
        let mut j: usize = 0;
        while j < n
            invariant
                0 <= j <= n,
                n == self.packages@.len(),
                forall|x: int| 0 <= x < j ==> (#[trigger] self.packages@[x]).name@ != pkg@,
            decreases n - j,
        {
            if str_eq(self.packages[j].name.as_str(), pkg) {
                return Some(&self.packages[j].versions);
            }
            j = j + 1;
        }
        None
    }

    /// The highest version of the dependency's package that satisfies its
    /// constraint, written canonically; nothing when the package is absent
    /// or no listed version satisfies it.
    pub fn latest_satisfying(&self, dep: &Dependency) -> (r: Option<String>)
        ensures
            match r {
                Some(s) => exists|j: int|
                    0 <= j < self.packages@.len() && (#[trigger] self.packages@[j]).name@
                        == dep.name@ && (exists|k: int|
                        best_match_at(
                            self.packages@[j].versions@,
                            dep.constraint.requirement@,
                            k,
                        ) && s@ == version_str(parsed_of(self.packages@[j].versions@, k))),
                None => forall|j: int|
                    (0 <= j < self.packages@.len() && (#[trigger] self.packages@[j]).name@
                        == dep.name@ && (forall|j2: int|
                        0 <= j2 < j ==> (#[trigger] self.packages@[j2]).name@ != dep.name@)) ==> (
                    forall|k: int|
                        !(#[trigger] parsed_match(
                            self.packages@[j].versions@,
                            dep.constraint.requirement@,
                            k,
                        ))),
            },
    {
        let n = self.packages.len();
        let mut j: usize = 0;
        while j < n
            invariant
                0 <= j <= n,
                n == self.packages@.len(),
                forall|x: int| 0 <= x < j ==> (#[trigger] self.packages@[x]).name@ != dep.name@,
            decreases n - j,
        {
            if str_eq(self.packages[j].name.as_str(), dep.name.as_str()) {
                let vlist = &self.packages[j].versions;
                let r = best_of_versions(vlist, dep);
                proof {
                    assert((self.packages@[j as int]).name@ == dep.name@);
                    if r is None {
                        assert(forall|k: int|
                            !(#[trigger] parsed_match(
                                self.packages@[j as int].versions@,
                                dep.constraint.requirement@,
                                k,
                            )));
                    }
                }
                match r {
                    Some(s) => {
                        proof {
                            assert(vlist@ == self.packages@[j as int].versions@);
                            assert((#[trigger] self.packages@[j as int]).name@ == dep.name@);
                            assert(exists|k: int|
                                best_match_at(
                                    self.packages@[j as int].versions@,
                                    dep.constraint.requirement@,
                                    k,
                                ) && s@ == version_str(
                                    parsed_of(self.packages@[j as int].versions@, k),
                                ));
                        }
                        return Some(s);
                    },
                    None => {
                        proof {
                            assert forall|jx: int|
                                (0 <= jx < self.packages@.len() && (
                                #[trigger] self.packages@[jx]).name@ == dep.name@ && (forall|
                                    j2: int,
                                |
                                    0 <= j2 < jx ==> (#[trigger] self.packages@[j2]).name@
                                        != dep.name@)) implies (forall|k: int|
                                !(#[trigger] parsed_match(
                                    self.packages@[jx].versions@,
                                    dep.constraint.requirement@,
                                    k,
                                ))) by {
                                if jx < j {
                                    assert((self.packages@[jx]).name@ != dep.name@);
                                } else if jx > j {
                                    assert((self.packages@[j as int]).name@ == dep.name@);
                                } else {
                                    assert(forall|k: int|
                                        !(#[trigger] parsed_match(
                                            self.packages@[j as int].versions@,
                                            dep.constraint.requirement@,
                                            k,
                                        )));
                                }
                            }
                        }
                        return None;
                    },
                }
            }
            j = j + 1;
        }
        None
    }
}

/// The best satisfying version among the listed strings, canonically
/// written.
fn best_of_versions(vs: &Vec<String>, dep: &Dependency) -> (r: Option<String>)
    ensures
        match r {
            Some(s) => exists|k: int|
                best_match_at(vs@, dep.constraint.requirement@, k) && s@ == version_str(
                    parsed_of(vs@, k),
                ),
            None => forall|k: int|
                !(#[trigger] parsed_match(vs@, dep.constraint.requirement@, k)),
        },
{
    let n = vs.len();
    let mut best: Option<(usize, crate::version::Version)> = None;
    let mut k: usize = 0;
    while k < n
        invariant
            0 <= k <= n,
            n == vs@.len(),
            match best {
                Some(b) => 0 <= b.0 < k && parsed_match(vs@, dep.constraint.requirement@, b.0 as int)
                    && b.1@ == parsed_of(vs@, b.0 as int) && (forall|k2: int|
                    0 <= k2 < k && #[trigger] parsed_match(vs@, dep.constraint.requirement@, k2)
                        ==> !version_lt(b.1@, parsed_of(vs@, k2))),
                None => forall|k2: int|
                    0 <= k2 < k ==> !(#[trigger] parsed_match(vs@, dep.constraint.requirement@, k2)),
            },
        decreases n - k,
    {
        match parse_version_str(vs[k].as_str()) {
            Some(v) => {
                if dep.matches_version(&v) {
                    proof {
                        assert(parsed_of(vs@, k as int) == v@);
                        assert(parsed_match(vs@, dep.constraint.requirement@, k as int));
                    }
                    match &best {
                        None => {
                            proof {
                                crate::version::lemma_version_lt_asymmetric(v@, v@);
                            }
                            best = Some((k, v));
                        },
                        Some(b) => {
                            if b.1.lt(&v) {
                                let ghost old_best = b.1@;
                                proof {
                                    assert forall|k2: int|
                                        0 <= k2 < k + 1 && #[trigger] parsed_match(
                                            vs@,
                                            dep.constraint.requirement@,
                                            k2,
                                        ) implies !version_lt(v@, parsed_of(vs@, k2)) by {
                                        if k2 < k {
                                            if version_lt(v@, parsed_of(vs@, k2)) {
                                                lemma_version_lt_transitive(
                                                    old_best,
                                                    v@,
                                                    parsed_of(vs@, k2),
                                                );
                                            }
                                        } else {
                                            crate::version::lemma_version_lt_asymmetric(
                                                v@,
                                                parsed_of(vs@, k2),
                                            );
                                        }
                                    }
                                }
                                best = Some((k, v));
                            } else {
                                proof {
                                    assert(!version_lt(b.1@, v@));
                                    assert(!version_lt(b.1@, parsed_of(vs@, k as int)));
                                }
                            }
                        },
                    }
                } else {
                    proof {
                        assert(!parsed_match(vs@, dep.constraint.requirement@, k as int));
                    }
                }
            },
            None => {
                proof {
                    assert(!parsed_match(vs@, dep.constraint.requirement@, k as int));
                }
            },
        }
        k = k + 1;
    }
    match best {
        Some(b) => {
            proof {
                assert(best_match_at(vs@, dep.constraint.requirement@, b.0 as int));
            }
            Some(b.1.to_string())
        },
        None => None,
    }
}

} // verus!
