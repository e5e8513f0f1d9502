//! Dependencies: a name, a version constraint, and a kind, plus the
//! `name@req` text form used by package metadata.

use crate::errors::UhpmError;
use crate::text::find_idx;
use crate::text::lemma_find_idx_is;
use crate::text::lemma_find_idx_none;
use crate::text::str_to_string;
use crate::text::trim;
use crate::text::trim_of;
use crate::text::view_opt;
use crate::version::Version;
use crate::vreq::parse_req;
use crate::vreq::req_matches;
use crate::vreq::ComparatorView;
use crate::vreq::VersionReq;
use vstd::prelude::*;

verus! {

/// Why a dependency is wanted.
#[derive(Clone, Copy, Debug, PartialEq, Eq, Hash, Structural)]
pub enum DependencyKind {
    Required,
    Optional,
    Build,
    Dev,
}

/// The ledger token of a dependency kind.
pub open spec fn dependency_kind_str(k: DependencyKind) -> Seq<char> {
    match k {
        DependencyKind::Required => "required"@,
        DependencyKind::Optional => "optional"@,
        DependencyKind::Build => "build"@,
        DependencyKind::Dev => "dev"@,
    }
}

/// Writes a dependency kind as its ledger token.
pub fn dependency_kind_to_string(k: &DependencyKind) -> (r: String)
    ensures
        r@ == dependency_kind_str(*k),
{
    match k {
        DependencyKind::Required => str_to_string("required"),
        DependencyKind::Optional => str_to_string("optional"),
        DependencyKind::Build => str_to_string("build"),
        DependencyKind::Dev => str_to_string("dev"),
    }
}

/// Reads a dependency kind from its ledger token; an unknown token is
/// `Required`.
pub fn string_to_dependency_kind(s: &str) -> (r: DependencyKind)
    ensures
        s@ == "optional"@ ==> r == DependencyKind::Optional,
        s@ == "build"@ ==> r == DependencyKind::Build,
        s@ == "dev"@ ==> r == DependencyKind::Dev,
        s@ != "optional"@ && s@ != "build"@ && s@ != "dev"@ ==> r == DependencyKind::Required,
{
    proof {
        reveal_strlit("optional");
        reveal_strlit("build");
        reveal_strlit("dev");
        assert("optional"@.len() == 8 && "build"@.len() == 5 && "dev"@.len() == 3);
    }
    if crate::text::str_eq(s, "optional") {
        DependencyKind::Optional
    } else if crate::text::str_eq(s, "build") {
        DependencyKind::Build
    } else if crate::text::str_eq(s, "dev") {
        DependencyKind::Dev
    } else {
        DependencyKind::Required
    }
}

/// A version requirement, as a constraint on a dependency.
#[derive(Clone, Debug, PartialEq, Eq)]
pub struct VersionConstraint {
    pub requirement: VersionReq,
}

/// A dependency of a package.
#[derive(Clone, Debug, PartialEq, Eq)]
pub struct Dependency {
    pub name: String,
    pub constraint: VersionConstraint,
    pub kind: DependencyKind,
    pub provides: Option<String>,
    pub features: Vec<String>,
}

impl Dependency {
    /// Whether the version satisfies this dependency's constraint.
    pub fn matches_version(&self, version: &Version) -> (r: bool)
        ensures
            r == req_matches(self.constraint.requirement@, version@),
    {
        self.constraint.requirement.matches(version)
    }

    /// A field-by-field copy.
    pub fn duplicate(&self) -> (r: Dependency)
        ensures
            r.name@ == self.name@,
            r.constraint.requirement@ == self.constraint.requirement@,
            r.constraint.requirement.spec_text() == self.constraint.requirement.spec_text(),
            r.kind == self.kind,
            view_opt(r.provides) == view_opt(self.provides),
            r.features@.map_values(|f: String| f@) == self.features@.map_values(|f: String| f@),
    {
        let mut features: Vec<String> = Vec::new();
        let n = self.features.len();
        let mut i: usize = 0;
        while i < n
            invariant
                0 <= i <= n,
                n == self.features@.len(),
                features@.map_values(|f: String| f@) == self.features@.subrange(
                    0,
                    i as int,
                ).map_values(|f: String| f@),
            decreases n - i,
        {
            let ghost pre = features@;
            let copied = str_to_string(self.features[i].as_str());
            features.push(copied);
            proof {
                crate::text::lemma_map_view_push(pre, self.features@, copied, i as int);
            }
            i = i + 1;
        }
        proof {
            assert(self.features@.subrange(0, n as int) =~= self.features@);
        }
        Dependency {
            name: str_to_string(self.name.as_str()),
            constraint: VersionConstraint { requirement: self.constraint.requirement.duplicate() },
            kind: self.kind,
            provides: match &self.provides {
                Some(p) => Some(str_to_string(p.as_str())),
                None => None,
            },
            features,
        }
    }
}

/// What a metadata dependency line means: `name@req`, or a bare name that
/// accepts any release. The name is trimmed; an unreadable requirement is
/// nothing.
pub open spec fn parse_dep_line(s: Seq<char>) -> Option<(Seq<char>, Seq<ComparatorView>)> {
    let i = find_idx(s, '@');
    if i >= 0 {
        match parse_req(s.subrange(i + 1, s.len() as int)) {
            Some(req) => Some((trim_of(s.subrange(0, i)), req)),
            None => None,
        }
    } else {
        Some((trim_of(s), Seq::<ComparatorView>::empty()))
    }
}

/// Reads a metadata dependency line as a required dependency.
pub fn parse_dependency(dep_str: &str) -> (r: Result<Dependency, UhpmError>)
    ensures
        match r {
            Ok(d) => parse_dep_line(dep_str@) matches Some(nr) && nr.0 == d.name@ && nr.1
                == d.constraint.requirement@ && d.kind == DependencyKind::Required && d.provides
                 is None && d.features@.len() == 0,
            Err(e) => parse_dep_line(dep_str@) is None && e matches UhpmError::ValidationError(_),
        },
{
    let n = dep_str.unicode_len();
    match crate::text::find_char(dep_str, '@') {
        Some(i) => {
            proof {
                lemma_find_idx_is(dep_str@, '@', i as int);
            }
            let name_part = dep_str.substring_char(0, i);
            let req_part = dep_str.substring_char(i + 1, n);
            proof {
                assert(name_part@ =~= dep_str@.subrange(0, i as int));
                assert(req_part@ =~= dep_str@.subrange(i + 1, dep_str@.len() as int));
            }
            match VersionReq::parse(req_part) {
                Some(req) => Ok(
                    Dependency {
                        name: trim(name_part),
                        constraint: VersionConstraint { requirement: req },
                        kind: DependencyKind::Required,
                        provides: None,
                        features: Vec::new(),
                    },
                ),
                None => Err(UhpmError::validation("invalid version constraint")),
            }
        },
        None => {
            proof {
                lemma_find_idx_none(dep_str@, '@');
            }
            let d = Dependency {
                name: trim(dep_str),
                constraint: VersionConstraint { requirement: VersionReq::any() },
                kind: DependencyKind::Required,
                provides: None,
                features: Vec::new(),
            };
            proof {
                assert(d.constraint.requirement@ =~= Seq::<ComparatorView>::empty());
            }
            Ok(d)
        },
    }
}

/// The comma-joined form of a feature list; a single feature stands
/// alone, and an empty list is the empty string.
pub open spec fn features_joined(fs: Seq<Seq<char>>) -> Seq<char>
    decreases fs.len(),
{
    if fs.len() == 0 {
        Seq::<char>::empty()
    } else if fs.len() == 1 {
        fs[0]
    } else {
        features_joined(fs.drop_last()) + seq![','] + fs.last()
    }
}

/// Writes a feature list as the ledger's comma-joined column.
pub fn join_features(features: &Vec<String>) -> (r: String)
    ensures
        r@ == features_joined(features@.map_values(|f: String| f@)),
{
    let mut r = String::new();
    let n = features.len();
    let mut i: usize = 0;
    proof {
        assert(features@.subrange(0, 0).map_values(|f: String| f@)
            =~= Seq::<Seq<char>>::empty());
        assert(r@ =~= Seq::<char>::empty());
    }
    while i < n
        invariant
            0 <= i <= n,
            n == features@.len(),
            r@ == features_joined(features@.subrange(0, i as int).map_values(|f: String| f@)),
        decreases n - i,
    {
        if i > 0 {
            crate::text::push_char(&mut r, ',');
        }
        r.append(features[i].as_str());
        proof {
            let pre = features@.subrange(0, i as int).map_values(|f: String| f@);
            let now = features@.subrange(0, i + 1).map_values(|f: String| f@);
            assert(now =~= pre.push(features@[i as int]@));
            assert(now.drop_last() =~= pre);
            if i == 0 {
                assert(now.len() == 1);
                assert(features_joined(now) == now[0]);
                assert(r@ =~= features@[0]@);
            } else {
                assert(features_joined(now) == features_joined(pre) + seq![','] + now.last());
                assert(r@ =~= features_joined(pre) + seq![','] + features@[i as int]@);
            }
        }
        i = i + 1;
    }
    proof {
        assert(features@.subrange(0, n as int) =~= features@);
    }
    r
}

/// Reads the ledger's comma-joined features column back into the list.
pub fn split_features(s: &str) -> (r: Vec<String>)
    ensures
        r@.map_values(|f: String| f@) == crate::text::split_on(s@, ','),
{
    crate::text::split_string(s, ',')
}

} // verus!
