//! The package entity: immutable metadata plus the installed/active flags
//! the ledger projects onto it.

use crate::checksum::Checksum;
use crate::dependency::Dependency;
use crate::errors::UhpmError;
use crate::reference::PackageId;
use crate::reference::PackageReference;
use crate::target::Target;
use crate::text::is_prefix;
use crate::text::starts_with;
use crate::text::str_to_string;
use crate::text::trim;
use crate::text::trim_of;
use crate::version::Version;
use vstd::prelude::*;

verus! {

/// Where a package comes from.
#[derive(Clone, Debug, PartialEq, Eq)]
pub enum PackageSource {
    Git { url: String, release: Option<String> },
    Http { url: String },
    Local { path: String },
}

/// A source the factory accepts: a nonempty URL of a known shape, or a
/// nonempty local path.
pub open spec fn source_valid(s: PackageSource) -> bool {
    match s {
        PackageSource::Git { url, release: _ } => trim_of(url@).len() > 0 && (is_prefix(
            url@,
            "http://"@,
        ) || is_prefix(url@, "https://"@) || is_prefix(url@, "git@"@)),
        PackageSource::Http { url } => trim_of(url@).len() > 0 && (is_prefix(url@, "http://"@)
            || is_prefix(url@, "https://"@)),
        PackageSource::Local { path } => path@.len() > 0,
    }
}

/// Rejects an empty or ill-shaped source.
pub fn validate_source(source: &PackageSource) -> (r: Result<(), UhpmError>)
    ensures
        r is Ok <==> source_valid(*source),
        r is Err ==> r matches Err(UhpmError::ValidationError(_)),
{
    match source {
        PackageSource::Git { url, release: _ } => {
            let t = trim(url.as_str());
            if t.as_str().unicode_len() == 0 {
                return Err(UhpmError::validation("git URL cannot be empty"));
            }
            if !(starts_with(url.as_str(), "http://") || starts_with(url.as_str(), "https://")
                || starts_with(url.as_str(), "git@")) {
                return Err(UhpmError::validation("git URL must be http, https, or git@ form"));
            }
            Ok(())
        },
        PackageSource::Http { url } => {
            let t = trim(url.as_str());
            if t.as_str().unicode_len() == 0 {
                return Err(UhpmError::validation("HTTP URL cannot be empty"));
            }
            if !(starts_with(url.as_str(), "http://") || starts_with(url.as_str(), "https://")) {
                return Err(
                    UhpmError::validation("HTTP URL must start with http:// or https://"),
                );
            }
            Ok(())
        },
        PackageSource::Local { path } => {
            if path.as_str().unicode_len() == 0 {
                return Err(UhpmError::validation("local path cannot be empty"));
            }
            Ok(())
        },
    }
}

/// Writes a source as the ledger's type and path strings.
pub fn source_to_strings(source: &PackageSource) -> (r: (String, Option<String>))
    ensures
        source matches PackageSource::Git { url, .. } ==> r.0@ == "git"@ && (r.1 matches Some(p)
            && p@ == url@),
        source matches PackageSource::Http { url } ==> r.0@ == "http"@ && (r.1 matches Some(p)
            && p@ == url@),
        source matches PackageSource::Local { path } ==> r.0@ == "local"@ && (r.1 matches Some(p)
            && p@ == path@),
{
    match source {
        PackageSource::Git { url, release: _ } => (
            str_to_string("git"),
            Some(str_to_string(url.as_str())),
        ),
        PackageSource::Http { url } => (str_to_string("http"), Some(str_to_string(url.as_str()))),
        PackageSource::Local { path } => (
            str_to_string("local"),
            Some(str_to_string(path.as_str())),
        ),
    }
}

/// Reads a source back from its ledger strings; an unknown type becomes a
/// local path `/unknown`.
pub fn strings_to_source(source_type: &str, source_path: Option<&str>) -> (r: PackageSource)
    ensures
        source_type@ == "git"@ ==> (r matches PackageSource::Git { url, release } && (match
            source_path {
            Some(p) => url@ == p@,
            None => url@.len() == 0,
        }) && release is None),
        source_type@ == "http"@ ==> (r matches PackageSource::Http { url } && (match source_path {
            Some(p) => url@ == p@,
            None => url@.len() == 0,
        })),
        source_type@ == "local"@ ==> (r matches PackageSource::Local { path } && (match source_path
            {
            Some(p) => path@ == p@,
            None => path@.len() == 0,
        })),
        source_type@ != "git"@ && source_type@ != "http"@ && source_type@ != "local"@ ==> (r
            matches PackageSource::Local { path } && path@ == "/unknown"@),
{
    proof {
        reveal_strlit("git");
        reveal_strlit("http");
        reveal_strlit("local");
        assert("git"@.len() == 3 && "http"@.len() == 4 && "local"@.len() == 5);
    }
    let path_string: String = match source_path {
        Some(p) => str_to_string(p),
        None => String::new(),
    };
    if crate::text::str_eq(source_type, "git") {
        PackageSource::Git { url: path_string, release: None }
    } else if crate::text::str_eq(source_type, "http") {
        PackageSource::Http { url: path_string }
    } else if crate::text::str_eq(source_type, "local") {
        PackageSource::Local { path: path_string }
    } else {
        PackageSource::Local { path: str_to_string("/unknown") }
    }
}

/// A field-by-field copy of a source.
pub fn duplicate_source(s: &PackageSource) -> (r: PackageSource)
    ensures
        s matches PackageSource::Git { url, release } ==> (r matches PackageSource::Git {
            url: u2,
            release: r2,
        } && u2@ == url@ && crate::text::view_opt(r2) == crate::text::view_opt(*release)),
        s matches PackageSource::Http { url } ==> (r matches PackageSource::Http { url: u2 } && u2@
            == url@),
        s matches PackageSource::Local { path } ==> (r matches PackageSource::Local { path: p2 }
            && p2@ == path@),
{
    match s {
        PackageSource::Git { url, release } => PackageSource::Git {
            url: str_to_string(url.as_str()),
            release: match release {
                Some(x) => Some(str_to_string(x.as_str())),
                None => None,
            },
        },
        PackageSource::Http { url } => PackageSource::Http { url: str_to_string(url.as_str()) },
        PackageSource::Local { path } => PackageSource::Local {
            path: str_to_string(path.as_str()),
        },
    }
}

/// A software package: identity, origin, platform, integrity, and its
/// dependencies, with the two flags the ledger projects.
#[derive(Clone, Debug)]
pub struct Package {
    pub id: PackageId,
    pub name: String,
    pub version: Version,
    pub author: String,
    pub source: PackageSource,
    pub target: Target,
    pub checksum: Option<Checksum>,
    pub dependencies: Vec<Dependency>,
    pub installed: bool,
    pub active: bool,
}

impl Package {
    pub fn new(
        id: PackageId,
        name: String,
        version: Version,
        author: String,
        source: PackageSource,
        target: Target,
        checksum: Option<Checksum>,
        dependencies: Vec<Dependency>,
        installed: bool,
        active: bool,
    ) -> (r: Package)
        ensures
            r.id@ == id@,
            r.name@ == name@,
            r.version@ == version@,
            r.author@ == author@,
            r.source == source,
            r.target == target,
            r.checksum == checksum,
            r.dependencies == dependencies,
            r.installed == installed,
            r.active == active,
    {
        Package {
            id,
            name,
            version,
            author,
            source,
            target,
            checksum,
            dependencies,
            installed,
            active,
        }
    }

    pub fn id(&self) -> (r: &PackageId)
        ensures
            r@ == self.id@,
    {
        &self.id
    }

    pub fn name(&self) -> (r: &str)
        ensures
            r@ == self.name@,
    {
        self.name.as_str()
    }

    pub fn version(&self) -> (r: &Version)
        ensures
            r@ == self.version@,
    {
        &self.version
    }

    pub fn author(&self) -> (r: &str)
        ensures
            r@ == self.author@,
    {
        self.author.as_str()
    }

    pub fn source(&self) -> (r: &PackageSource)
        ensures
            r == &self.source,
    {
        &self.source
    }

    pub fn target(&self) -> (r: &Target)
        ensures
            r == &self.target,
    {
        &self.target
    }

    pub fn checksum(&self) -> (r: &Option<Checksum>)
        ensures
            r == &self.checksum,
    {
        &self.checksum
    }

    pub fn dependencies(&self) -> (r: &Vec<Dependency>)
        ensures
            r == &self.dependencies,
    {
        &self.dependencies
    }

    pub fn is_installed(&self) -> (r: bool)
        ensures
            r == self.installed,
    {
        self.installed
    }

    pub fn is_active(&self) -> (r: bool)
        ensures
            r == self.active,
    {
        self.active
    }

    pub fn set_installed(&mut self, installed: bool)
        ensures
            final(self).installed == installed,
            final(self).active == old(self).active,
            final(self).id@ == old(self).id@,
            final(self).name@ == old(self).name@,
            final(self).version@ == old(self).version@,
            final(self).dependencies == old(self).dependencies,
    {
        self.installed = installed;
    }

    pub fn set_active(&mut self, active: bool)
        ensures
            final(self).active == active,
            final(self).installed == old(self).installed,
            final(self).id@ == old(self).id@,
            final(self).name@ == old(self).name@,
            final(self).version@ == old(self).version@,
            final(self).dependencies == old(self).dependencies,
    {
        self.active = active;
    }

    /// Whether this package is built for the given platform.
    pub fn matches_target(&self, target: &Target) -> (r: bool)
        ensures
            r == crate::target::target_eq(self.target, *target),
    {
        self.target.matches(target)
    }

    /// Whether any dependency bears the given name.
    pub fn has_dependency(&self, name: &str) -> (r: bool)
        ensures
            r == exists|k: int|
                0 <= k < self.dependencies@.len() && (#[trigger] self.dependencies@[k]).name@
                    == name@,
    {
        let n = self.dependencies.len();
        let mut i: usize = 0;
        while i < n
            invariant
                0 <= i <= n,
                n == self.dependencies@.len(),
                forall|k: int| 0 <= k < i ==> (#[trigger] self.dependencies@[k]).name@ != name@,
            decreases n - i,
        {
            if crate::text::str_eq(self.dependencies[i].name.as_str(), name) {
                return true;
            }
            i = i + 1;
        }
        false
    }

    /// The reference naming this package.
    pub fn reference(&self) -> (r: PackageReference)
        ensures
            r.name@ == self.name@,
            r.version@ == self.version@,
    {
        PackageReference {
            name: str_to_string(self.name.as_str()),
            version: self.version.duplicate(),
        }
    }

    /// A field-by-field copy, dependencies included.
    pub fn duplicate(&self) -> (r: Package)
        ensures
            r.id@ == self.id@,
            r.name@ == self.name@,
            r.version@ == self.version@,
            r.author@ == self.author@,
            r.installed == self.installed,
            r.active == self.active,
            crate::target::target_eq(r.target, self.target),
            (self.source matches PackageSource::Git { url, release } ==> (r.source matches
                PackageSource::Git { url: u2, release: r2 } && u2@ == url@
                && crate::text::view_opt(r2) == crate::text::view_opt(release))),
            (self.source matches PackageSource::Http { url } ==> (r.source matches
                PackageSource::Http { url: u2 } && u2@ == url@)),
            (self.source matches PackageSource::Local { path } ==> (r.source matches
                PackageSource::Local { path: p2 } && p2@ == path@)),
            r.checksum is Some <==> self.checksum is Some,
            (self.checksum matches Some(c) ==> (r.checksum matches Some(c2) && c2.algorithm@
                == c.algorithm@ && c2.hash@ == c.hash@)),
            r.dependencies@.len() == self.dependencies@.len(),
            forall|k: int|
                0 <= k < r.dependencies@.len() ==> (#[trigger] r.dependencies@[k]).name@
                    == self.dependencies@[k].name@ && r.dependencies@[k].constraint.requirement@
                    == self.dependencies@[k].constraint.requirement@ && r.dependencies@[k].kind
                    == self.dependencies@[k].kind,
    {
        let mut dependencies: Vec<Dependency> = Vec::new();
        let n = self.dependencies.len();
        let mut i: usize = 0;
        while i < n
            invariant
                0 <= i <= n,
                n == self.dependencies@.len(),
                dependencies@.len() == i,
                forall|k: int|
                    0 <= k < i ==> (#[trigger] dependencies@[k]).name@
                        == self.dependencies@[k].name@
                        && dependencies@[k].constraint.requirement@
                        == self.dependencies@[k].constraint.requirement@ && dependencies@[k].kind
                        == self.dependencies@[k].kind,
            decreases n - i,
        {
            dependencies.push(self.dependencies[i].duplicate());
            i = i + 1;
        }
        Package {
            id: self.id.duplicate(),
            name: str_to_string(self.name.as_str()),
            version: self.version.duplicate(),
            author: str_to_string(self.author.as_str()),
            source: duplicate_source(&self.source),
            target: self.target.duplicate(),
            checksum: match &self.checksum {
                Some(c) => Some(c.duplicate()),
                None => None,
            },
            dependencies,
            installed: self.installed,
            active: self.active,
        }
    }
}

} // verus!
