//! Factories: they admit only valid packages and installations, and they
//! hold the safety rule on system directories.

use crate::checksum::Checksum;
use crate::dependency::Dependency;
use crate::errors::UhpmError;
use crate::filemeta::FileChecksum;
use crate::filemeta::FileMetadata;
use crate::installation::Installation;
use crate::installation::InstallationId;
use crate::package::source_valid;
use crate::package::Package;
use crate::package::PackageSource;
use crate::reference::valid_pkg_name;
use crate::reference::PackageId;
use crate::symlink::symlink_valid;
use crate::symlink::Symlink;
use crate::target::Target;
use crate::text::contains_seq;
use crate::text::is_prefix;
use crate::text::starts_with;
use crate::text::trim;
use crate::text::trim_of;
use crate::timestamp::Timestamp;
use crate::version::Version;
use vstd::prelude::*;

verus! {

/// Two dependencies that the set semantics collapse: same name,
/// constraint, kind, provision and features.
pub open spec fn dep_same(a: Dependency, b: Dependency) -> bool {
    &&& a.name@ == b.name@
    &&& a.constraint.requirement@ == b.constraint.requirement@
    &&& a.kind == b.kind
    &&& crate::text::view_opt(a.provides) == crate::text::view_opt(b.provides)
    &&& a.features@.map_values(|f: String| f@) == b.features@.map_values(|f: String| f@)
}

/// Whether two dependencies are the same under set semantics.
fn dep_same_exec(a: &Dependency, b: &Dependency) -> (r: bool)
    ensures
        r == dep_same(*a, *b),
{
    if !crate::text::str_eq(a.name.as_str(), b.name.as_str()) {
        return false;
    }
    if a.kind != b.kind {
        return false;
    }
    let prov_same = match (&a.provides, &b.provides) {
        (None, None) => true,
        (Some(x), Some(y)) => crate::text::str_eq(x.as_str(), y.as_str()),
        _ => false,
    };
    if !prov_same {
        return false;
    }
    let an = a.features.len();
    let bn = b.features.len();
    if an != bn {
        proof {
            assert(a.features@.map_values(|f: String| f@).len() == an);
            assert(b.features@.map_values(|f: String| f@).len() == bn);
        }
        return false;
    }
    let mut i: usize = 0;
    while i < an
        invariant
            0 <= i <= an,
            an == a.features@.len(),
            an == b.features@.len(),
            forall|k: int| 0 <= k < i ==> (#[trigger] a.features@[k])@ == b.features@[k]@,
        decreases an - i,
    {
        if !crate::text::str_eq(a.features[i].as_str(), b.features[i].as_str()) {
            proof {
                assert(a.features@.map_values(|f: String| f@)[i as int] != b.features@.map_values(
                    |f: String| f@,
                )[i as int]);
            }
            return false;
        }
        i = i + 1;
    }
    proof {
        assert(a.features@.map_values(|f: String| f@) =~= b.features@.map_values(|f: String| f@));
    }
    // the constraints agree when their comparator views agree
    let ac = a.constraint.requirement.comparators();
    let bc = b.constraint.requirement.comparators();
    let m = ac.len();
    let m2 = bc.len();
    if m != m2 {
        proof {
            assert(a.constraint.requirement@.len() == m);
            assert(b.constraint.requirement@.len() == m2);
        }
        return false;
    }
    let mut j: usize = 0;
    while j < m
        invariant
            0 <= j <= m,
            m == a.constraint.requirement@.len(),
            m == b.constraint.requirement@.len(),
            ac@.map_values(|c: crate::vreq::Comparator| c@) == a.constraint.requirement@,
            bc@.map_values(|c: crate::vreq::Comparator| c@) == b.constraint.requirement@,
            m == ac@.len(),
            m == bc@.len(),
            forall|k: int|
                0 <= k < j ==> #[trigger] a.constraint.requirement@[k]
                    == b.constraint.requirement@[k],
        decreases m - j,
    {
        let x = &ac[j];
        let y = &bc[j];
        let same = x.op == y.op && x.major == y.major && (match (x.minor, y.minor) {
            (None, None) => true,
            (Some(p), Some(q)) => p == q,
            _ => false,
        }) && (match (x.patch, y.patch) {
            (None, None) => true,
            (Some(p), Some(q)) => p == q,
            _ => false,
        }) && crate::text::str_eq(x.pre.as_str(), y.pre.as_str());
        proof {
            assert(a.constraint.requirement@[j as int] == ac@[j as int]@);
            assert(b.constraint.requirement@[j as int] == bc@[j as int]@);
        }
        if !same {
            return false;
        }
        proof {
            assert(x@ == y@);
        }
        j = j + 1;
    }
    proof {
        assert(a.constraint.requirement@ =~= b.constraint.requirement@);
    }
    true
}

/// No two entries the set semantics would collapse.
pub open spec fn deps_distinct(deps: Seq<Dependency>) -> bool {
    forall|i: int, j: int|
        0 <= i < j < deps.len() ==> !dep_same(#[trigger] deps[i], #[trigger] deps[j])
}

/// Whether some entry of `rs` is the same dependency as `d`.
pub open spec fn dep_covered(rs: Seq<Dependency>, d: Dependency) -> bool {
    exists|i: int| 0 <= i < rs.len() && dep_same(#[trigger] rs[i], d)
}

/// Keeps the first of every group of equal dependencies, in order.
fn dedup_dependencies(deps: Vec<Dependency>) -> (r: Vec<Dependency>)
    ensures
        deps_distinct(r@),
        forall|i: int| 0 <= i < r@.len() ==> dep_covered(deps@, #[trigger] r@[i]),
        forall|j: int| 0 <= j < deps@.len() ==> dep_covered(r@, #[trigger] deps@[j]),
{
    let n = deps.len();
    let mut r: Vec<Dependency> = Vec::new();
    let mut j: usize = 0;
    while j < n
        invariant
            0 <= j <= n,
            n == deps@.len(),
            deps_distinct(r@),
            forall|i: int| 0 <= i < r@.len() ==> dep_covered(deps@, #[trigger] r@[i]),
            forall|k: int| 0 <= k < j ==> dep_covered(r@, #[trigger] deps@[k]),
        decreases n - j,
    {
        let candidate = &deps[j];
        let m = r.len();
        let mut i: usize = 0;
        let mut dup = false;
        while i < m
            invariant_except_break
                0 <= i <= m,
                m == r@.len(),
                n == deps@.len(),
                j < n,
                !dup,
                *candidate == deps@[j as int],
                forall|k: int| 0 <= k < i ==> !dep_same(#[trigger] r@[k], deps@[j as int]),
            ensures
                m == r@.len(),
                n == deps@.len(),
                j < n,
                dup ==> dep_covered(r@, deps@[j as int]),
                !dup ==> forall|k: int|
                    0 <= k < r@.len() ==> !dep_same(#[trigger] r@[k], deps@[j as int]),
            decreases m - i,
        {
            if dep_same_exec(&r[i], candidate) {
                dup = true;
                proof {
                    assert(dep_same(r@[i as int], deps@[j as int]));
                }
                break ;
            }
            i = i + 1;
        }
        if !dup {
            let ghost before = r@;
            let copy = deps[j].duplicate();
            proof {
                assert(dep_same(copy, deps@[j as int]));
            }
            r.push(copy);
            proof {
                assert(r@.len() == before.len() + 1);
                assert(forall|k: int| 0 <= k < before.len() ==> #[trigger] r@[k] == before[k]);
                assert(r@[r@.len() - 1] == copy);
                assert forall|a: int, b: int| 0 <= a < b < r@.len() implies !dep_same(
                    #[trigger] r@[a],
                    #[trigger] r@[b],
                ) by {
                    if b == r@.len() - 1 {
                        assert(!dep_same(before[a], deps@[j as int]));
                        lemma_dep_same_transfer(before[a], deps@[j as int], copy);
                    } else {
                        assert(!dep_same(before[a], before[b]));
                    }
                }
                assert forall|i2: int| 0 <= i2 < r@.len() implies dep_covered(
                    deps@,
                    #[trigger] r@[i2],
                ) by {
                    if i2 == r@.len() - 1 {
                        assert(dep_same(deps@[j as int], copy));
                        assert(dep_covered(deps@, copy));
                    } else {
                        assert(dep_covered(deps@, before[i2]));
                    }
                }
                assert forall|k: int| 0 <= k < j + 1 implies dep_covered(
                    r@,
                    #[trigger] deps@[k],
                ) by {
                    if k == j {
                        assert(dep_same(r@[r@.len() - 1], deps@[j as int]));
                    } else {
                        assert(dep_covered(before, deps@[k]));
                        let i0 = choose|i0: int|
                            0 <= i0 < before.len() && dep_same(#[trigger] before[i0], deps@[k]);
                        assert(dep_same(r@[i0], deps@[k]));
                    }
                }
            }
        }
        j = j + 1;
    }
    r
}

/// Sameness carries across a shared partner.
proof fn lemma_dep_same_transfer(a: Dependency, b: Dependency, c: Dependency)
    requires
        dep_same(c, b),
    ensures
        dep_same(a, c) ==> dep_same(a, b),
        !dep_same(a, b) ==> !dep_same(a, c),
{
}

/// Makes packages, admitting only valid ones.
#[derive(Debug, Clone)]
pub struct PackageFactory;

/// What the factory demands of a package's description.
pub open spec fn package_inputs_valid(
    name: Seq<char>,
    version: Version,
    author: Seq<char>,
    source: PackageSource,
) -> bool {
    &&& trim_of(name).len() > 0
    &&& valid_pkg_name(name)
    &&& trim_of(author).len() > 0
    &&& !contains_seq(version.pre@, "broken"@)
    &&& !contains_seq(version.pre@, "unstable"@)
    &&& source_valid(source)
}

impl PackageFactory {
    /// Whether the text is an acceptable package name.
    pub fn is_valid_package_name(name: &str) -> (r: bool)
        ensures
            r == valid_pkg_name(name@),
    {
        let n = name.unicode_len();
        if n == 0 || n > 50 {
            return false;
        }
        let first = name.get_char(0);
        if !((first >= 'a' && first <= 'z') || (first >= 'A' && first <= 'Z')) {
            return false;
        }
        let mut i: usize = 0;
        while i < n
            invariant
                0 <= i <= n,
                n == name@.len(),
                forall|k: int| 0 <= k < i ==> crate::reference::is_name_char(#[trigger] name@[k]),
            decreases n - i,
        {
            let c = name.get_char(i);
            let ok = (c >= 'a' && c <= 'z') || (c >= 'A' && c <= 'Z') || (c >= '0' && c <= '9') || c
                == '-' || c == '_';
            if !ok {
                assert(!crate::reference::is_name_char(name@[i as int]));
                return false;
            }
            i = i + 1;
        }
        true
    }

    /// Checks the source's shape.
    pub fn validate_source(source: &PackageSource) -> (r: Result<(), UhpmError>)
        ensures
            r is Ok <==> source_valid(*source),
            r is Err ==> r matches Err(UhpmError::ValidationError(_)),
    {
        crate::package::validate_source(source)
    }

    /// Builds a package after checking name, author, version labels, and
    /// source; duplicated dependencies collapse to one.
    pub fn create(
        name: String,
        version: Version,
        author: String,
        source: PackageSource,
        target: Target,
        checksum: Option<Checksum>,
        dependencies: Vec<Dependency>,
    ) -> (r: Result<Package, UhpmError>)
        ensures
            r is Ok <==> package_inputs_valid(name@, version, author@, source),
            r matches Ok(p) ==> p.name@ == name@ && p.version@ == version@ && p.author@ == author@
                && p.id@ == crate::reference::ref_str(name@, version@) && p.source == source
                && p.target == target && p.checksum == checksum && p.installed == false && p.active
                == false && deps_distinct(p.dependencies@) && (forall|j: int|
                0 <= j < dependencies@.len() ==> dep_covered(
                    p.dependencies@,
                    #[trigger] dependencies@[j],
                )) && (forall|i: int|
                0 <= i < p.dependencies@.len() ==> dep_covered(
                    dependencies@,
                    #[trigger] p.dependencies@[i],
                )),
            r matches Err(e) ==> e matches UhpmError::ValidationError(_),
    {
        let trimmed_name = trim(name.as_str());
        if trimmed_name.as_str().unicode_len() == 0 {
            return Err(UhpmError::validation("package name cannot be empty or whitespace"));
        }
        if !Self::is_valid_package_name(name.as_str()) {
            return Err(
                UhpmError::validation(
                    "invalid package name: letters first, then letters, digits, hyphens, underscores",
                ),
            );
        }
        let trimmed_author = trim(author.as_str());
        if trimmed_author.as_str().unicode_len() == 0 {
            return Err(UhpmError::validation("package author cannot be empty"));
        }
        if crate::text::contains_str(version.pre.as_str(), "broken") || crate::text::contains_str(
            version.pre.as_str(),
            "unstable",
        ) {
            return Err(
                UhpmError::validation(
                    "version pre-release tags cannot contain 'broken' or 'unstable'",
                ),
            );
        }
        match crate::package::validate_source(&source) {
            Ok(()) => {},
            Err(e) => {
                return Err(e);
            },
        }
        let id = PackageId::new(name.as_str(), &version);
        let deduped = dedup_dependencies(dependencies);
        Ok(
            Package::new(
                id,
                name,
                version,
                author,
                source,
                target,
                checksum,
                deduped,
                false,
                false,
            ),
        )
    }

    /// Builds a package from remote metadata; a remote package must carry a
    /// checksum.
    pub fn from_remote_metadata(
        name: String,
        version: Version,
        author: String,
        source: PackageSource,
        target: Target,
        checksum: Option<Checksum>,
        dependencies: Vec<Dependency>,
    ) -> (r: Result<Package, UhpmError>)
        ensures
            r is Ok <==> package_inputs_valid(name@, version, author@, source) && checksum is Some,
            r matches Ok(p) ==> p.name@ == name@ && p.version@ == version@ && p.author@ == author@
                && p.checksum == checksum && p.checksum is Some && p.source == source
                && p.installed == false && p.active == false && (forall|j: int|
                0 <= j < dependencies@.len() ==> dep_covered(
                    p.dependencies@,
                    #[trigger] dependencies@[j],
                )),
            r matches Err(e) ==> e matches UhpmError::ValidationError(_),
    {
        let has_checksum = checksum.is_some();
        let package = match Self::create(
            name,
            version,
            author,
            source,
            target,
            checksum,
            dependencies,
        ) {
            Ok(p) => p,
            Err(e) => {
                return Err(e);
            },
        };
        if !has_checksum {
            return Err(
                UhpmError::validation("remote packages must carry a checksum for verification"),
            );
        }
        Ok(package)
    }

    /// Builds a package found on disk; no checksum is attached.
    pub fn from_local_files(
        name: String,
        version: Version,
        author: String,
        source: PackageSource,
        target: Target,
        dependencies: Vec<Dependency>,
    ) -> (r: Result<Package, UhpmError>)
        ensures
            r is Ok <==> package_inputs_valid(name@, version, author@, source),
            r matches Ok(p) ==> p.name@ == name@ && p.version@ == version@ && p.author@ == author@
                && p.checksum is None && p.source == source && p.installed == false && p.active
                == false && (forall|j: int|
                0 <= j < dependencies@.len() ==> dep_covered(
                    p.dependencies@,
                    #[trigger] dependencies@[j],
                )),
            r matches Err(e) ==> e matches UhpmError::ValidationError(_),
    {
        Self::create(name, version, author, source, target, None, dependencies)
    }
}

/// The prefixes no install-list target may enter.
pub open spec fn prohibited_prefix(path: Seq<char>, dir: Seq<char>) -> bool {
    is_prefix(path, dir) && (path.len() == dir.len() || path[dir.len() as int] == '/')
}

/// Whether the path lies in one of the protected system directories.
pub open spec fn is_system_path(path: Seq<char>) -> bool {
    ||| prohibited_prefix(path, "/bin"@)
    ||| prohibited_prefix(path, "/sbin"@)
    ||| prohibited_prefix(path, "/usr/bin"@)
    ||| prohibited_prefix(path, "/usr/sbin"@)
    ||| prohibited_prefix(path, "/lib"@)
    ||| prohibited_prefix(path, "/usr/lib"@)
    ||| prohibited_prefix(path, "/etc"@)
    ||| prohibited_prefix(path, "/var"@)
}

/// Makes installation records and guards their validity.
#[derive(Debug, Clone)]
pub struct InstallationFactory;

impl InstallationFactory {
    /// A fresh, inactive, empty installation of the package.
    pub fn create(package_id: PackageId) -> (r: Installation)
        ensures
            r.package_id@ == package_id@,
            r.installed_files@.len() == 0,
            r.symlinks@.len() == 0,
            r.active == false,
    {
        Installation::new(
            InstallationId::new(),
            package_id,
            Vec::new(),
            Vec::new(),
            Timestamp::now(),
            false,
        )
    }

    /// An installation read back from the ledger, with its stored identity
    /// and flag; files and links are loaded separately.
    pub fn from_existing(
        installation_id: InstallationId,
        package_id: PackageId,
        installed_at: Timestamp,
        active: bool,
    ) -> (r: Installation)
        ensures
            r.id.text@ == installation_id.text@,
            r.package_id@ == package_id@,
            r.installed_files@.len() == 0,
            r.symlinks@.len() == 0,
            r.installed_at == installed_at,
            r.active == active,
    {
        Installation::new(
            installation_id,
            package_id,
            Vec::new(),
            Vec::new(),
            installed_at,
            active,
        )
    }

    /// An installation may be activated only when it owns at least one
    /// file.
    pub fn validate_activation(installation: &Installation) -> (r: Result<(), UhpmError>)
        ensures
            r is Ok <==> installation.installed_files@.len() > 0,
            r is Err ==> r matches Err(UhpmError::ValidationError(_)),
    {
        if installation.installed_files.len() == 0 {
            return Err(UhpmError::validation("cannot activate installation with no files"));
        }
        Ok(())
    }

    /// File metadata for the ledger: the path must be named, and a
    /// checksum needs both its parts nonblank.
    pub fn create_file_metadata(
        &self,
        path: String,
        size: u64,
        checksum_algorithm: Option<String>,
        checksum_hash: Option<String>,
    ) -> (r: Result<FileMetadata, UhpmError>)
        ensures
            r is Ok <==> path@.len() > 0 && (match (checksum_algorithm, checksum_hash) {
                (Some(a), Some(h)) => trim_of(a@).len() > 0 && trim_of(h@).len() > 0,
                _ => true,
            }),
            r matches Ok(m) ==> m.path@ == path@ && m.size == size && m.file_type
                == crate::filemeta::FileType::Regular && m.permissions == (
            crate::filemeta::FilePermissions { read: true, write: false, execute: false }) && (
            match (checksum_algorithm, checksum_hash) {
                (Some(a), Some(h)) => m.checksum matches Some(c) && c.algorithm@ == a@ && c.hash@
                    == h@,
                _ => m.checksum is None,
            }),
            r matches Err(e) ==> e matches UhpmError::ValidationError(_),
    {
        if path.as_str().unicode_len() == 0 {
            return Err(UhpmError::validation("file path cannot be empty"));
        }
        let mut metadata = FileMetadata::new(path, size);
        match (checksum_algorithm, checksum_hash) {
            (Some(algorithm), Some(hash)) => {
                let ta = trim(algorithm.as_str());
                let th = trim(hash.as_str());
                if ta.as_str().unicode_len() == 0 || th.as_str().unicode_len() == 0 {
                    return Err(
                        UhpmError::validation("checksum algorithm and hash cannot be empty"),
                    );
                }
                metadata.checksum = Some(FileChecksum { algorithm, hash });
                Ok(metadata)
            },
            _ => Ok(metadata),
        }
    }

    /// A symlink the installer may create: well formed and not aimed at a
    /// system directory.
    pub fn validate_symlink(&self, symlink: &Symlink) -> (r: Result<(), UhpmError>)
        ensures
            r is Ok <==> symlink_valid(*symlink) && !is_system_path(symlink.target@),
            r is Err ==> r matches Err(UhpmError::ValidationError(_)),
    {
        match symlink.validate() {
            Ok(()) => {},
            Err(e) => {
                return Err(e);
            },
        }
        if Self::is_system_directory(&symlink.target) {
            return Err(UhpmError::validation("cannot create symlink to system directory"));
        }
        Ok(())
    }

    /// Whether the path enters one of the protected system directories.
    pub fn is_system_directory(path: &String) -> (r: bool)
        ensures
            r == is_system_path(path@),
    {
        path_starts_dir(path.as_str(), "/bin") || path_starts_dir(path.as_str(), "/sbin")
            || path_starts_dir(path.as_str(), "/usr/bin") || path_starts_dir(
            path.as_str(),
            "/usr/sbin",
        ) || path_starts_dir(path.as_str(), "/lib") || path_starts_dir(path.as_str(), "/usr/lib")
            || path_starts_dir(path.as_str(), "/etc") || path_starts_dir(path.as_str(), "/var")
    }
}

/// Whether `dir` is a whole-component prefix of `path`.
fn path_starts_dir(path: &str, dir: &str) -> (r: bool)
    ensures
        r == prohibited_prefix(path@, dir@),
{
    if !starts_with(path, dir) {
        return false;
    }
    let pn = path.unicode_len();
    let dn = dir.unicode_len();
    if pn == dn {
        return true;
    }
    path.get_char(dn) == '/'
}

/// The two factories, handed around together.
pub struct Factories {
    package: PackageFactory,
    installation: InstallationFactory,
}

impl Factories {
    pub fn new() -> (r: Factories) {
        Factories { package: PackageFactory, installation: InstallationFactory }
    }

    /// The package factory.
    pub fn package(&self) -> (r: &PackageFactory) {
        &self.package
    }

    /// The installation factory.
    pub fn installation(&self) -> (r: &InstallationFactory) {
        &self.installation
    }
}

impl Default for Factories {
    fn default() -> (r: Factories) {
        Factories::new()
    }
}

} // verus!
