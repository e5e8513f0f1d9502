//! Package metadata as stored in the store and served by remote
//! repositories, and the remote URL layout.

use crate::checksum::Checksum;
use crate::dependency::parse_dep_line;
use crate::dependency::parse_dependency;
use crate::dependency::Dependency;
use crate::errors::UhpmError;
use crate::factory::PackageFactory;
use crate::package::Package;
use crate::package::PackageSource;
use crate::target::Target;
use crate::text::concat_str;
use crate::text::push_char;
use crate::text::str_to_string;
use crate::version::Version;
use vstd::prelude::*;

verus! {

/// What `meta.toml` holds for a stored package.
#[derive(Clone, Debug)]
pub struct PackageMeta {
    pub name: String,
    pub version: String,
    pub author: String,
    pub description: Option<String>,
    pub dependencies: Vec<String>,
    pub provides: Option<Vec<String>>,
    pub conflicts: Option<Vec<String>>,
}

/// What a remote `-meta.toml` additionally declares.
#[derive(Clone, Debug)]
pub struct RemotePackageMeta {
    pub name: String,
    pub version: String,
    pub author: String,
    pub description: Option<String>,
    pub dependencies: Vec<String>,
    pub provides: Option<Vec<String>>,
    pub conflicts: Option<Vec<String>>,
    pub checksum_algorithm: Option<String>,
    pub checksum_hash: Option<String>,
    pub target_os: Option<String>,
    pub target_arch: Option<String>,
}

/// The parsed form of one metadata dependency line stands among the
/// dependencies.
pub open spec fn dep_line_present(deps: Seq<Dependency>, line: Seq<char>) -> bool {
    parse_dep_line(line) matches Some(nr) && exists|i: int|
        0 <= i < deps.len() && (#[trigger] deps[i]).name@ == nr.0
            && deps[i].constraint.requirement@ == nr.1 && deps[i].kind
            == crate::dependency::DependencyKind::Required
}

/// Every dependency line read, in order; the first bad line is the error.
pub fn parse_dependency_lines(lines: &Vec<String>) -> (r: Result<Vec<Dependency>, UhpmError>)
    ensures
        match r {
            Ok(ds) => ds@.len() == lines@.len() && forall|k: int|
                0 <= k < ds@.len() ==> (parse_dep_line((#[trigger] lines@[k])@) matches Some(nr)
                    && nr.0 == ds@[k].name@ && nr.1 == ds@[k].constraint.requirement@ && ds@[k].kind
                    == crate::dependency::DependencyKind::Required),
            Err(e) => (exists|k: int|
                0 <= k < lines@.len() && parse_dep_line((#[trigger] lines@[k])@) is None)
                && e matches UhpmError::ValidationError(_),
        },
{
    let n = lines.len();
    let mut ds: Vec<Dependency> = Vec::new();
    let mut i: usize = 0;
    while i < n
        invariant
            0 <= i <= n,
            n == lines@.len(),
            ds@.len() == i,
            forall|k: int|
                0 <= k < i ==> (parse_dep_line((#[trigger] lines@[k])@) matches Some(nr) && nr.0
                    == ds@[k].name@ && nr.1 == ds@[k].constraint.requirement@ && ds@[k].kind
                    == crate::dependency::DependencyKind::Required),
        decreases n - i,
    {
        match parse_dependency(lines[i].as_str()) {
            Ok(d) => {
                ds.push(d);
            },
            Err(e) => {
                return Err(e);
            },
        }
        i = i + 1;
    }
    Ok(ds)
}

/// The store path of a package: `packages_dir/{id}`.
pub fn store_package_path(packages_dir: &str, id: &str) -> (r: String)
    ensures
        r@ == packages_dir@ + seq!['/'] + id@,
{
    let mut r = str_to_string(packages_dir);
    push_char(&mut r, '/');
    r.append(id);
    proof {
        assert(r@ =~= packages_dir@ + seq!['/'] + id@);
    }
    r
}

/// The metadata file of a stored package.
pub fn store_meta_path(packages_dir: &str, id: &str) -> (r: String)
    ensures
        r@ == packages_dir@ + seq!['/'] + id@ + "/meta.toml"@,
{
    let p = store_package_path(packages_dir, id);
    let r = concat_str(p.as_str(), "/meta.toml");
    proof {
        assert(r@ =~= packages_dir@ + seq!['/'] + id@ + "/meta.toml"@);
    }
    r
}

/// The install list of a stored package.
pub fn store_instlist_path(packages_dir: &str, id: &str) -> (r: String)
    ensures
        r@ == packages_dir@ + seq!['/'] + id@ + "/instlist"@,
{
    let p = store_package_path(packages_dir, id);
    let r = concat_str(p.as_str(), "/instlist");
    proof {
        assert(r@ =~= packages_dir@ + seq!['/'] + id@ + "/instlist"@);
    }
    r
}

/// A remote package's metadata URL:
/// `{base}/packages/{name}-{version}-meta.toml`.
pub fn remote_meta_url(base_url: &str, name: &str, version: &Version) -> (r: String)
    ensures
        r@ == base_url@ + "/packages/"@ + name@ + seq!['-'] + crate::version::version_str(version@)
            + "-meta.toml"@,
{
    let mut r = concat_str(base_url, "/packages/");
    r.append(name);
    push_char(&mut r, '-');
    let vs = version.to_string();
    r.append(vs.as_str());
    r.append("-meta.toml");
    proof {
        assert(r@ =~= base_url@ + "/packages/"@ + name@ + seq!['-'] + crate::version::version_str(
            version@,
        ) + "-meta.toml"@);
    }
    r
}

/// A remote package's archive URL: `{base}/packages/{name}-{version}.uhp`.
pub fn remote_archive_url(base_url: &str, name: &str, version: &Version) -> (r: String)
    ensures
        r@ == base_url@ + "/packages/"@ + name@ + seq!['-'] + crate::version::version_str(version@)
            + ".uhp"@,
{
    let mut r = concat_str(base_url, "/packages/");
    r.append(name);
    push_char(&mut r, '-');
    let vs = version.to_string();
    r.append(vs.as_str());
    r.append(".uhp");
    proof {
        assert(r@ =~= base_url@ + "/packages/"@ + name@ + seq!['-'] + crate::version::version_str(
            version@,
        ) + ".uhp"@);
    }
    r
}

/// A repository's index URL: `{base}/index.toml`.
pub fn remote_index_url(base_url: &str) -> (r: String)
    ensures
        r@ == base_url@ + "/index.toml"@,
{
    concat_str(base_url, "/index.toml")
}

/// Builds the package a stored metadata file describes: source is the
/// store directory, no checksum.
pub fn package_from_local_meta(meta: &PackageMeta, version: Version, store_path: &str) -> (r:
    Result<Package, UhpmError>)
    ensures
        r matches Ok(p) ==> p.name@ == meta.name@ && p.version@ == version@ && p.author@
            == meta.author@ && (p.source matches PackageSource::Local { path } && path@
            == store_path@) && p.checksum is None && p.installed == false && p.active == false && (
        forall|k: int|
            0 <= k < meta.dependencies@.len() ==> dep_line_present(
                p.dependencies@,
                (#[trigger] meta.dependencies@[k])@,
            )),
        r matches Err(e) ==> e matches UhpmError::ValidationError(_),
    {
    let deps = match parse_dependency_lines(&meta.dependencies) {
        Ok(ds) => ds,
        Err(e) => {
            return Err(e);
        },
    };
    let ghost deps_v = deps@;
    let result = PackageFactory::from_local_files(
        str_to_string(meta.name.as_str()),
        version,
        str_to_string(meta.author.as_str()),
        PackageSource::Local { path: str_to_string(store_path) },
        Target::current(),
        deps,
    );
    proof {
        assert forall|k: int|
            0 <= k < deps_v.len() implies (#[trigger] deps_v[k]).kind
            == crate::dependency::DependencyKind::Required by {
            let line = meta.dependencies@[k];
            assert(parse_dep_line(line@) is Some);
        }
        lemma_lines_present(&result, meta.dependencies@, deps_v);
    }
    result
}

/// Dependencies the factory kept still answer for every metadata line.
proof fn lemma_lines_present(
    r: &Result<Package, UhpmError>,
    lines: Seq<String>,
    parsed: Seq<Dependency>,
)
    requires
        parsed.len() == lines.len(),
        forall|k: int|
            0 <= k < parsed.len() ==> (parse_dep_line((#[trigger] lines[k])@) matches Some(nr)
                && nr.0 == parsed[k].name@ && nr.1 == parsed[k].constraint.requirement@),
        forall|k: int|
            0 <= k < parsed.len() ==> (#[trigger] parsed[k]).kind
                == crate::dependency::DependencyKind::Required,
        r matches Ok(p) ==> forall|j: int|
            0 <= j < parsed.len() ==> crate::factory::dep_covered(
                p.dependencies@,
                #[trigger] parsed[j],
            ),
    ensures
        r matches Ok(p) ==> forall|k: int|
            0 <= k < lines.len() ==> dep_line_present(p.dependencies@, (#[trigger] lines[k])@),
{
    match r {
        Ok(p) => {
            assert forall|k: int| 0 <= k < lines.len() implies dep_line_present(
                p.dependencies@,
                (#[trigger] lines[k])@,
            ) by {
                assert(crate::factory::dep_covered(p.dependencies@, parsed[k]));
                let i = choose|i: int|
                    0 <= i < p.dependencies@.len() && crate::factory::dep_same(
                        #[trigger] p.dependencies@[i],
                        parsed[k],
                    );
                assert(p.dependencies@[i].name@ == parsed[k].name@);
                assert(p.dependencies@[i].constraint.requirement@
                    == parsed[k].constraint.requirement@);
                assert(p.dependencies@[i].kind == parsed[k].kind);
            }
        },
        Err(_) => {},
    }
}

/// Builds the package a remote metadata file describes: source is the
/// archive URL, checksum as declared, `sha256` assumed when the algorithm
/// is omitted.
pub fn package_from_remote_meta(meta: &RemotePackageMeta, version: Version, archive_url: &str) -> (
    r: Result<Package, UhpmError>)
    ensures
        r matches Ok(p) ==> p.name@ == meta.name@ && p.version@ == version@ && p.author@
            == meta.author@ && (p.source matches PackageSource::Http { url } && url@
            == archive_url@) && (p.checksum matches Some(c) && (match meta.checksum_algorithm {
            Some(a) => c.algorithm@ == a@,
            None => c.algorithm@ == "sha256"@,
        }) && (match meta.checksum_hash {
            Some(h) => c.hash@ == h@,
            None => c.hash@.len() == 0,
        })) && p.installed == false && p.active == false && (forall|k: int|
            0 <= k < meta.dependencies@.len() ==> dep_line_present(
                p.dependencies@,
                (#[trigger] meta.dependencies@[k])@,
            )),
        r matches Err(e) ==> e matches UhpmError::ValidationError(_),
    {
    let deps = match parse_dependency_lines(&meta.dependencies) {
        Ok(ds) => ds,
        Err(e) => {
            return Err(e);
        },
    };
    let ghost deps_v = deps@;
    let algorithm = match &meta.checksum_algorithm {
        Some(a) => str_to_string(a.as_str()),
        None => str_to_string("sha256"),
    };
    let hash = match &meta.checksum_hash {
        Some(h) => str_to_string(h.as_str()),
        None => String::new(),
    };
    let result = PackageFactory::create(
        str_to_string(meta.name.as_str()),
        version,
        str_to_string(meta.author.as_str()),
        PackageSource::Http { url: str_to_string(archive_url) },
        Target::current(),
        Some(Checksum { algorithm, hash }),
        deps,
    );
    proof {
        assert forall|k: int|
            0 <= k < deps_v.len() implies (#[trigger] deps_v[k]).kind
            == crate::dependency::DependencyKind::Required by {
            let line = meta.dependencies@[k];
            assert(parse_dep_line(line@) is Some);
        }
        lemma_lines_present(&result, meta.dependencies@, deps_v);
    }
    result
}

} // verus!
