//! The installation engine: the store, the user filesystem, the cache and
//! the remote repository as data, and the install / remove / switch
//! protocols over them.
//!
//! All outside work — reading archives from the network, writing real
//! files, executing SQL — happens beyond this module; a runner performs it
//! by mirroring these transitions.

use crate::checksum::accept_download;
use crate::errors::UhpmError;
use crate::events::PackageEvent;
use crate::factory::is_system_path;
use crate::factory::InstallationFactory;
use crate::filemeta::FileMetadata;
use crate::installation::Installation;
use crate::instlist::parse_instlist_text;
use crate::ledger::has_active_inst_for;
use crate::ledger::has_inst_for;
use crate::ledger::has_pkg;
use crate::ledger::id_name;
use crate::ledger::ledger_wf;
use crate::ledger::Ledger;
use crate::meta::PackageMeta;
use crate::package::Package;
use crate::reference::PackageId;
use crate::reference::PackageReference;
use crate::symlink::Symlink;
use crate::symlink::SymlinkType;
use crate::text::push_char;
use crate::text::str_eq;
use crate::text::str_to_string;
use vstd::prelude::*;

verus! {

/// One file of an extracted package: a store-relative path and its bytes.
#[derive(Clone, Debug)]
pub struct StoreFile {
    pub path: String,
    pub data: Vec<u8>,
}

/// One extracted package in the content-addressed store.
#[derive(Debug)]
pub struct StorePackage {
    pub id: PackageId,
    pub meta: PackageMeta,
    pub instlist_text: String,
    pub files: Vec<StoreFile>,
}

/// The content-addressed store.
#[derive(Debug)]
pub struct Store {
    pub packages: Vec<StorePackage>,
}

/// The install-list source at position `x` is among the package's files.
pub open spec fn source_listed(p: StorePackage, x: int) -> bool {
    exists|f: int|
        0 <= f < p.files@.len() && (#[trigger] p.files@[f]).path@
            == crate::instlist::parse_instlist(p.instlist_text@)[x].0
}

/// Every install-list source of the extracted package is among its files.
pub open spec fn store_pkg_complete(p: StorePackage) -> bool {
    forall|x: int|
        0 <= x < crate::instlist::parse_instlist(p.instlist_text@).len()
            ==> #[trigger] source_listed(p, x)
}

pub open spec fn store_has(s: Store, id: Seq<char>) -> bool {
    exists|i: int| 0 <= i < s.packages@.len() && (#[trigger] s.packages@[i]).id@ == id
}

/// A store-relative source names a directory: some file of the package
/// lies below it.
pub open spec fn source_is_dir(files: Seq<StoreFile>, rel: Seq<char>) -> bool {
    exists|f: int|
        0 <= f < files.len() && crate::text::is_prefix(
            (#[trigger] files[f]).path@,
            rel + seq!['/'],
        )
}

/// The stored byte count of a store-relative source: the first file of
/// that path, or zero when none bears it.
pub open spec fn stored_size(files: Seq<StoreFile>, rel: Seq<char>) -> int
    decreases files.len(),
{
    if files.len() == 0 {
        0
    } else if files[0].path@ == rel {
        files[0].data@.len() as int
    } else {
        stored_size(files.skip(1), rel)
    }
}

/// Whether some file of the package lies below the source path.
fn source_dir_check(files: &Vec<StoreFile>, rel: &str) -> (r: bool)
    ensures
        r == source_is_dir(files@, rel@),
{
    let mut prefix = str_to_string(rel);
    push_char(&mut prefix, '/');
    proof {
        assert(prefix@ =~= rel@ + seq!['/']);
    }
    let n = files.len();
    let mut i: usize = 0;
    while i < n
        invariant
            0 <= i <= n,
            n == files@.len(),
            prefix@ == rel@ + seq!['/'],
            forall|k: int|
                0 <= k < i ==> !crate::text::is_prefix(
                    (#[trigger] files@[k]).path@,
                    rel@ + seq!['/'],
                ),
        decreases n - i,
    {
        if crate::text::starts_with(files[i].path.as_str(), prefix.as_str()) {
            return true;
        }
        i = i + 1;
    }
    false
}

/// The stored byte count of the source path; zero when no file bears it.
fn stored_size_of(files: &Vec<StoreFile>, rel: &str) -> (r: usize)
    ensures
        r as int == stored_size(files@, rel@),
{
    let n = files.len();
    let mut i: usize = 0;
    proof {
        assert(files@.skip(0) =~= files@);
    }
    while i < n
        invariant
            0 <= i <= n,
            n == files@.len(),
            stored_size(files@, rel@) == stored_size(files@.skip(i as int), rel@),
        decreases n - i,
    {
        proof {
            assert(files@.skip(i as int)[0] == files@[i as int]);
        }
        if str_eq(files[i].path.as_str(), rel) {
            proof {
                assert(stored_size(files@.skip(i as int), rel@) == files@[i as int].data@.len());
            }
            return files[i].data.len();
        }
        proof {
            assert(files@.skip(i as int).skip(1) =~= files@.skip(i as int + 1));
        }
        i = i + 1;
    }
    proof {
        assert(files@.skip(n as int).len() == 0);
    }
    0
}

impl Store {
    pub fn new() -> (r: Store)
        ensures
            r.packages@.len() == 0,
    {
        Store { packages: Vec::new() }
    }

    /// Whether the package is extracted.
    pub fn has_package(&self, id: &str) -> (r: bool)
        ensures
            r == store_has(*self, id@),
    {
        let n = self.packages.len();
        let mut i: usize = 0;
        while i < n
            invariant
                0 <= i <= n,
                n == self.packages@.len(),
                forall|k: int| 0 <= k < i ==> (#[trigger] self.packages@[k]).id@ != id@,
            decreases n - i,
        {
            if str_eq(self.packages[i].id.as_str(), id) {
                return true;
            }
            i = i + 1;
        }
        false
    }

    /// The extracted package, if present.
    pub fn get_package(&self, id: &str) -> (r: Option<&StorePackage>)
        ensures
            match r {
                Some(p) => p.id@ == id@ && store_has(*self, id@),
                None => !store_has(*self, id@),
            },
    {
        let n = self.packages.len();
        let mut i: usize = 0;
        while i < n
            invariant
                0 <= i <= n,
                n == self.packages@.len(),
                forall|k: int| 0 <= k < i ==> (#[trigger] self.packages@[k]).id@ != id@,
            decreases n - i,
        {
            if str_eq(self.packages[i].id.as_str(), id) {
                return Some(&self.packages[i]);
            }
            i = i + 1;
        }
        None
    }

    /// Puts an extracted package in place; any earlier content of the same
    /// key is gone, and the first entry of the key is now exactly this
    /// package.
    pub fn put_package(&mut self, p: StorePackage)
        ensures
            store_has(*final(self), p.id@),
            exists|i: int|
                0 <= i < final(self).packages@.len() && #[trigger] final(self).packages@[i] == p
                    && (forall|j: int|
                    0 <= j < i ==> (#[trigger] final(self).packages@[j]).id@ != p.id@),
            forall|i: int|
                0 <= i < final(self).packages@.len() && (#[trigger] final(self).packages@[i]).id@ != p.id@ ==> old(self).packages@.contains(
                    final(self).packages@[i],
                ),
            forall|i: int|
                0 <= i < old(self).packages@.len() && (#[trigger] old(self).packages@[i]).id@
                    != p.id@ ==> final(self).packages@.contains(old(self).packages@[i]),
    {
        let n = self.packages.len();
        let mut i: usize = 0;
        while i < n
            invariant
                0 <= i <= n,
                n == self.packages@.len(),
                *self == *old(self),
                forall|k: int| 0 <= k < i ==> (#[trigger] self.packages@[k]).id@ != p.id@,
            decreases n - i,
        {
            if str_eq(self.packages[i].id.as_str(), p.id.as_str()) {
                let ghost before = self.packages@;
                let ghost pg = p;
                self.packages.set(i, p);
                proof {
                    assert(forall|k: int|
                        0 <= k < self.packages@.len() && k != i
                            ==> #[trigger] self.packages@[k] == before[k]);
                    assert(self.packages@[i as int] == pg);
                    assert(forall|j: int|
                        0 <= j < i ==> (#[trigger] self.packages@[j]).id@ != pg.id@);
                    assert forall|k: int|
                        0 <= k < old(self).packages@.len() && (#[trigger] old(
                            self,
                        ).packages@[k]).id@ != pg.id@ implies self.packages@.contains(
                        old(self).packages@[k],
                    ) by {
                        assert(k != i);
                        assert(self.packages@[k] == old(self).packages@[k]);
                    }
                }
                return ;
            }
            i = i + 1;
        }
        let ghost before = self.packages@;
        let ghost pg = p;
        self.packages.push(p);
        proof {
            assert(forall|k: int|
                0 <= k < before.len() ==> #[trigger] self.packages@[k] == before[k]);
            assert(self.packages@[self.packages@.len() - 1] == pg);
            assert(forall|j: int|
                0 <= j < before.len() ==> (#[trigger] self.packages@[j]).id@ != pg.id@);
            assert forall|k: int|
                0 <= k < old(self).packages@.len() && (#[trigger] old(self).packages@[k]).id@
                    != pg.id@ implies self.packages@.contains(old(self).packages@[k]) by {
                assert(self.packages@[k] == old(self).packages@[k]);
            }
        }
    }

    /// Deletes the package's directory. Nothing happens when it is absent,
    /// and every other package's content is kept.
    pub fn remove_package_files(&mut self, id: &str)
        ensures
            !store_has(*final(self), id@),
            forall|i: int|
                0 <= i < final(self).packages@.len() ==> old(self).packages@.contains(
                    #[trigger] final(self).packages@[i],
                ) && (#[trigger] final(self).packages@[i]).id@ != id@,
            forall|i: int|
                0 <= i < old(self).packages@.len() && (#[trigger] old(self).packages@[i]).id@
                    != id@ ==> final(self).packages@.contains(old(self).packages@[i]),
    {
        let ghost orig = self.packages@;
        let n = self.packages.len();
        let mut j: usize = 0;
        let mut i: usize = 0;
        while j < n
            invariant
                0 <= j <= n,
                i <= j,
                n == orig.len(),
                orig == old(self).packages@,
                i == self.packages@.len() - (n - j),
                0 <= i <= self.packages@.len(),
                forall|k: int|
                    0 <= k < i ==> orig.contains(#[trigger] self.packages@[k]) && (
                    #[trigger] self.packages@[k]).id@ != id@,
                forall|k: int|
                    i <= k < self.packages@.len() ==> #[trigger] self.packages@[k] == orig[k + (j
                        - i)],
                forall|k: int|
                    0 <= k < j && (#[trigger] orig[k]).id@ != id@ ==> self.packages@.contains(
                        orig[k],
                    ),
            decreases n - j,
        {
            proof {
                assert(self.packages@[i as int] == orig[j as int]);
                assert(orig.contains(orig[j as int]));
            }
            let ghost before = self.packages@;
            if str_eq(self.packages[i].id.as_str(), id) {
                self.packages.remove(i);
                proof {
                    assert(forall|k: int|
                        0 <= k < i ==> #[trigger] self.packages@[k] == before[k]);
                    assert forall|k: int|
                        0 <= k < j + 1 && (#[trigger] orig[k]).id@ != id@ implies self.packages@.contains(orig[k]) by {
                        if k < j {
                            let x = choose|x: int| 0 <= x < before.len() && before[x] == orig[k];
                            if x < i {
                                assert(self.packages@[x] == orig[k]);
                            } else if x > i {
                                assert(self.packages@[x - 1] == orig[k]);
                            }
                        }
                    }
                }
            } else {
                i = i + 1;
                proof {
                    assert(self.packages@[i - 1] == orig[j as int]);
                }
            }
            j = j + 1;
        }
    }

    /// Whether the extracted package is whole: it is present, and every
    /// install-list source resolves to one of its files.
    pub fn verify_integrity(&self, id: &str) -> (r: bool)
        ensures
            r == exists|w: int|
                0 <= w < self.packages@.len() && (#[trigger] self.packages@[w]).id@ == id@ && (
                forall|j2: int| 0 <= j2 < w ==> (#[trigger] self.packages@[j2]).id@ != id@)
                    && store_pkg_complete(self.packages@[w]),
    {
        let w = match self.first_index_of(id) {
            Some(w) => w,
            None => {
                proof {
                    assert forall|w2: int|
                        !(0 <= w2 < self.packages@.len() && (#[trigger] self.packages@[w2]).id@
                            == id@ && (forall|j2: int|
                            0 <= j2 < w2 ==> (#[trigger] self.packages@[j2]).id@ != id@)
                            && store_pkg_complete(self.packages@[w2])) by {
                    }
                }
                return false;
            },
        };
        let pkg = &self.packages[w];
        let entries = parse_instlist_text(pkg.instlist_text.as_str());
        let ghost sv = crate::instlist::parse_instlist(self.packages@[w as int].instlist_text@);
        proof {
            assert(crate::instlist::entry_views(entries@) == sv);
        }
        let n = entries.len();
        let mut k: usize = 0;
        while k < n
            invariant
                0 <= k <= n,
                n == entries@.len(),
                n == sv.len(),
                crate::instlist::entry_views(entries@) == sv,
                0 <= w < self.packages@.len(),
                *pkg == self.packages@[w as int],
                self.packages@[w as int].id@ == id@,
                sv == crate::instlist::parse_instlist(self.packages@[w as int].instlist_text@),
                forall|j2: int| 0 <= j2 < w ==> (#[trigger] self.packages@[j2]).id@ != id@,
                forall|x: int|
                    0 <= x < k ==> exists|f: int|
                        0 <= f < self.packages@[w as int].files@.len() && (
                        #[trigger] self.packages@[w as int].files@[f]).path@ == (
                        #[trigger] sv[x]).0,
            decreases n - k,
        {
            proof {
                assert(sv[k as int] == crate::instlist::entry_views(entries@)[k as int]);
            }
            let m = pkg.files.len();
            let mut j: usize = 0;
            let mut found = false;
            while j < m
                invariant_except_break
                    0 <= j <= m,
                    m == pkg.files@.len(),
                    0 <= k < n,
                    n == entries@.len(),
                    !found,
                    forall|f: int|
                        0 <= f < j ==> (#[trigger] pkg.files@[f]).path@
                            != entries@[k as int].source_rel@,
                ensures
                    m == pkg.files@.len(),
                    0 <= k < n,
                    found ==> exists|f: int|
                        0 <= f < pkg.files@.len() && (#[trigger] pkg.files@[f]).path@
                            == entries@[k as int].source_rel@,
                    !found ==> forall|f: int|
                        0 <= f < pkg.files@.len() ==> (#[trigger] pkg.files@[f]).path@
                            != entries@[k as int].source_rel@,
                decreases m - j,
            {
                if str_eq(pkg.files[j].path.as_str(), entries[k].source_rel.as_str()) {
                    found = true;
                    proof {
                        assert(pkg.files@[j as int].path@ == entries@[k as int].source_rel@);
                    }
                    break ;
                }
                j = j + 1;
            }
            if found {
                proof {
                    let f0 = choose|f0: int|
                        0 <= f0 < pkg.files@.len() && (#[trigger] pkg.files@[f0]).path@
                            == entries@[k as int].source_rel@;
                    assert(self.packages@[w as int].files@[f0].path@ == sv[k as int].0);
                }
            }
            if !found {
                proof {
                    assert(pkg.files@ == self.packages@[w as int].files@);
                    assert(!store_pkg_complete(self.packages@[w as int])) by {
                        if store_pkg_complete(self.packages@[w as int]) {
                            assert(source_listed(self.packages@[w as int], k as int));
                            let f0 = choose|f0: int|
                                0 <= f0 < self.packages@[w as int].files@.len() && (
                                #[trigger] self.packages@[w as int].files@[f0]).path@
                                    == crate::instlist::parse_instlist(
                                    self.packages@[w as int].instlist_text@,
                                )[k as int].0;
                            assert(pkg.files@[f0].path@ == sv[k as int].0);
                        }
                    }
                    assert forall|w2: int|
                        !(0 <= w2 < self.packages@.len() && (#[trigger] self.packages@[w2]).id@
                            == id@ && (forall|j2: int|
                            0 <= j2 < w2 ==> (#[trigger] self.packages@[j2]).id@ != id@)
                            && store_pkg_complete(self.packages@[w2])) by {
                        if 0 <= w2 < self.packages@.len() && self.packages@[w2].id@ == id@ && (
                        forall|j2: int|
                            0 <= j2 < w2 ==> (#[trigger] self.packages@[j2]).id@ != id@) {
                            assert(w2 == w);
                        }
                    }
                }
                return false;
            }
            k = k + 1;
        }
        proof {
            let p = self.packages@[w as int];
            assert(store_pkg_complete(p)) by {
                assert forall|x: int|
                    0 <= x < crate::instlist::parse_instlist(p.instlist_text@).len() implies
                    source_listed(p, x) by {
                    assert(crate::instlist::parse_instlist(p.instlist_text@)[x] == sv[x]);
                    let f0 = choose|f0: int|
                        0 <= f0 < p.files@.len() && (#[trigger] p.files@[f0]).path@ == (
                        #[trigger] sv[x]).0;
                    assert(p.files@[f0].path@ == crate::instlist::parse_instlist(
                        p.instlist_text@,
                    )[x].0);
                }
            }
        }
        true
    }

    /// The position of the first extracted package of the key.
    fn first_index_of(&self, id: &str) -> (r: Option<usize>)
        ensures
            match r {
                Some(w) => w < self.packages@.len() && self.packages@[w as int].id@ == id@ && (
                forall|j2: int| 0 <= j2 < w ==> (#[trigger] self.packages@[j2]).id@ != id@),
                None => forall|j2: int|
                    0 <= j2 < self.packages@.len() ==> (#[trigger] self.packages@[j2]).id@ != id@,
            },
    {
        let n = self.packages.len();
        let mut i: usize = 0;
        while i < n
            invariant
                0 <= i <= n,
                n == self.packages@.len(),
                forall|j2: int| 0 <= j2 < i ==> (#[trigger] self.packages@[j2]).id@ != id@,
            decreases n - i,
        {
            if str_eq(self.packages[i].id.as_str(), id) {
                return Some(i);
            }
            i = i + 1;
        }
        None
    }
}

/// One path the installer has materialized for a package.
#[derive(Clone, Debug)]
pub struct FsEntry {
    /// The absolute target path.
    pub path: String,
    /// The store path the target points at or was copied from.
    pub source: String,
    /// A symbolic link, or a plain copy.
    pub is_link: bool,
    /// The name of the owning package.
    pub owner_name: String,
    /// The identifier of the owning installation.
    pub owner_installation: String,
}

/// The user-visible filesystem, reduced to the paths this manager owns.
#[derive(Debug)]
pub struct TargetFs {
    pub entries: Vec<FsEntry>,
}

pub open spec fn fs_has_path(fs: TargetFs, path: Seq<char>) -> bool {
    exists|i: int| 0 <= i < fs.entries@.len() && (#[trigger] fs.entries@[i]).path@ == path
}

impl TargetFs {
    pub fn new() -> (r: TargetFs)
        ensures
            r.entries@.len() == 0,
    {
        TargetFs { entries: Vec::new() }
    }

    /// The entry at the path, if any.
    pub fn entry_at(&self, path: &str) -> (r: Option<&FsEntry>)
        ensures
            match r {
                Some(e) => e.path@ == path@ && fs_has_path(*self, path@),
                None => !fs_has_path(*self, path@),
            },
    {
        let n = self.entries.len();
        let mut i: usize = 0;
        while i < n
            invariant
                0 <= i <= n,
                n == self.entries@.len(),
                forall|k: int| 0 <= k < i ==> (#[trigger] self.entries@[k]).path@ != path@,
            decreases n - i,
        {
            if str_eq(self.entries[i].path.as_str(), path) {
                return Some(&self.entries[i]);
            }
            i = i + 1;
        }
        None
    }

    /// Deletes every entry of the owning installation.
    pub fn remove_owned_by(&mut self, installation_id: &str)
        ensures
            forall|i: int|
                0 <= i < final(self).entries@.len() ==> old(self).entries@.contains(
                    #[trigger] final(self).entries@[i],
                ) && (#[trigger] final(self).entries@[i]).owner_installation@ != installation_id@,
            forall|i: int|
                0 <= i < old(self).entries@.len() && (#[trigger] old(self).entries@[i]).owner_installation@ != installation_id@ ==> final(self).entries@.contains(old(self).entries@[i]),
    {
        let ghost orig = self.entries@;
        let n = self.entries.len();
        let mut j: usize = 0;
        let mut i: usize = 0;
        while j < n
            invariant
                0 <= j <= n,
                i <= j,
                n == orig.len(),
                orig == old(self).entries@,
                i == self.entries@.len() - (n - j),
                0 <= i <= self.entries@.len(),
                forall|k: int|
                    0 <= k < i ==> orig.contains(#[trigger] self.entries@[k]) && (
                    #[trigger] self.entries@[k]).owner_installation@ != installation_id@,
                forall|k: int|
                    i <= k < self.entries@.len() ==> #[trigger] self.entries@[k] == orig[k + (j
                        - i)],
                forall|k: int|
                    0 <= k < j && (#[trigger] orig[k]).owner_installation@ != installation_id@
                        ==> self.entries@.contains(orig[k]),
            decreases n - j,
        {
            proof {
                assert(self.entries@[i as int] == orig[j as int]);
                assert(orig.contains(orig[j as int]));
            }
            let ghost before = self.entries@;
            if str_eq(self.entries[i].owner_installation.as_str(), installation_id) {
                self.entries.remove(i);
                proof {
                    assert(forall|k: int|
                        0 <= k < i ==> #[trigger] self.entries@[k] == before[k]);
                    assert forall|k: int|
                        0 <= k < j + 1 && (#[trigger] orig[k]).owner_installation@
                            != installation_id@ implies self.entries@.contains(orig[k]) by {
                        if k < j {
                            let x = choose|x: int|
                                0 <= x < before.len() && before[x] == orig[k];
                            if x < i {
                                assert(self.entries@[x] == orig[k]);
                            } else if x > i {
                                assert(self.entries@[x - 1] == orig[k]);
                            }
                        }
                    }
                }
            } else {
                i = i + 1;
                proof {
                    assert(self.entries@[i - 1] == orig[j as int]);
                }
            }
            j = j + 1;
        }
    }
}

/// The on-disk cache of downloaded archives, keyed by the package key.
#[derive(Debug)]
pub struct CacheModel {
    pub archives: Vec<(String, Vec<u8>)>,
}

pub open spec fn cache_entry(c: CacheModel, key: Seq<char>) -> Option<Seq<u8>> {
    if exists|i: int| 0 <= i < c.archives@.len() && (#[trigger] c.archives@[i]).0@ == key {
        let i = choose|i: int| 0 <= i < c.archives@.len() && (#[trigger] c.archives@[i]).0@ == key;
        Some(c.archives@[i].1@)
    } else {
        None
    }
}

impl CacheModel {
    pub fn new() -> (r: CacheModel)
        ensures
            r.archives@.len() == 0,
    {
        CacheModel { archives: Vec::new() }
    }

    /// Whether an archive is cached under the key.
    pub fn has_package(&self, key: &str) -> (r: bool)
        ensures
            r == (cache_entry(*self, key@) is Some),
    {
        let n = self.archives.len();
        let mut i: usize = 0;
        while i < n
            invariant
                0 <= i <= n,
                n == self.archives@.len(),
                forall|k: int| 0 <= k < i ==> (#[trigger] self.archives@[k]).0@ != key@,
            decreases n - i,
        {
            if str_eq(self.archives[i].0.as_str(), key) {
                proof {
                    assert(cache_entry(*self, key@) is Some);
                }
                return true;
            }
            i = i + 1;
        }
        proof {
            if cache_entry(*self, key@) is Some {
                let x = choose|x: int|
                    0 <= x < self.archives@.len() && (#[trigger] self.archives@[x]).0@ == key@;
                assert(false);
            }
        }
        false
    }

    /// Caches an archive under the key; nothing happens when the key is
    /// already present, and a miss stores exactly these bytes.
    pub fn put_package(&mut self, key: &str, data: Vec<u8>)
        ensures
            cache_entry(*final(self), key@) is Some,
            cache_entry(*old(self), key@) is Some ==> *final(self) == *old(self),
            cache_entry(*old(self), key@) is None ==> cache_entry(*final(self), key@) == Some(
                data@,
            ),
            forall|i: int|
                0 <= i < old(self).archives@.len() ==> final(self).archives@.contains(
                    #[trigger] old(self).archives@[i],
                ),
    {
        if self.has_package(key) {
            proof {
                assert forall|i: int|
                    0 <= i < self.archives@.len() implies self.archives@.contains(
                    #[trigger] self.archives@[i],
                ) by {
                    assert(exists|j: int|
                        0 <= j < self.archives@.len() && self.archives@[j] == #[trigger] self
                            .archives@[i]);
                }
            }
            return ;
        }
        let ghost data_v = data@;
        let ghost before = self.archives@;
        self.archives.push((str_to_string(key), data));
        proof {
            assert forall|i: int|
                0 <= i < before.len() implies self.archives@.contains(#[trigger] before[i]) by {
                assert(self.archives@[i] == before[i]);
            }
            assert(forall|k: int|
                0 <= k < before.len() ==> #[trigger] self.archives@[k] == before[k]);
            assert((self.archives@[self.archives@.len() - 1]).0@ == key@);
            assert((self.archives@[self.archives@.len() - 1]).1@ == data_v);
            assert(cache_entry(*self, key@) is Some);
            let w = choose|w: int|
                0 <= w < self.archives@.len() && (#[trigger] self.archives@[w]).0@ == key@;
            assert(forall|k: int| 0 <= k < before.len() ==> (#[trigger] before[k]).0@ != key@);
            assert(w == self.archives@.len() - 1);
            assert(cache_entry(*self, key@) == Some(data_v));
        }
    }
}

/// A package a repository can hand over: its description, its archive
/// bytes, and the content the archive extracts to.
#[derive(Debug)]
pub struct AvailablePackage {
    pub package: Package,
    pub archive: Vec<u8>,
    pub meta: PackageMeta,
    pub instlist_text: String,
    pub files: Vec<StoreFile>,
}

/// The federation's snapshot: every package reachable through local and
/// remote repositories.
#[derive(Debug)]
pub struct Remote {
    pub packages: Vec<AvailablePackage>,
}

pub open spec fn remote_has(r: Remote, id: Seq<char>) -> bool {
    exists|i: int| 0 <= i < r.packages@.len() && (#[trigger] r.packages@[i]).package.id@ == id
}

/// A requirement the resolver can reach over the snapshot: a required
/// dependency of some snapshot package.
pub open spec fn snapshot_requirement(rem: Remote, d: crate::dependency::Dependency) -> bool {
    exists|i: int|
        0 <= i < rem.packages@.len() && crate::resolver::dep_like_in(
            (#[trigger] rem.packages@[i]).package.dependencies@,
            d,
        )
}

/// Whether some snapshot package satisfies the requirement.
pub open spec fn snapshot_satisfiable(rem: Remote, d: crate::dependency::Dependency) -> bool {
    exists|i: int|
        0 <= i < rem.packages@.len() && (#[trigger] rem.packages@[i]).package.name@ == d.name@
            && crate::vreq::req_matches(
            d.constraint.requirement@,
            rem.packages@[i].package.version@,
        )
}

/// Whether some snapshot package bears the name at this version.
pub open spec fn snapshot_version_among(
    rem: Remote,
    name: Seq<char>,
    v: crate::version::VersionView,
) -> bool {
    exists|i: int|
        0 <= i < rem.packages@.len() && (#[trigger] rem.packages@[i]).package.name@ == name
            && rem.packages@[i].package.version@ == v
}

/// An install-list text with an empty or prohibited target among its
/// entries.
pub open spec fn instlist_entry_bad(text: Seq<char>) -> bool {
    exists|k: int|
        0 <= k < crate::instlist::parse_instlist(text).len() && (((
        #[trigger] crate::instlist::parse_instlist(text)[k]).1.len() == 0) || is_system_path(
            crate::instlist::parse_instlist(text)[k].1,
        ))
}

/// Some extracted package's install list holds an empty or prohibited
/// target.
pub open spec fn store_instlist_bad(s: Store) -> bool {
    exists|w: int|
        0 <= w < s.packages@.len() && instlist_entry_bad(
            (#[trigger] s.packages@[w]).instlist_text@,
        )
}

/// Some snapshot package declares a checksum whose algorithm nothing here
/// computes.
pub open spec fn snapshot_algorithm_unknown(rem: Remote) -> bool {
    exists|i: int|
        0 <= i < rem.packages@.len() && ((#[trigger] rem.packages@[i]).package.checksum matches Some(
            c,
        ) && crate::checksum::checksum_verdict(c, rem.packages@[i].archive@) is None)
}

/// A duplicated package list that mirrors the snapshot field by field.
pub open spec fn mirrors_snapshot(available: Seq<Package>, rem: Remote) -> bool {
    available.len() == rem.packages@.len() && forall|k: int|
        0 <= k < available.len() ==> (#[trigger] available[k]).id@ == rem.packages@[k].package.id@
            && available[k].name@ == rem.packages@[k].package.name@ && available[k].version@
            == rem.packages@[k].package.version@ && available[k].dependencies@.len()
            == rem.packages@[k].package.dependencies@.len() && (forall|q: int|
            0 <= q < available[k].dependencies@.len()
                ==> (#[trigger] available[k].dependencies@[q]).name@
                == rem.packages@[k].package.dependencies@[q].name@
                && available[k].dependencies@[q].constraint.requirement@
                == rem.packages@[k].package.dependencies@[q].constraint.requirement@
                && available[k].dependencies@[q].kind
                == rem.packages@[k].package.dependencies@[q].kind)
}

/// A duplicated dependency list that mirrors another field by field.
pub open spec fn mirrors_deps(
    roots: Seq<crate::dependency::Dependency>,
    deps: Seq<crate::dependency::Dependency>,
) -> bool {
    roots.len() == deps.len() && forall|k: int|
        0 <= k < roots.len() ==> (#[trigger] roots[k]).name@ == deps[k].name@
            && roots[k].constraint.requirement@ == deps[k].constraint.requirement@
            && roots[k].kind == deps[k].kind
}

/// An obligation over the duplicated lists stands in the snapshot too.
proof fn lemma_obligation_to_snapshot(
    rem: Remote,
    main_index: int,
    available: Seq<Package>,
    roots: Seq<crate::dependency::Dependency>,
    d: crate::dependency::Dependency,
)
    requires
        mirrors_snapshot(available, rem),
        0 <= main_index < rem.packages@.len(),
        mirrors_deps(roots, rem.packages@[main_index].package.dependencies@),
        crate::resolver::obligation(available, roots, d),
    ensures
        snapshot_requirement(rem, d),
{
    if crate::resolver::dep_like_in(roots, d) {
        let w = choose|w: int|
            0 <= w < roots.len() && (#[trigger] roots[w]).name@ == d.name@
                && roots[w].constraint.requirement@ == d.constraint.requirement@ && roots[w].kind
                == crate::dependency::DependencyKind::Required;
        let deps_m = rem.packages@[main_index].package.dependencies@;
        assert(deps_m[w].name@ == d.name@);
        assert(deps_m[w].constraint.requirement@ == d.constraint.requirement@);
        assert(deps_m[w].kind == crate::dependency::DependencyKind::Required);
        assert(crate::resolver::dep_like_in(deps_m, d));
        assert(snapshot_requirement(rem, d));
    } else {
        let i0 = choose|i0: int|
            0 <= i0 < available.len() && crate::resolver::dep_like_in(
                (#[trigger] available[i0]).dependencies@,
                d,
            );
        let w = choose|w: int|
            0 <= w < available[i0].dependencies@.len() && (
            #[trigger] available[i0].dependencies@[w]).name@ == d.name@
                && available[i0].dependencies@[w].constraint.requirement@
                == d.constraint.requirement@ && available[i0].dependencies@[w].kind
                == crate::dependency::DependencyKind::Required;
        let deps_i = rem.packages@[i0].package.dependencies@;
        assert(deps_i[w].name@ == d.name@);
        assert(deps_i[w].constraint.requirement@ == d.constraint.requirement@);
        assert(deps_i[w].kind == crate::dependency::DependencyKind::Required);
        assert(crate::resolver::dep_like_in(deps_i, d));
        assert(snapshot_requirement(rem, d));
    }
}

/// A requirement no duplicated package satisfies, none of the snapshot
/// satisfies either.
proof fn lemma_unsat_to_snapshot(
    rem: Remote,
    available: Seq<Package>,
    d: crate::dependency::Dependency,
)
    requires
        mirrors_snapshot(available, rem),
        !crate::resolver::satisfiable(available, d),
    ensures
        !snapshot_satisfiable(rem, d),
{
    if snapshot_satisfiable(rem, d) {
        let i0 = choose|i0: int|
            0 <= i0 < rem.packages@.len() && (#[trigger] rem.packages@[i0]).package.name@
                == d.name@ && crate::vreq::req_matches(
                d.constraint.requirement@,
                rem.packages@[i0].package.version@,
            );
        assert(available[i0].name@ == d.name@);
        assert(crate::vreq::req_matches(d.constraint.requirement@, available[i0].version@));
        assert(crate::resolver::satisfiable(available, d));
    }
}

/// A version among the duplicated packages is a snapshot version.
proof fn lemma_version_to_snapshot(
    rem: Remote,
    available: Seq<Package>,
    name: Seq<char>,
    v: crate::version::VersionView,
)
    requires
        mirrors_snapshot(available, rem),
        crate::resolver::version_among(available, name, v),
    ensures
        snapshot_version_among(rem, name, v),
{
    let i0 = choose|i0: int|
        0 <= i0 < available.len() && (#[trigger] available[i0]).name@ == name
            && available[i0].version@ == v;
    assert(rem.packages@[i0].package.name@ == name);
    assert(rem.packages@[i0].package.version@ == v);
    assert(snapshot_version_among(rem, name, v));
}

/// The snapshot package's declared checksum rejects its own archive bytes.
pub open spec fn snapshot_checksum_bad(rem: Remote, id: Seq<char>) -> bool {
    exists|i: int|
        0 <= i < rem.packages@.len() && (#[trigger] rem.packages@[i]).package.id@ == id && (
        rem.packages@[i].package.checksum matches Some(c)
            && crate::checksum::checksum_verdict(c, rem.packages@[i].archive@) == Some(false))
}

impl Remote {
    /// The available package of the key, if any.
    pub fn find(&self, id: &str) -> (r: Option<&AvailablePackage>)
        ensures
            match r {
                Some(p) => p.package.id@ == id@ && remote_has(*self, id@),
                None => !remote_has(*self, id@),
            },
    {
        let n = self.packages.len();
        let mut i: usize = 0;
        while i < n
            invariant
                0 <= i <= n,
                n == self.packages@.len(),
                forall|k: int| 0 <= k < i ==> (#[trigger] self.packages@[k]).package.id@ != id@,
            decreases n - i,
        {
            if str_eq(self.packages[i].package.id.as_str(), id) {
                return Some(&self.packages[i]);
            }
            i = i + 1;
        }
        None
    }
}

/// A byte-for-byte copy.
fn dup_bytes(v: &Vec<u8>) -> (r: Vec<u8>)
    ensures
        r@ == v@,
{
    let mut r: Vec<u8> = Vec::new();
    let n = v.len();
    let mut i: usize = 0;
    while i < n
        invariant
            0 <= i <= n,
            n == v@.len(),
            r@ == v@.subrange(0, i as int),
        decreases n - i,
    {
        r.push(v[i]);
        proof {
            assert(r@ =~= v@.subrange(0, i + 1));
        }
        i = i + 1;
    }
    proof {
        assert(v@.subrange(0, n as int) =~= v@);
    }
    r
}

/// A copy of a package's extracted files.
fn dup_files(fs: &Vec<StoreFile>) -> (r: Vec<StoreFile>)
    ensures
        r@.len() == fs@.len(),
        forall|i: int|
            0 <= i < r@.len() ==> (#[trigger] r@[i]).path@ == fs@[i].path@ && r@[i].data@
                == fs@[i].data@,
{
    let mut r: Vec<StoreFile> = Vec::new();
    let n = fs.len();
    let mut i: usize = 0;
    while i < n
        invariant
            0 <= i <= n,
            n == fs@.len(),
            r@.len() == i,
            forall|k: int|
                0 <= k < i ==> (#[trigger] r@[k]).path@ == fs@[k].path@ && r@[k].data@
                    == fs@[k].data@,
        decreases n - i,
    {
        r.push(
            StoreFile {
                path: str_to_string(fs[i].path.as_str()),
                data: dup_bytes(&fs[i].data),
            },
        );
        i = i + 1;
    }
    r
}

/// A copy of a metadata record.
fn dup_meta(m: &PackageMeta) -> (r: PackageMeta)
    ensures
        r.name@ == m.name@,
        r.version@ == m.version@,
        r.author@ == m.author@,
{
    let mut dependencies: Vec<String> = Vec::new();
    let n = m.dependencies.len();
    let mut i: usize = 0;
    while i < n
        invariant
            0 <= i <= n,
            n == m.dependencies@.len(),
        decreases n - i,
    {
        dependencies.push(str_to_string(m.dependencies[i].as_str()));
        i = i + 1;
    }
    PackageMeta {
        name: str_to_string(m.name.as_str()),
        version: str_to_string(m.version.as_str()),
        author: str_to_string(m.author.as_str()),
        description: match &m.description {
            Some(d) => Some(str_to_string(d.as_str())),
            None => None,
        },
        dependencies,
        provides: None,
        conflicts: None,
    }
}

/// One installation row per package key.
pub open spec fn one_inst_per_pkg(is: Seq<Installation>) -> bool {
    forall|i: int, j: int|
        0 <= i < j < is.len() ==> (#[trigger] is[i]).package_id@ != (
        #[trigger] is[j]).package_id@
}

/// A counted key held by exactly one row.
proof fn lemma_count_single(is: Seq<Installation>, pid: Seq<char>)
    requires
        has_inst_for(is, pid),
        one_inst_per_pkg(is),
    ensures
        crate::ledger::count_inst_for(is, pid) == 1,
    decreases is.len(),
{
    if is.len() > 0 {
        let pre = is.drop_last();
        assert(forall|a: int, b: int|
            0 <= a < b < pre.len() ==> (#[trigger] pre[a]).package_id@ != (
            #[trigger] pre[b]).package_id@);
        if is.last().package_id@ == pid {
            assert forall|i: int| 0 <= i < pre.len() implies (#[trigger] pre[i]).package_id@
                != pid by {
                assert(is[i] == pre[i]);
                assert(is[is.len() - 1].package_id@ == pid);
            }
            lemma_count_none(pre, pid);
        } else {
            let w = choose|i: int| 0 <= i < is.len() && (#[trigger] is[i]).package_id@ == pid;
            assert(w < is.len() - 1);
            assert(pre[w].package_id@ == pid);
            assert(has_inst_for(pre, pid));
            lemma_count_single(pre, pid);
        }
    }
}

/// A key no row holds is counted zero times.
proof fn lemma_count_none(is: Seq<Installation>, pid: Seq<char>)
    requires
        forall|i: int| 0 <= i < is.len() ==> (#[trigger] is[i]).package_id@ != pid,
    ensures
        crate::ledger::count_inst_for(is, pid) == 0,
    decreases is.len(),
{
    if is.len() > 0 {
        let pre = is.drop_last();
        assert(forall|i: int|
            0 <= i < pre.len() ==> (#[trigger] pre[i]).package_id@ == is[i].package_id@);
        lemma_count_none(pre, pid);
    }
}

/// One installation row reflected by a package row: the package stands
/// installed, and active when the installation is.
pub open spec fn inst_reflected_one(l: Ledger, inst: Installation) -> bool {
    exists|j: int|
        0 <= j < l.packages@.len() && (#[trigger] l.packages@[j]).id@ == inst.package_id@
            && l.packages@[j].installed && (inst.active ==> l.packages@[j].active)
}

/// Every installation row is reflected by a package row.
pub open spec fn insts_reflected(l: Ledger) -> bool {
    forall|i: int|
        0 <= i < l.installations@.len() ==> inst_reflected_one(
            l,
            #[trigger] l.installations@[i],
        )
}

/// A sound engine: a sound ledger, one installation row per package, and
/// every installation reflected by its package row.
pub open spec fn engine_wf(e: Engine) -> bool {
    &&& ledger_wf(e.ledger)
    &&& one_inst_per_pkg(e.ledger.installations@)
    &&& insts_reflected(e.ledger)
}

/// A run of download events: started and completed, pairwise, each pair
/// naming one package.
pub open spec fn download_pairs(s: Seq<PackageEvent>) -> bool
    decreases s.len(),
{
    if s.len() == 0 {
        true
    } else if s.len() == 1 {
        false
    } else {
        &&& s[0] matches PackageEvent::DownloadStarted { package_ref: r1, .. } && (s[1] matches
            PackageEvent::DownloadCompleted { package_ref: r2 } && r1.name@ == r2.name@
            && r1.version@ == r2.version@)
        &&& download_pairs(s.skip(2))
    }
}

/// Download runs append to download runs.
proof fn lemma_download_pairs_append(a: Seq<PackageEvent>, b: Seq<PackageEvent>)
    requires
        download_pairs(a),
        download_pairs(b),
    ensures
        download_pairs(a + b),
    decreases a.len(),
{
    if a.len() == 0 {
        assert(a + b =~= b);
    } else {
        assert(a.len() >= 2);
        lemma_download_pairs_append(a.skip(2), b);
        assert((a + b).len() >= 2);
        assert((a + b)[0] == a[0]);
        assert((a + b)[1] == a[1]);
        assert((a + b).skip(2) =~= a.skip(2) + b);
    }
}

/// A search result: one of the snapshot's packages, its name holding the
/// query.
pub open spec fn search_hit(rem: Remote, query: Seq<char>, p: Package) -> bool {
    exists|j: int|
        0 <= j < rem.packages@.len() && (#[trigger] rem.packages@[j]).package.id@ == p.id@
            && rem.packages@[j].package.name@ == p.name@ && rem.packages@[j].package.version@
            == p.version@ && crate::text::contains_seq(rem.packages@[j].package.name@, query)
}

/// What an install call returns.
#[derive(Debug)]
pub struct InstallResult {
    pub package_id: PackageId,
    pub installed_files: Vec<String>,
    pub symlinks_created: usize,
}

/// What a removal returns.
#[derive(Debug)]
pub struct RemovalResult {
    pub package_id: PackageId,
    pub removed_files: usize,
    pub freed_space: usize,
}

/// What a version switch returns.
#[derive(Debug)]
pub struct SwitchResult {
    pub package_name: String,
    pub from_version: Option<crate::version::Version>,
    pub to_version: crate::version::Version,
    pub removed_files: usize,
    pub installed_files: usize,
    pub warnings: Vec<String>,
}

/// The engine: every state the protocols touch, as data.
#[derive(Debug)]
pub struct Engine {
    pub ledger: Ledger,
    pub store: Store,
    pub fs: TargetFs,
    pub cache: CacheModel,
    pub remote: Remote,
    pub events: Vec<PackageEvent>,
    pub packages_dir: String,
    pub use_links: bool,
}

impl Engine {
    /// A fresh engine over the given federation snapshot.
    pub fn new(remote: Remote, packages_dir: String, use_links: bool) -> (r: Engine)
        ensures
            engine_wf(r),
            r.ledger.installations@.len() == 0,
            r.ledger.packages@.len() == 0,
            r.fs.entries@.len() == 0,
            r.events@.len() == 0,
    {
        Engine {
            ledger: Ledger::new(),
            store: Store::new(),
            fs: TargetFs::new(),
            cache: CacheModel::new(),
            remote,
            events: Vec::new(),
            packages_dir,
            use_links,
        }
    }

    /// Installs one extracted package's install list into the filesystem.
    /// Nothing is written unless every entry is admissible: a target in a
    /// system directory is a validation error, and a target owned by
    /// another package is an installation error. A target already owned by
    /// this package's own name is kept as it is, so running the step again
    /// changes nothing and returns the same links. A source below which
    /// other stored files lie is a directory and is linked as one; a
    /// source that is itself a stored file is linked as a file and its
    /// byte count recorded.
    pub fn materialize(&mut self, sp_index: usize, owner_name: &str, owner_inst: &str) -> (r:
        Result<(Vec<Symlink>, Vec<(String, FileMetadata)>), UhpmError>)
        requires
            sp_index < old(self).store.packages@.len(),
        ensures
            final(self).ledger == old(self).ledger,
            final(self).store == old(self).store,
            final(self).cache == old(self).cache,
            final(self).events == old(self).events,
            final(self).remote == old(self).remote,
            final(self).packages_dir == old(self).packages_dir,
            final(self).use_links == old(self).use_links,
            match r {
                Ok(lf) => {
                    let sv = crate::instlist::parse_instlist(
                        old(self).store.packages@[sp_index as int].instlist_text@,
                    );
                    let prefix = old(self).packages_dir@ + seq!['/'] + old(
                        self,
                    ).store.packages@[sp_index as int].id@;
                    &&& (forall|i: int|
                        0 <= i < old(self).fs.entries@.len() ==> final(self).fs.entries@.contains(
                            #[trigger] old(self).fs.entries@[i],
                        ))
                    &&& (forall|k: int| 0 <= k < sv.len() ==> !is_system_path((#[trigger] sv[k]).1))
                    &&& lf.0@.len() == sv.len()
                    &&& lf.1@.len() == sv.len()
                    &&& (forall|k: int|
                        0 <= k < sv.len() ==> (#[trigger] lf.0@[k]).target@ == sv[k].1
                            && lf.0@[k].source@ == prefix + seq!['/'] + sv[k].0 && lf.0@[k].link_type
                            == (if source_is_dir(
                            old(self).store.packages@[sp_index as int].files@,
                            sv[k].0,
                        ) {
                            SymlinkType::Directory
                        } else {
                            SymlinkType::File
                        }))
                    &&& (forall|k: int|
                        0 <= k < sv.len() ==> (#[trigger] lf.1@[k]).0@ == sv[k].1
                            && lf.1@[k].1.path@ == sv[k].1 && lf.1@[k].1.size as int == stored_size(
                            old(self).store.packages@[sp_index as int].files@,
                            sv[k].0,
                        ))
                    &&& ((forall|k: int|
                        0 <= k < sv.len() ==> fs_has_path(old(self).fs, (#[trigger] sv[k]).1))
                        ==> final(self).fs == old(self).fs)
                },
                Err(e) => final(self).fs == old(self).fs && (e matches UhpmError::ValidationError(
                    _,
                ) || e matches UhpmError::InstallationError(_)) && (e matches
                    UhpmError::ValidationError(_) ==> instlist_entry_bad(
                    old(self).store.packages@[sp_index as int].instlist_text@,
                )),
            },
    {
        let entries = parse_instlist_text(self.store.packages[sp_index].instlist_text.as_str());
        let ghost sv = crate::instlist::parse_instlist(
            old(self).store.packages@[sp_index as int].instlist_text@,
        );
        proof {
            assert(crate::instlist::entry_views(entries@) == sv);
            assert(entries@.len() == sv.len());
        }
        let pkg_path = crate::meta::store_package_path(
            self.packages_dir.as_str(),
            self.store.packages[sp_index].id.as_str(),
        );
        let ghost prefix = old(self).packages_dir@ + seq!['/'] + old(
            self,
        ).store.packages@[sp_index as int].id@;
        proof {
            assert(pkg_path@ == prefix);
        }
        let n = entries.len();
        // first pass: admit or refuse, writing nothing
        let mut k: usize = 0;
        while k < n
            invariant
                0 <= k <= n,
                n == entries@.len(),
                n == sv.len(),
                crate::instlist::entry_views(entries@) == sv,
                sv == crate::instlist::parse_instlist(
                    old(self).store.packages@[sp_index as int].instlist_text@,
                ),
                *self == *old(self),
                sp_index < self.store.packages@.len(),
                forall|j: int| 0 <= j < k ==> !is_system_path((#[trigger] sv[j]).1),
            decreases n - k,
        {
            proof {
                assert(sv[k as int] == crate::instlist::entry_views(entries@)[k as int]);
            }
            let target = entries[k].target_abs.as_str();
            if target.unicode_len() == 0 {
                proof {
                    let text = old(self).store.packages@[sp_index as int].instlist_text@;
                    assert(crate::instlist::parse_instlist(text) == sv);
                    assert((crate::instlist::parse_instlist(text)[k as int]).1.len() == 0);
                    assert(instlist_entry_bad(text));
                }
                return Err(UhpmError::validation("install-list target cannot be empty"));
            }
            if InstallationFactory::is_system_directory(&entries[k].target_abs) {
                proof {
                    let text = old(self).store.packages@[sp_index as int].instlist_text@;
                    assert(crate::instlist::parse_instlist(text) == sv);
                    assert(is_system_path((crate::instlist::parse_instlist(text)[k as int]).1));
                    assert(instlist_entry_bad(text));
                }
                return Err(
                    UhpmError::validation("install-list target lies in a system directory"),
                );
            }
            match self.fs.entry_at(target) {
                Some(e) => {
                    if !str_eq(e.owner_name.as_str(), owner_name) {
                        return Err(
                            UhpmError::installation(
                                "target path is owned by another installation",
                            ),
                        );
                    }
                },
                None => {},
            }
            k = k + 1;
        }
        // second pass: write what is missing, record everything
        let mut links: Vec<Symlink> = Vec::new();
        let mut files: Vec<(String, FileMetadata)> = Vec::new();
        let mut k2: usize = 0;
        while k2 < n
            invariant
                0 <= k2 <= n,
                n == entries@.len(),
                n == sv.len(),
                crate::instlist::entry_views(entries@) == sv,
                pkg_path@ == prefix,
                sp_index < self.store.packages@.len(),
                self.ledger == old(self).ledger,
                self.store == old(self).store,
                self.cache == old(self).cache,
                self.events == old(self).events,
                self.remote == old(self).remote,
                self.packages_dir == old(self).packages_dir,
                self.use_links == old(self).use_links,
                links@.len() == k2,
                files@.len() == k2,
                forall|j: int|
                    0 <= j < k2 ==> (#[trigger] links@[j]).target@ == sv[j].1 && links@[j].source@
                        == prefix + seq!['/'] + sv[j].0 && links@[j].link_type == (if source_is_dir(
                        old(self).store.packages@[sp_index as int].files@,
                        sv[j].0,
                    ) {
                        SymlinkType::Directory
                    } else {
                        SymlinkType::File
                    }),
                forall|j: int|
                    0 <= j < k2 ==> (#[trigger] files@[j]).0@ == sv[j].1 && files@[j].1.path@
                        == sv[j].1 && files@[j].1.size as int == stored_size(
                        old(self).store.packages@[sp_index as int].files@,
                        sv[j].0,
                    ),
                forall|i: int|
                    0 <= i < old(self).fs.entries@.len() ==> self.fs.entries@.contains(
                        #[trigger] old(self).fs.entries@[i],
                    ),
                (forall|j: int| 0 <= j < sv.len() ==> fs_has_path(old(self).fs, (#[trigger] sv[j]).1))
                    ==> self.fs == old(self).fs,
            decreases n - k2,
        {
            proof {
                assert(sv[k2 as int] == crate::instlist::entry_views(entries@)[k2 as int]);
            }
            let mut source_abs = str_to_string(pkg_path.as_str());
            push_char(&mut source_abs, '/');
            source_abs.append(entries[k2].source_rel.as_str());
            let target = str_to_string(entries[k2].target_abs.as_str());
            let present = match self.fs.entry_at(target.as_str()) {
                Some(_) => true,
                None => false,
            };
            if !present {
                let ghost before = self.fs.entries@;
                self.fs.entries.push(
                    FsEntry {
                        path: str_to_string(target.as_str()),
                        source: str_to_string(source_abs.as_str()),
                        is_link: self.use_links,
                        owner_name: str_to_string(owner_name),
                        owner_installation: str_to_string(owner_inst),
                    },
                );
                proof {
                    assert(forall|x: int|
                        0 <= x < before.len() ==> #[trigger] self.fs.entries@[x] == before[x]);
                    assert forall|i: int|
                        0 <= i < old(self).fs.entries@.len() implies self.fs.entries@.contains(
                        #[trigger] old(self).fs.entries@[i],
                    ) by {
                        let w = choose|w: int|
                            0 <= w < before.len() && before[w] == old(self).fs.entries@[i];
                        assert(self.fs.entries@[w] == old(self).fs.entries@[i]);
                    }
                }
            }
            let is_dir = source_dir_check(
                &self.store.packages[sp_index].files,
                entries[k2].source_rel.as_str(),
            );
            let size = stored_size_of(
                &self.store.packages[sp_index].files,
                entries[k2].source_rel.as_str(),
            );
            links.push(
                Symlink::new(
                    str_to_string(source_abs.as_str()),
                    str_to_string(target.as_str()),
                    if is_dir {
                        SymlinkType::Directory
                    } else {
                        SymlinkType::File
                    },
                ),
            );
            files.push((str_to_string(target.as_str()), FileMetadata::new(target, size as u64)));
            k2 = k2 + 1;
        }
        Ok((links, files))
    }

    /// Brings one available package in: download through the cache with
    /// checksum verification, extraction into the store, materialization,
    /// and the ledger rows, the installation active only when asked.
    /// Neither extraction nor materialization writes a ledger row: the row
    /// appears last, so stopping before it leaves the ledger without one.
    fn install_unit(&mut self, avail_index: usize, make_active: bool) -> (r: Result<
        (Vec<String>, usize),
        UhpmError,
    >)
        requires
            engine_wf(*old(self)),
            avail_index < old(self).remote.packages@.len(),
            make_active ==> forall|i: int|
                0 <= i < old(self).ledger.installations@.len() && (#[trigger] old(self).ledger.installations@[i]).active ==> id_name(
                    old(self).ledger.installations@[i].package_id@,
                ) != id_name(old(self).remote.packages@[avail_index as int].package.id@),
        ensures
            engine_wf(*final(self)),
            final(self).remote == old(self).remote,
            match r {
                Ok(_) => {
                    let pid = old(self).remote.packages@[avail_index as int].package.id@;
                    &&& has_inst_for(final(self).ledger.installations@, pid)
                    &&& crate::ledger::count_inst_for(final(self).ledger.installations@, pid) == 1
                    &&& has_pkg(final(self).ledger.packages@, pid)
                    &&& crate::ledger::pkg_row_state(
                        final(self).ledger.packages@,
                        pid,
                        true,
                        make_active,
                    )
                    &&& (make_active ==> has_active_inst_for(
                        final(self).ledger.installations@,
                        pid,
                    ))
                    &&& (forall|j: int|
                        0 <= j < old(self).ledger.installations@.len() && (#[trigger] old(
                            self,
                        ).ledger.installations@[j]).package_id@ != pid
                            ==> final(self).ledger.installations@.contains(
                            old(self).ledger.installations@[j],
                        ))
                    &&& (forall|j: int|
                        0 <= j < final(self).ledger.installations@.len()
                            && (#[trigger] final(self).ledger.installations@[j]).package_id@
                            != pid ==> old(self).ledger.installations@.contains(
                            final(self).ledger.installations@[j],
                        ))
                    &&& (forall|j: int|
                        0 <= j < old(self).ledger.packages@.len() && (#[trigger] old(
                            self,
                        ).ledger.packages@[j]).id@ != pid ==> final(self).ledger.packages@.contains(
                            old(self).ledger.packages@[j],
                        ))
                },
                Err(e) => final(self).ledger == old(self).ledger && (e matches
                    UhpmError::ChecksumMismatch(w) ==> cache_entry(final(self).cache, w@)
                    == cache_entry(old(self).cache, w@) && w@ == old(
                    self,
                ).remote.packages@[avail_index as int].package.id@ && snapshot_checksum_bad(
                    old(self).remote,
                    w@,
                )),
            },
            !make_active ==> forall|i: int|
                0 <= i < final(self).ledger.installations@.len() && (#[trigger] final(self).ledger.installations@[i]).active ==> old(self).ledger.installations@.contains(
                    final(self).ledger.installations@[i],
                ),
            r matches Err(e2) ==> (e2 matches UhpmError::ChecksumMismatch(_) || e2 matches
                UhpmError::ValidationError(_) || e2 matches UhpmError::InstallationError(_)),
            r matches Err(UhpmError::ValidationError(_)) ==> store_instlist_bad(final(self).store)
                || (old(self).remote.packages@[avail_index as int].package.checksum matches Some(c)
                && crate::checksum::checksum_verdict(
                c,
                old(self).remote.packages@[avail_index as int].archive@,
            ) is None),
            r is Ok ==> final(self).events@.subrange(0, old(self).events@.len() as int) == old(
                self,
            ).events@ && (final(self).events@.len() == old(self).events@.len() || final(self).events@.len() == old(self).events@.len() + 2) && download_pairs(
                final(self).events@.skip(old(self).events@.len() as int),
            ),
    {
        let ghost events0 = self.events@;
        let id = str_to_string(self.remote.packages[avail_index].package.id.as_str());
        // download into the cache, checking the declared checksum
        if !self.cache.has_package(id.as_str()) {
            let pref = self.remote.packages[avail_index].package.reference();
            self.events.push(PackageEvent::DownloadStarted { package_ref: pref, size: None });
            let bytes = dup_bytes(&self.remote.packages[avail_index].archive);
            match accept_download(
                &self.remote.packages[avail_index].package.checksum,
                bytes.as_slice(),
                id.as_str(),
            ) {
                Ok(()) => {},
                Err(e) => {
                    proof {
                        match &e {
                            UhpmError::ChecksumMismatch(w) => {
                                assert(self.remote == old(self).remote);
                                assert(w@ == old(
                                    self,
                                ).remote.packages@[avail_index as int].package.id@);
                                assert(old(
                                    self,
                                ).remote.packages@[avail_index as int].package.checksum matches Some(
                                    c,
                                ) && crate::checksum::checksum_verdict(
                                    c,
                                    old(self).remote.packages@[avail_index as int].archive@,
                                ) == Some(false));
                                assert(snapshot_checksum_bad(old(self).remote, w@));
                            },
                            UhpmError::ValidationError(_) => {
                                assert(self.remote == old(self).remote);
                                assert(old(
                                    self,
                                ).remote.packages@[avail_index as int].package.checksum matches Some(
                                    c,
                                ) && crate::checksum::checksum_verdict(
                                    c,
                                    old(self).remote.packages@[avail_index as int].archive@,
                                ) is None);
                            },
                            _ => {},
                        }
                    }
                    return Err(e);
                },
            }
            self.cache.put_package(id.as_str(), bytes);
            let pref2 = self.remote.packages[avail_index].package.reference();
            self.events.push(PackageEvent::DownloadCompleted { package_ref: pref2 });
            proof {
                assert(self.events@.len() == events0.len() + 2);
                assert(self.events@.subrange(0, events0.len() as int) =~= events0);
                let tail = self.events@.skip(events0.len() as int);
                assert(tail.len() == 2);
                assert(tail[0] == self.events@[events0.len() as int]);
                assert(tail[1] == self.events@[events0.len() as int + 1]);
                assert(tail.skip(2) =~= Seq::<PackageEvent>::empty());
                assert(download_pairs(Seq::<PackageEvent>::empty()));
                assert(download_pairs(tail.skip(2)));
                assert(download_pairs(tail)) by {
                    assert(tail[0] matches PackageEvent::DownloadStarted { package_ref: r1, .. }
                        && (tail[1] matches PackageEvent::DownloadCompleted { package_ref: r2 }
                        && r1.name@ == r2.name@ && r1.version@ == r2.version@));
                }
            }
        } else {
            proof {
                assert(self.events@.subrange(0, events0.len() as int) =~= events0);
                assert(self.events@.skip(events0.len() as int) =~= Seq::<PackageEvent>::empty());
            }
        }
        // extract into the store when absent or incomplete
        if !self.store.has_package(id.as_str()) || !self.store.verify_integrity(id.as_str()) {
            let sp = StorePackage {
                id: PackageId(str_to_string(id.as_str())),
                meta: dup_meta(&self.remote.packages[avail_index].meta),
                instlist_text: str_to_string(
                    self.remote.packages[avail_index].instlist_text.as_str(),
                ),
                files: dup_files(&self.remote.packages[avail_index].files),
            };
            self.store.put_package(sp);
        }
        // materialize and record
        let sp_index = match self.store_index_of(id.as_str()) {
            Some(i) => i,
            None => {
                return Err(UhpmError::installation("package missing from store"));
            },
        };
        let owner_name = str_to_string(self.remote.packages[avail_index].package.name.as_str());
        let mut installation = InstallationFactory::create(
            PackageId(str_to_string(id.as_str())),
        );
        let owner_inst = installation.id.to_string();
        // a fresh identifier that collides with a stored row would silently
        // clobber another package's installation; refuse instead
        match self.ledger.get_installation(owner_inst.as_str()) {
            Some(_) => {
                return Err(UhpmError::installation("installation identifier collision"));
            },
            None => {},
        }
        proof {
            assert(forall|j: int|
                0 <= j < old(self).ledger.installations@.len() ==> (#[trigger] old(
                    self,
                ).ledger.installations@[j]).id.text@ != owner_inst@);
        }
        let (links, files) = match self.materialize(
            sp_index,
            owner_name.as_str(),
            owner_inst.as_str(),
        ) {
            Ok(x) => x,
            Err(e) => {
                proof {
                    match &e {
                        UhpmError::ValidationError(_) => {
                            assert(instlist_entry_bad(
                                self.store.packages@[sp_index as int].instlist_text@,
                            ));
                            assert(store_instlist_bad(self.store));
                        },
                        _ => {},
                    }
                }
                return Err(e);
            },
        };
        let mut file_paths: Vec<String> = Vec::new();
        let fn_count = files.len();
        let mut fi: usize = 0;
        let mut files_mut = files;
        while fi < fn_count
            invariant
                0 <= fi <= fn_count,
                fn_count == files_mut@.len(),
                crate::installation::files_unique(installation.installed_files@),
                installation.package_id@ == old(self).remote.packages@[avail_index as int].package.id@,
                installation.id.text@ == owner_inst@,
                installation.active == false,
            decreases fn_count - fi,
        {
            file_paths.push(str_to_string(files_mut[fi].0.as_str()));
            let path_copy = str_to_string(files_mut[fi].0.as_str());
            let meta_copy = FileMetadata::new(
                str_to_string(files_mut[fi].0.as_str()),
                files_mut[fi].1.size,
            );
            installation.add_installed_file(path_copy, meta_copy);
            fi = fi + 1;
        }
        let ln = links.len();
        let mut li: usize = 0;
        while li < ln
            invariant
                0 <= li <= ln,
                ln == links@.len(),
                installation.package_id@ == old(self).remote.packages@[avail_index as int].package.id@,
                installation.id.text@ == owner_inst@,
                installation.active == false,
            decreases ln - li,
        {
            installation.add_symlink(links[li].duplicate());
            li = li + 1;
        }
        if make_active {
            installation.activate();
        }
        // the ledger transaction: the package row and exactly one
        // installation row
        let mut row = self.remote.packages[avail_index].package.duplicate();
        row.set_installed(true);
        row.set_active(make_active);
        let ghost pid = old(self).remote.packages@[avail_index as int].package.id@;
        proof {
            assert(row.id@ == pid);
        }
        let ghost pre_removal = self.ledger.installations@;
        self.ledger.remove_installations_for(id.as_str());
        proof {
            assert(!has_inst_for(self.ledger.installations@, id@));
            assert forall|i: int, j: int|
                0 <= i < j < self.ledger.installations@.len() implies (
            #[trigger] self.ledger.installations@[i]).package_id@ != (
            #[trigger] self.ledger.installations@[j]).package_id@ by {
                crate::ledger::lemma_filter_members(
                    pre_removal,
                    |inst: Installation| inst.package_id@ != id@,
                    i,
                    j,
                );
                let (x, y) = choose|x: int, y: int|
                    0 <= x < y < pre_removal.len() && pre_removal[x]
                        == #[trigger] self.ledger.installations@[i] && pre_removal[y]
                        == #[trigger] self.ledger.installations@[j];
                assert(pre_removal[x].package_id@ != pre_removal[y].package_id@);
            }
        }
        let ghost mid = self.ledger.installations@;
        proof {
            assert(installation.package_id@ == pid);
            if installation.active {
                assert forall|i: int|
                    0 <= i < mid.len() && (#[trigger] mid[i]).active implies id_name(
                    mid[i].package_id@,
                ) != id_name(installation.package_id@) by {
                    crate::ledger::lemma_filter_member_one(
                        pre_removal,
                        |inst: Installation| inst.package_id@ != id@,
                        i,
                    );
                    let w = choose|w: int| 0 <= w < pre_removal.len() && pre_removal[w] == mid[i];
                    assert(old(self).ledger.installations@[w] == mid[i]);
                    assert(old(self).ledger.installations@[w].active);
                }
            }
        }
        self.ledger.save_installation(installation);
        proof {
            assert(has_inst_for(self.ledger.installations@, pid));
            assert forall|i: int, j: int|
                0 <= i < j < self.ledger.installations@.len() implies (
            #[trigger] self.ledger.installations@[i]).package_id@ != (
            #[trigger] self.ledger.installations@[j]).package_id@ by {
                let a = self.ledger.installations@[i];
                let b = self.ledger.installations@[j];
                if a.package_id@ == b.package_id@ {
                    if a.id.text@ != owner_inst@ && b.id.text@ != owner_inst@ {
                        let wa = choose|w: int| 0 <= w < mid.len() && mid[w] == a;
                        let wb = choose|w: int| 0 <= w < mid.len() && mid[w] == b;
                        assert(mid[wa].package_id@ != id@ || mid[wb].package_id@ != id@ || wa
                            == wb);
                        assert(false);
                    } else if a.id.text@ == owner_inst@ && b.id.text@ == owner_inst@ {
                        assert(false);
                    } else {
                        if a.id.text@ == owner_inst@ {
                            let wb = choose|w: int| 0 <= w < mid.len() && mid[w] == b;
                            assert(mid[wb].package_id@ != id@);
                            assert(false);
                        } else {
                            let wa = choose|w: int| 0 <= w < mid.len() && mid[w] == a;
                            assert(mid[wa].package_id@ != id@);
                            assert(false);
                        }
                    }
                }
            }
            lemma_count_single(self.ledger.installations@, pid);
            if !make_active {
                assert forall|i: int|
                    0 <= i < self.ledger.installations@.len() && (
                #[trigger] self.ledger.installations@[i]).active implies old(self).ledger.installations@.contains(self.ledger.installations@[i]) by {
                    let rowv = self.ledger.installations@[i];
                    if rowv.id.text@ == owner_inst@ {
                        let w = choose|w: int|
                            0 <= w < self.ledger.installations@.len()
                                && #[trigger] self.ledger.installations@[w] == installation;
                        assert(self.ledger.installations@[w].id.text@ == owner_inst@);
                        assert(w == i);
                        assert(!installation.active);
                        assert(false);
                    } else {
                        let w = choose|w: int| 0 <= w < mid.len() && mid[w] == rowv;
                        crate::ledger::lemma_filter_member_one(
                            pre_removal,
                            |inst: Installation| inst.package_id@ != id@,
                            w,
                        );
                        let x = choose|x: int|
                            0 <= x < pre_removal.len() && pre_removal[x] == mid[w];
                        assert(old(self).ledger.installations@[x] == rowv);
                        assert(old(self).ledger.installations@.contains(rowv));
                    }
                }
            }
        }
        let ghost rowg = row;
        let ghost pre_pkg_save = self.ledger.packages@;
        self.ledger.save_package(row);
        proof {
            assert(pre_pkg_save == old(self).ledger.packages@);
            assert forall|i: int| 0 <= i < self.ledger.installations@.len() implies
                inst_reflected_one(self.ledger, #[trigger] self.ledger.installations@[i]) by {
                let inst_i = self.ledger.installations@[i];
                assert(rowg.id@ == id@);
                if inst_i.id.text@ == owner_inst@ {
                    let wi = choose|wi: int|
                        0 <= wi < self.ledger.installations@.len()
                            && #[trigger] self.ledger.installations@[wi] == installation;
                    assert(self.ledger.installations@[wi].id.text@ == owner_inst@);
                    assert(wi == i);
                    let jw = choose|jw: int|
                        0 <= jw < self.ledger.packages@.len()
                            && #[trigger] self.ledger.packages@[jw] == rowg;
                    assert(self.ledger.packages@[jw].id@ == inst_i.package_id@);
                    assert(self.ledger.packages@[jw].installed);
                    assert(inst_reflected_one(self.ledger, inst_i));
                } else {
                    let w = choose|w: int| 0 <= w < mid.len() && mid[w] == inst_i;
                    crate::ledger::lemma_filter_member_one(
                        pre_removal,
                        |inst: Installation| inst.package_id@ != id@,
                        w,
                    );
                    let x = choose|x: int|
                        0 <= x < pre_removal.len() && pre_removal[x] == mid[w];
                    assert(old(self).ledger.installations@[x] == inst_i);
                    let j0 = choose|j0: int|
                        0 <= j0 < old(self).ledger.packages@.len() && (#[trigger] old(
                            self,
                        ).ledger.packages@[j0]).id@ == inst_i.package_id@ && old(
                            self,
                        ).ledger.packages@[j0].installed && (inst_i.active ==> old(
                            self,
                        ).ledger.packages@[j0].active);
                    assert(inst_i.package_id@ != id@);
                    assert(old(self).ledger.packages@[j0].id@ != rowg.id@);
                    assert(self.ledger.packages@.contains(old(self).ledger.packages@[j0]));
                    let jw = choose|jw: int|
                        0 <= jw < self.ledger.packages@.len()
                            && #[trigger] self.ledger.packages@[jw] == old(
                            self,
                        ).ledger.packages@[j0];
                    assert(self.ledger.packages@[jw].installed);
                }
            }
        }
        proof {
            assert(id@ == pid);
            assert forall|j: int|
                0 <= j < old(self).ledger.installations@.len() && (#[trigger] old(
                    self,
                ).ledger.installations@[j]).package_id@ != pid implies self.ledger.installations@.contains(old(self).ledger.installations@[j]) by {
                pre_removal.lemma_filter_contains(
                    |inst: Installation| inst.package_id@ != id@,
                    j,
                );
                let w = choose|w: int|
                    0 <= w < mid.len() && #[trigger] mid[w] == old(
                        self,
                    ).ledger.installations@[j];
                assert(mid[w].id.text@ != owner_inst@);
                assert(self.ledger.installations@.contains(mid[w]));
            }
            assert forall|j: int|
                0 <= j < self.ledger.installations@.len() && (
                #[trigger] self.ledger.installations@[j]).package_id@ != pid implies old(
                self,
            ).ledger.installations@.contains(self.ledger.installations@[j]) by {
                let rowv = self.ledger.installations@[j];
                if rowv.id.text@ == owner_inst@ {
                    let w = choose|w: int|
                        0 <= w < self.ledger.installations@.len()
                            && #[trigger] self.ledger.installations@[w] == installation;
                    assert(self.ledger.installations@[w].id.text@ == owner_inst@);
                    assert(w == j);
                    assert(false);
                } else {
                    let w = choose|w: int| 0 <= w < mid.len() && mid[w] == rowv;
                    crate::ledger::lemma_filter_member_one(
                        pre_removal,
                        |inst: Installation| inst.package_id@ != id@,
                        w,
                    );
                    let x = choose|x: int|
                        0 <= x < pre_removal.len() && pre_removal[x] == mid[w];
                    assert(old(self).ledger.installations@[x] == rowv);
                    assert(old(self).ledger.installations@.contains(rowv));
                }
            }
        }
        Ok((file_paths, ln))
    }

    /// The position of an available package in the federation snapshot.
    fn remote_index_of(&self, id: &str) -> (r: Option<usize>)
        ensures
            match r {
                Some(i) => i < self.remote.packages@.len()
                    && self.remote.packages@[i as int].package.id@ == id@,
                None => !remote_has(self.remote, id@),
            },
    {
        let n = self.remote.packages.len();
        let mut i: usize = 0;
        while i < n
            invariant
                0 <= i <= n,
                n == self.remote.packages@.len(),
                forall|k: int|
                    0 <= k < i ==> (#[trigger] self.remote.packages@[k]).package.id@ != id@,
            decreases n - i,
        {
            if str_eq(self.remote.packages[i].package.id.as_str(), id) {
                return Some(i);
            }
            i = i + 1;
        }
        None
    }

    /// Whether any installation of another version of this name is
    /// active.
    fn other_version_active(&self, name: &str, rid: &str) -> (r: bool)
        ensures
            !r ==> forall|i: int|
                0 <= i < self.ledger.installations@.len() && (
                #[trigger] self.ledger.installations@[i]).active ==> id_name(
                    self.ledger.installations@[i].package_id@,
                ) != id_name(rid@),
            r ==> exists|i: int|
                0 <= i < self.ledger.installations@.len() && (
                #[trigger] self.ledger.installations@[i]).active && id_name(
                    self.ledger.installations@[i].package_id@,
                ) == id_name(rid@),
    {
        let n = self.ledger.installations.len();
        let mut i: usize = 0;
        let target_name = name_of_id(rid);
        while i < n
            invariant
                0 <= i <= n,
                n == self.ledger.installations@.len(),
                target_name@ == id_name(rid@),
                forall|k: int|
                    0 <= k < i && (#[trigger] self.ledger.installations@[k]).active ==> id_name(
                        self.ledger.installations@[k].package_id@,
                    ) != id_name(rid@),
            decreases n - i,
        {
            if self.ledger.installations[i].active {
                let row_name = name_of_id(self.ledger.installations[i].package_id.as_str());
                if str_eq(row_name.as_str(), target_name.as_str()) {
                    return true;
                }
            }
            i = i + 1;
        }
        false
    }

    /// The install protocol: events, federation lookup, resolution,
    /// download through the cache, extraction, materialization, and the
    /// ledger transaction, dependencies before the package and the package
    /// alone made active. Installing a reference whose installation is
    /// already active changes nothing and reports no installed files.
    pub fn install(&mut self, package_ref: &PackageReference) -> (r: Result<
        InstallResult,
        UhpmError,
    >)
        requires
            engine_wf(*old(self)),
        ensures
            engine_wf(*final(self)),
            final(self).remote == old(self).remote,
            has_active_inst_for(
                old(self).ledger.installations@,
                crate::reference::ref_str(package_ref.name@, package_ref.version@),
            ) ==> *final(self) == *old(self) && (r matches Ok(res) && res.installed_files@.len()
                == 0) && crate::ledger::pkg_row_state(
                old(self).ledger.packages@,
                crate::reference::ref_str(package_ref.name@, package_ref.version@),
                true,
                true,
            ),
            !has_active_inst_for(
                old(self).ledger.installations@,
                crate::reference::ref_str(package_ref.name@, package_ref.version@),
            ) && (exists|x: int|
                0 <= x < old(self).ledger.installations@.len() && (#[trigger] old(
                    self,
                ).ledger.installations@[x]).active && id_name(
                    old(self).ledger.installations@[x].package_id@,
                ) == id_name(crate::reference::ref_str(package_ref.name@, package_ref.version@)))
                ==> r matches Err(UhpmError::PackageAlreadyInstalled(_)),
            r matches Err(UhpmError::PackageAlreadyInstalled(_)) ==> exists|x: int|
                0 <= x < old(self).ledger.installations@.len() && (#[trigger] old(
                    self,
                ).ledger.installations@[x]).active && id_name(
                    old(self).ledger.installations@[x].package_id@,
                ) == id_name(crate::reference::ref_str(package_ref.name@, package_ref.version@)),
            !has_active_inst_for(
                old(self).ledger.installations@,
                crate::reference::ref_str(package_ref.name@, package_ref.version@),
            ) && (forall|x: int|
                0 <= x < old(self).ledger.installations@.len() && (#[trigger] old(
                    self,
                ).ledger.installations@[x]).active ==> id_name(
                    old(self).ledger.installations@[x].package_id@,
                ) != id_name(crate::reference::ref_str(package_ref.name@, package_ref.version@)))
                && !remote_has(
                old(self).remote,
                crate::reference::ref_str(package_ref.name@, package_ref.version@),
            ) ==> r matches Err(UhpmError::PackageNotFound(_)),
            r matches Err(UhpmError::PackageNotFound(w)) ==> !remote_has(old(self).remote, w@),
            r matches Err(e) ==> (e matches UhpmError::PackageAlreadyInstalled(_) || e matches
                UhpmError::PackageNotFound(_) || e matches UhpmError::ResolutionError(_)
                || e matches UhpmError::DependencyConflictError(_) || e matches
                UhpmError::ChecksumMismatch(_) || e matches UhpmError::ValidationError(_)
                || e matches UhpmError::InstallationError(_)),
            r matches Err(UhpmError::ResolutionError(_)) ==> exists|
                d: crate::dependency::Dependency,
            |
                #[trigger] snapshot_requirement(old(self).remote, d) && !snapshot_satisfiable(
                    old(self).remote,
                    d,
                ),
            r matches Err(UhpmError::DependencyConflictError(_)) ==> exists|
                d: crate::dependency::Dependency,
                v: crate::version::VersionView,
            |
                #[trigger] snapshot_requirement(old(self).remote, d) && !(
                #[trigger] crate::vreq::req_matches(d.constraint.requirement@, v)) && (
                snapshot_version_among(old(self).remote, d.name@, v)
                    || crate::resolver::installed_version_among(
                    old(self).ledger.packages@,
                    d.name@,
                    v,
                )),
            r matches Err(UhpmError::ChecksumMismatch(w)) ==> snapshot_checksum_bad(
                old(self).remote,
                w@,
            ),
            r matches Err(UhpmError::ValidationError(_)) ==> store_instlist_bad(final(self).store)
                || snapshot_algorithm_unknown(old(self).remote),
            r is Err ==> (has_inst_for(
                final(self).ledger.installations@,
                crate::reference::ref_str(package_ref.name@, package_ref.version@),
            ) <==> has_inst_for(
                old(self).ledger.installations@,
                crate::reference::ref_str(package_ref.name@, package_ref.version@),
            )),
            r is Ok ==> (forall|pid2: Seq<char>|
                has_inst_for(old(self).ledger.installations@, pid2) ==> has_inst_for(
                    final(self).ledger.installations@,
                    pid2,
                )),
            r is Ok ==> (forall|pid2: Seq<char>|
                has_pkg(old(self).ledger.packages@, pid2) ==> has_pkg(
                    final(self).ledger.packages@,
                    pid2,
                )),
            r matches Ok(_) ==> (*final(self) == *old(self) && has_active_inst_for(
                old(self).ledger.installations@,
                crate::reference::ref_str(package_ref.name@, package_ref.version@),
            )) || {
                let rid = crate::reference::ref_str(package_ref.name@, package_ref.version@);
                &&& has_pkg(final(self).ledger.packages@, rid)
                &&& crate::ledger::pkg_row_state(final(self).ledger.packages@, rid, true, true)
                &&& has_inst_for(final(self).ledger.installations@, rid)
                &&& crate::ledger::count_inst_for(final(self).ledger.installations@, rid) == 1
                &&& has_active_inst_for(final(self).ledger.installations@, rid)
                &&& final(self).events@.len() >= old(self).events@.len() + 2
                &&& final(self).events@.subrange(0, old(self).events@.len() as int) == old(
                    self,
                ).events@
                &&& (final(self).events@[old(self).events@.len() as int] matches
                    PackageEvent::InstallationStarted { package_ref: pr } && pr.name@
                    == package_ref.name@ && pr.version@ == package_ref.version@)
                &&& final(self).events@.last() matches PackageEvent::InstallationCompleted { .. }
                &&& download_pairs(
                    final(self).events@.subrange(
                        old(self).events@.len() as int + 1,
                        final(self).events@.len() - 1,
                    ),
                )
            },
            r matches Err(_) ==> final(self).events@.len() > 0 && final(self).events@.last()
                matches PackageEvent::InstallationFailed { .. },
    {
        let rid = package_ref.id();
        // a second install of an active package is a no-op
        let already = match self.ledger.active_installation_for(rid.as_str()) {
            Some(_) => true,
            None => false,
        };
        if already {
            proof {
                let w = choose|w: int|
                    0 <= w < self.ledger.installations@.len() && (
                    #[trigger] self.ledger.installations@[w]).package_id@ == rid@
                        && self.ledger.installations@[w].active;
                assert(inst_reflected_one(self.ledger, self.ledger.installations@[w]));
                let j = choose|j: int|
                    0 <= j < self.ledger.packages@.len() && (
                    #[trigger] self.ledger.packages@[j]).id@
                        == self.ledger.installations@[w].package_id@
                        && self.ledger.packages@[j].installed
                        && (self.ledger.installations@[w].active
                        ==> self.ledger.packages@[j].active);
                assert(crate::ledger::pkg_row_state(self.ledger.packages@, rid@, true, true));
            }
            return Ok(
                InstallResult {
                    package_id: package_ref.package_id(),
                    installed_files: Vec::new(),
                    symlinks_created: 0,
                },
            );
        }
        let started_ref = package_ref.duplicate();
        let ghost started_ref_v = started_ref;
        self.events.push(PackageEvent::InstallationStarted { package_ref: started_ref });
        proof {
            let lv = old(self).events@.len() as int;
            assert(self.events@.len() == lv + 1);
            assert(self.events@.subrange(0, lv) =~= old(self).events@);
            assert(self.events@[lv] matches PackageEvent::InstallationStarted {
                package_ref: pr,
            } && pr.name@ == package_ref.name@ && pr.version@ == package_ref.version@);
            assert(self.events@.skip(lv + 1) =~= Seq::<PackageEvent>::empty());
            assert(download_pairs(self.events@.skip(lv + 1)));
        }
        // another active version of the same name must be switched, not
        // installed over
        if self.other_version_active(package_ref.name.as_str(), rid.as_str()) {
            self.events.push(
                PackageEvent::InstallationFailed {
                    package_ref: package_ref.duplicate(),
                    error: str_to_string("another version of this package is active"),
                },
            );
            return Err(UhpmError::PackageAlreadyInstalled(str_to_string(rid.as_str())));
        }
        proof {
            assert forall|x: int|
                0 <= x < self.ledger.installations@.len() && (
            #[trigger] self.ledger.installations@[x]).active implies old(self).ledger.installations@.contains(self.ledger.installations@[x]) by {
                assert(self.ledger.installations@[x] == old(self).ledger.installations@[x]);
            }
            assert(forall|x: int|
                0 <= x < old(self).ledger.installations@.len() && (#[trigger] old(self).ledger.installations@[x]).active ==> id_name(
                    old(self).ledger.installations@[x].package_id@,
                ) != id_name(rid@));
        }
        // the federation must know the package
        let main_index = match self.remote_index_of(rid.as_str()) {
            Some(i) => i,
            None => {
                self.events.push(
                    PackageEvent::InstallationFailed {
                        package_ref: package_ref.duplicate(),
                        error: str_to_string("package not found"),
                    },
                );
                return Err(UhpmError::PackageNotFound(str_to_string(rid.as_str())));
            },
        };
        // resolve the dependency closure
        let mut available: Vec<Package> = Vec::new();
        let rn = self.remote.packages.len();
        let mut i: usize = 0;
        let ghost pre_loop = *self;
        proof {
            assert(pre_loop.ledger == old(self).ledger);
            assert(pre_loop.remote == old(self).remote);
        }
        while i < rn
            invariant
                0 <= i <= rn,
                rn == self.remote.packages@.len(),
                available@.len() == i,
                *self == pre_loop,
                rid@ == crate::reference::ref_str(package_ref.name@, package_ref.version@),
                !has_active_inst_for(old(self).ledger.installations@, rid@),
                remote_has(old(self).remote, rid@),
                forall|x: int|
                    0 <= x < old(self).ledger.installations@.len() && (#[trigger] old(
                        self,
                    ).ledger.installations@[x]).active ==> id_name(
                        old(self).ledger.installations@[x].package_id@,
                    ) != id_name(rid@),
                self.events@.len() > old(self).events@.len(),
                self.events@.subrange(0, old(self).events@.len() as int) == old(self).events@,
                (self.events@[old(self).events@.len() as int] matches
                    PackageEvent::InstallationStarted { package_ref: pr } && pr.name@
                    == package_ref.name@ && pr.version@ == package_ref.version@),
                download_pairs(self.events@.skip(old(self).events@.len() as int + 1)),
                forall|k: int|
                    0 <= k < i ==> (#[trigger] available@[k]).id@
                        == self.remote.packages@[k].package.id@ && available@[k].name@
                        == self.remote.packages@[k].package.name@ && available@[k].version@
                        == self.remote.packages@[k].package.version@
                        && available@[k].dependencies@.len()
                        == self.remote.packages@[k].package.dependencies@.len() && (forall|q: int|
                        0 <= q < available@[k].dependencies@.len()
                            ==> (#[trigger] available@[k].dependencies@[q]).name@
                            == self.remote.packages@[k].package.dependencies@[q].name@
                            && available@[k].dependencies@[q].constraint.requirement@
                            == self.remote.packages@[k].package.dependencies@[q].constraint.requirement@
                            && available@[k].dependencies@[q].kind
                            == self.remote.packages@[k].package.dependencies@[q].kind),
            decreases rn - i,
        {
            available.push(self.remote.packages[i].package.duplicate());
            i = i + 1;
        }
        let roots = duplicate_deps(&self.remote.packages[main_index].package.dependencies);
        proof {
            assert(mirrors_snapshot(available@, old(self).remote));
            assert(mirrors_deps(
                roots@,
                old(self).remote.packages@[main_index as int].package.dependencies@,
            ));
        }
        let mut installed_rows: Vec<Package> = Vec::new();
        let pn = self.ledger.packages.len();
        let mut pi: usize = 0;
        while pi < pn
            invariant
                0 <= pi <= pn,
                pn == self.ledger.packages@.len(),
                *self == pre_loop,
                rid@ == crate::reference::ref_str(package_ref.name@, package_ref.version@),
                !has_active_inst_for(old(self).ledger.installations@, rid@),
                remote_has(old(self).remote, rid@),
                forall|x: int|
                    0 <= x < old(self).ledger.installations@.len() && (#[trigger] old(
                        self,
                    ).ledger.installations@[x]).active ==> id_name(
                        old(self).ledger.installations@[x].package_id@,
                    ) != id_name(rid@),
                self.events@.len() > old(self).events@.len(),
                self.events@.subrange(0, old(self).events@.len() as int) == old(self).events@,
                (self.events@[old(self).events@.len() as int] matches
                    PackageEvent::InstallationStarted { package_ref: pr } && pr.name@
                    == package_ref.name@ && pr.version@ == package_ref.version@),
                download_pairs(self.events@.skip(old(self).events@.len() as int + 1)),
                installed_rows@.len() == pi,
                forall|k: int|
                    0 <= k < pi ==> (#[trigger] installed_rows@[k]).name@
                        == self.ledger.packages@[k].name@ && installed_rows@[k].version@
                        == self.ledger.packages@[k].version@ && installed_rows@[k].installed
                        == self.ledger.packages@[k].installed,
            decreases pn - pi,
        {
            installed_rows.push(self.ledger.packages[pi].duplicate());
            pi = pi + 1;
        }
        let resolution = match crate::resolver::resolve(&available, &roots, &installed_rows) {
            Ok(res) => res,
            Err(e) => {
                proof {
                    let d = choose|d: crate::dependency::Dependency|
                        crate::resolver::obligation(available@, roots@, d)
                            && !crate::resolver::satisfiable(available@, d);
                    lemma_obligation_to_snapshot(
                        old(self).remote,
                        main_index as int,
                        available@,
                        roots@,
                        d,
                    );
                    lemma_unsat_to_snapshot(old(self).remote, available@, d);
                }
                self.events.push(
                    PackageEvent::InstallationFailed {
                        package_ref: package_ref.duplicate(),
                        error: str_to_string("dependency resolution failed"),
                    },
                );
                return Err(e);
            },
        };
        if resolution.conflicts.len() > 0 {
            proof {
                let c = resolution.conflicts@[0];
                assert(crate::resolver::conflict_genuine(
                    available@,
                    roots@,
                    resolution.packages_to_install@,
                    installed_rows@,
                    c,
                ));
                let (d0, v0) = choose|
                    d0: crate::dependency::Dependency,
                    v0: crate::version::VersionView,
                |
                    crate::resolver::obligation(available@, roots@, d0) && d0.name@ == c.package@
                        && d0.constraint.requirement.spec_text() == c.required@
                        && crate::version::version_str(v0) == c.installed@
                        && !crate::vreq::req_matches(d0.constraint.requirement@, v0)
                        && crate::resolver::covered_version(
                        resolution.packages_to_install@,
                        installed_rows@,
                        c.package@,
                        v0,
                    );
                lemma_obligation_to_snapshot(
                    old(self).remote,
                    main_index as int,
                    available@,
                    roots@,
                    d0,
                );
                if crate::resolver::version_among(
                    resolution.packages_to_install@,
                    c.package@,
                    v0,
                ) {
                    let t = choose|t: int|
                        0 <= t < resolution.packages_to_install@.len() && (
                        #[trigger] resolution.packages_to_install@[t]).name@ == c.package@
                            && resolution.packages_to_install@[t].version@ == v0;
                    assert(crate::resolver::version_among(
                        available@,
                        resolution.packages_to_install@[t].name@,
                        resolution.packages_to_install@[t].version@,
                    ));
                    lemma_version_to_snapshot(old(self).remote, available@, c.package@, v0);
                    assert(snapshot_version_among(old(self).remote, d0.name@, v0));
                } else {
                    let t = choose|t: int|
                        0 <= t < installed_rows@.len() && (#[trigger] installed_rows@[t]).name@
                            == c.package@ && installed_rows@[t].installed
                            && installed_rows@[t].version@ == v0;
                    assert(old(self).ledger.packages@[t].name@ == c.package@);
                    assert(old(self).ledger.packages@[t].installed);
                    assert(old(self).ledger.packages@[t].version@ == v0);
                    assert(crate::resolver::installed_version_among(
                        old(self).ledger.packages@,
                        d0.name@,
                        v0,
                    ));
                }
                assert(snapshot_requirement(old(self).remote, d0) && !crate::vreq::req_matches(
                    d0.constraint.requirement@,
                    v0,
                ));
            }
            self.events.push(
                PackageEvent::InstallationFailed {
                    package_ref: package_ref.duplicate(),
                    error: str_to_string("dependency conflict"),
                },
            );
            return Err(
                UhpmError::DependencyConflictError(
                    str_to_string(resolution.conflicts[0].package.as_str()),
                ),
            );
        }
        // dependencies first, inactive
        let mut installed_files: Vec<String> = Vec::new();
        let mut symlinks_created: usize = 0;
        let dn = resolution.packages_to_install.len();
        let mut di: usize = 0;
        while di < dn
            invariant
                0 <= di <= dn,
                dn == resolution.packages_to_install@.len(),
                engine_wf(*self),
                self.remote == old(self).remote,
                rid@ == crate::reference::ref_str(package_ref.name@, package_ref.version@),
                !has_active_inst_for(old(self).ledger.installations@, rid@),
                remote_has(old(self).remote, rid@),
                self.events@.len() > old(self).events@.len(),
                self.events@.subrange(0, old(self).events@.len() as int) == old(self).events@,
                (self.events@[old(self).events@.len() as int] matches
                    PackageEvent::InstallationStarted { package_ref: pr } && pr.name@
                    == package_ref.name@ && pr.version@ == package_ref.version@),
                download_pairs(self.events@.skip(old(self).events@.len() as int + 1)),
                forall|x: int|
                    0 <= x < old(self).ledger.installations@.len() && (#[trigger] old(
                        self,
                    ).ledger.installations@[x]).active ==> id_name(
                        old(self).ledger.installations@[x].package_id@,
                    ) != id_name(rid@),
                forall|x: int|
                    0 <= x < self.ledger.installations@.len() && (
                    #[trigger] self.ledger.installations@[x]).active ==> old(self).ledger.installations@.contains(self.ledger.installations@[x]),
                has_inst_for(self.ledger.installations@, rid@) <==> has_inst_for(
                    old(self).ledger.installations@,
                    rid@,
                ),
                forall|pid2: Seq<char>|
                    has_inst_for(old(self).ledger.installations@, pid2) ==> has_inst_for(
                        self.ledger.installations@,
                        pid2,
                    ),
                forall|pid2: Seq<char>|
                    has_pkg(old(self).ledger.packages@, pid2) ==> has_pkg(
                        self.ledger.packages@,
                        pid2,
                    ),
            decreases dn - di,
        {
            let dep_id = resolution.packages_to_install[di].id.as_str();
            if !str_eq(dep_id, rid.as_str()) {
                match self.remote_index_of(dep_id) {
                    Some(ridx) => {
                        let ghost dep_pid = self.remote.packages@[ridx as int].package.id@;
                        proof {
                            assert(dep_pid != rid@);
                        }
                        let ghost pre_unit = self.ledger.installations@;
                        let ghost pre_unit_pkgs = self.ledger.packages@;
                        let ghost pre_unit_ev = self.events@;
                        match self.install_unit(ridx, false) {
                            Ok((files, links)) => {
                                proof {
                                    let lv = old(self).events@.len() as int;
                                    assert(self.events@.subrange(0, pre_unit_ev.len() as int)
                                        == pre_unit_ev);
                                    assert(self.events@.len() > lv);
                                    assert(self.events@.subrange(0, lv) =~= pre_unit_ev.subrange(
                                        0,
                                        lv,
                                    ));
                                    assert(self.events@[lv] == pre_unit_ev[lv]);
                                    assert(self.events@.skip(lv + 1) =~= pre_unit_ev.skip(lv + 1)
                                        + self.events@.skip(pre_unit_ev.len() as int));
                                    lemma_download_pairs_append(
                                        pre_unit_ev.skip(lv + 1),
                                        self.events@.skip(pre_unit_ev.len() as int),
                                    );
                                }
                                let ghost post_unit = *self;
                                let fnum = files.len();
                                let mut fi: usize = 0;
                                while fi < fnum
                                    invariant
                                        0 <= fi <= fnum,
                                        fnum == files@.len(),
                                        *self == post_unit,
                                    decreases fnum - fi,
                                {
                                    installed_files.push(str_to_string(files[fi].as_str()));
                                    fi = fi + 1;
                                }
                                if symlinks_created <= usize::MAX - links {
                                    symlinks_created = symlinks_created + links;
                                }
                                proof {
                                    assert forall|x: int|
                                        0 <= x < self.ledger.installations@.len() && (
                                    #[trigger] self.ledger.installations@[x]).active implies old(self).ledger.installations@.contains(
                                        self.ledger.installations@[x],
                                    ) by {
                                        assert(pre_unit.contains(self.ledger.installations@[x]));
                                        let w = choose|w: int|
                                            0 <= w < pre_unit.len() && pre_unit[w]
                                                == self.ledger.installations@[x];
                                        assert(pre_unit[w].active);
                                    }
                                    assert((has_inst_for(self.ledger.installations@, rid@)
                                        <==> has_inst_for(
                                        old(self).ledger.installations@,
                                        rid@,
                                    ))) by {
                                        if has_inst_for(self.ledger.installations@, rid@) {
                                            let w = choose|w: int|
                                                0 <= w < self.ledger.installations@.len() && (
                                                #[trigger] self.ledger.installations@[w]).package_id@
                                                    == rid@;
                                            assert(self.ledger.installations@[w].package_id@
                                                != dep_pid);
                                            assert(pre_unit.contains(
                                                self.ledger.installations@[w],
                                            ));
                                            let x = choose|x: int|
                                                0 <= x < pre_unit.len() && pre_unit[x]
                                                    == self.ledger.installations@[w];
                                            assert(has_inst_for(pre_unit, rid@));
                                        }
                                        if has_inst_for(pre_unit, rid@) {
                                            let w = choose|w: int|
                                                0 <= w < pre_unit.len() && (
                                                #[trigger] pre_unit[w]).package_id@ == rid@;
                                            assert(pre_unit[w].package_id@ != dep_pid);
                                            assert(self.ledger.installations@.contains(
                                                pre_unit[w],
                                            ));
                                            let x = choose|x: int|
                                                0 <= x < self.ledger.installations@.len()
                                                    && self.ledger.installations@[x]
                                                    == pre_unit[w];
                                            assert(has_inst_for(
                                                self.ledger.installations@,
                                                rid@,
                                            ));
                                        }
                                    }
                                    assert forall|pid2: Seq<char>|
                                        has_inst_for(
                                            old(self).ledger.installations@,
                                            pid2,
                                        ) implies has_inst_for(
                                        self.ledger.installations@,
                                        pid2,
                                    ) by {
                                        assert(has_inst_for(pre_unit, pid2));
                                        if pid2 == dep_pid {
                                            assert(has_inst_for(
                                                self.ledger.installations@,
                                                dep_pid,
                                            ));
                                        } else {
                                            let w = choose|w: int|
                                                0 <= w < pre_unit.len() && (
                                                #[trigger] pre_unit[w]).package_id@ == pid2;
                                            assert(pre_unit[w].package_id@ != dep_pid);
                                            assert(self.ledger.installations@.contains(
                                                pre_unit[w],
                                            ));
                                            let x = choose|x: int|
                                                0 <= x < self.ledger.installations@.len()
                                                    && self.ledger.installations@[x]
                                                    == pre_unit[w];
                                            assert(has_inst_for(
                                                self.ledger.installations@,
                                                pid2,
                                            ));
                                        }
                                    }
                                    assert forall|pid2: Seq<char>|
                                        has_pkg(old(self).ledger.packages@, pid2) implies has_pkg(
                                        self.ledger.packages@,
                                        pid2,
                                    ) by {
                                        assert(has_pkg(pre_unit_pkgs, pid2));
                                        if pid2 == dep_pid {
                                            assert(has_pkg(self.ledger.packages@, dep_pid));
                                        } else {
                                            let w = choose|w: int|
                                                0 <= w < pre_unit_pkgs.len() && (
                                                #[trigger] pre_unit_pkgs[w]).id@ == pid2;
                                            assert(pre_unit_pkgs[w].id@ != dep_pid);
                                            assert(self.ledger.packages@.contains(
                                                pre_unit_pkgs[w],
                                            ));
                                            let x = choose|x: int|
                                                0 <= x < self.ledger.packages@.len()
                                                    && self.ledger.packages@[x]
                                                    == pre_unit_pkgs[w];
                                            assert(has_pkg(self.ledger.packages@, pid2));
                                        }
                                    }
                                }
                            },
                            Err(e) => {
                                proof {
                                    match &e {
                                        UhpmError::ChecksumMismatch(w) => {
                                            assert(snapshot_checksum_bad(old(self).remote, w@));
                                        },
                                        UhpmError::ValidationError(_) => {
                                            if !store_instlist_bad(self.store) {
                                                assert(old(
                                                    self,
                                                ).remote.packages@[ridx as int].package.checksum
                                                    matches Some(c)
                                                    && crate::checksum::checksum_verdict(
                                                    c,
                                                    old(
                                                        self,
                                                    ).remote.packages@[ridx as int].archive@,
                                                ) is None);
                                                assert(snapshot_algorithm_unknown(
                                                    old(self).remote,
                                                ));
                                            }
                                        },
                                        _ => {},
                                    }
                                }
                                self.events.push(
                                    PackageEvent::InstallationFailed {
                                        package_ref: package_ref.duplicate(),
                                        error: str_to_string("dependency installation failed"),
                                    },
                                );
                                return Err(e);
                            },
                        }
                    },
                    None => {
                        self.events.push(
                            PackageEvent::InstallationFailed {
                                package_ref: package_ref.duplicate(),
                                error: str_to_string("dependency not available"),
                            },
                        );
                        return Err(
                            UhpmError::PackageNotFound(str_to_string(dep_id)),
                        );
                    },
                }
            }
            di = di + 1;
        }
        // the package itself, active
        proof {
            assert(self.remote.packages@[main_index as int].package.id@ == rid@);
            assert forall|x: int|
                0 <= x < self.ledger.installations@.len() && (
            #[trigger] self.ledger.installations@[x]).active implies id_name(
                self.ledger.installations@[x].package_id@,
            ) != id_name(self.remote.packages@[main_index as int].package.id@) by {
                assert(old(self).ledger.installations@.contains(self.ledger.installations@[x]));
                let w = choose|w: int|
                    0 <= w < old(self).ledger.installations@.len() && old(self).ledger.installations@[w] == self.ledger.installations@[x];
                assert(old(self).ledger.installations@[w].active);
                assert(id_name(old(self).ledger.installations@[w].package_id@) != id_name(rid@));
            }
        }
        let ghost pre_main_ev = self.events@;
        let ghost pre_main_insts = self.ledger.installations@;
        let ghost pre_main_pkgs = self.ledger.packages@;
        let (files, links) = match self.install_unit(main_index, true) {
            Ok(x) => x,
            Err(e) => {
                proof {
                    match &e {
                        UhpmError::ChecksumMismatch(w) => {
                            assert(snapshot_checksum_bad(old(self).remote, w@));
                        },
                        UhpmError::ValidationError(_) => {
                            if !store_instlist_bad(self.store) {
                                assert(old(
                                    self,
                                ).remote.packages@[main_index as int].package.checksum matches Some(
                                    c,
                                ) && crate::checksum::checksum_verdict(
                                    c,
                                    old(self).remote.packages@[main_index as int].archive@,
                                ) is None);
                                assert(snapshot_algorithm_unknown(old(self).remote));
                            }
                        },
                        _ => {},
                    }
                }
                self.events.push(
                    PackageEvent::InstallationFailed {
                        package_ref: package_ref.duplicate(),
                        error: str_to_string("installation failed"),
                    },
                );
                return Err(e);
            },
        };
        proof {
            let lv = old(self).events@.len() as int;
            assert(self.events@.subrange(0, pre_main_ev.len() as int) == pre_main_ev);
            assert(self.events@.len() > lv);
            assert(self.events@.subrange(0, lv) =~= pre_main_ev.subrange(0, lv));
            assert(self.events@[lv] == pre_main_ev[lv]);
            assert(self.events@.skip(lv + 1) =~= pre_main_ev.skip(lv + 1) + self.events@.skip(
                pre_main_ev.len() as int,
            ));
            lemma_download_pairs_append(
                pre_main_ev.skip(lv + 1),
                self.events@.skip(pre_main_ev.len() as int),
            );
            assert forall|pid2: Seq<char>|
                has_inst_for(old(self).ledger.installations@, pid2) implies has_inst_for(
                self.ledger.installations@,
                pid2,
            ) by {
                assert(has_inst_for(pre_main_insts, pid2));
                if pid2 == rid@ {
                    assert(has_inst_for(self.ledger.installations@, rid@));
                } else {
                    let w = choose|w: int|
                        0 <= w < pre_main_insts.len() && (#[trigger] pre_main_insts[w]).package_id@
                            == pid2;
                    assert(pre_main_insts[w].package_id@ != rid@);
                    assert(self.ledger.installations@.contains(pre_main_insts[w]));
                    let x = choose|x: int|
                        0 <= x < self.ledger.installations@.len()
                            && self.ledger.installations@[x] == pre_main_insts[w];
                    assert(has_inst_for(self.ledger.installations@, pid2));
                }
            }
            assert forall|pid2: Seq<char>|
                has_pkg(old(self).ledger.packages@, pid2) implies has_pkg(
                self.ledger.packages@,
                pid2,
            ) by {
                assert(has_pkg(pre_main_pkgs, pid2));
                if pid2 == rid@ {
                    assert(has_pkg(self.ledger.packages@, rid@));
                } else {
                    let w = choose|w: int|
                        0 <= w < pre_main_pkgs.len() && (#[trigger] pre_main_pkgs[w]).id@ == pid2;
                    assert(pre_main_pkgs[w].id@ != rid@);
                    assert(self.ledger.packages@.contains(pre_main_pkgs[w]));
                    let x = choose|x: int|
                        0 <= x < self.ledger.packages@.len() && self.ledger.packages@[x]
                            == pre_main_pkgs[w];
                    assert(has_pkg(self.ledger.packages@, pid2));
                }
            }
        }
        let ghost post_main = *self;
        let fnum = files.len();
        let mut fi: usize = 0;
        while fi < fnum
            invariant
                0 <= fi <= fnum,
                fnum == files@.len(),
                *self == post_main,
            decreases fnum - fi,
        {
            installed_files.push(str_to_string(files[fi].as_str()));
            fi = fi + 1;
        }
        if symlinks_created <= usize::MAX - links {
            symlinks_created = symlinks_created + links;
        }
        let ghost pre_done_ev = self.events@;
        self.events.push(
            PackageEvent::InstallationCompleted {
                package: self.remote.packages[main_index].package.duplicate(),
            },
        );
        proof {
            let lv = old(self).events@.len() as int;
            assert(self.events@.len() == pre_done_ev.len() + 1);
            assert(forall|k: int|
                0 <= k < pre_done_ev.len() ==> #[trigger] self.events@[k] == pre_done_ev[k]);
            assert(self.events@.subrange(0, lv) =~= pre_done_ev.subrange(0, lv));
            assert(self.events@[lv] == pre_done_ev[lv]);
            assert(self.events@.last() matches PackageEvent::InstallationCompleted { .. });
            assert(self.events@.subrange(lv + 1, self.events@.len() - 1) =~= pre_done_ev.skip(
                lv + 1,
            ));
        }
        Ok(
            InstallResult {
                package_id: package_ref.package_id(),
                installed_files,
                symlinks_created,
            },
        )
    }

    /// The remove protocol: refused, with nothing changed and no event,
    /// exactly while an installation of the reference is active; a
    /// reference without a package row is not found; otherwise the
    /// materialized paths go, then the rows, and the package row keeps
    /// neither flag.
    pub fn remove(&mut self, package_ref: &PackageReference) -> (r: Result<
        RemovalResult,
        UhpmError,
    >)
        requires
            engine_wf(*old(self)),
        ensures
            engine_wf(*final(self)),
            final(self).remote == old(self).remote,
            has_active_inst_for(
                old(self).ledger.installations@,
                crate::reference::ref_str(package_ref.name@, package_ref.version@),
            ) <==> r matches Err(UhpmError::PackageIsActive),
            r matches Err(UhpmError::PackageIsActive) ==> *final(self) == *old(self),
            !has_active_inst_for(
                old(self).ledger.installations@,
                crate::reference::ref_str(package_ref.name@, package_ref.version@),
            ) ==> (r is Ok <==> has_pkg(
                old(self).ledger.packages@,
                crate::reference::ref_str(package_ref.name@, package_ref.version@),
            )),
            r matches Err(UhpmError::PackageNotFound(w)) ==> w@ == crate::reference::ref_str(
                package_ref.name@,
                package_ref.version@,
            ) && !has_pkg(
                old(self).ledger.packages@,
                crate::reference::ref_str(package_ref.name@, package_ref.version@),
            ) && final(self).ledger == old(self).ledger && final(self).fs == old(self).fs
                && final(self).store == old(self).store && final(self).cache == old(self).cache,
            final(self).store == old(self).store,
            final(self).cache == old(self).cache,
            r is Err ==> (r matches Err(UhpmError::PackageIsActive) || r matches Err(
                UhpmError::PackageNotFound(_),
            )),
            r matches Ok(_) ==> {
                let rid = crate::reference::ref_str(package_ref.name@, package_ref.version@);
                &&& !has_inst_for(final(self).ledger.installations@, rid)
                &&& forall|i: int|
                    0 <= i < final(self).ledger.packages@.len() && (#[trigger] final(self).ledger.packages@[i]).id@ == rid ==> !final(self).ledger.packages@[i].installed
                        && !final(self).ledger.packages@[i].active
                &&& forall|i: int|
                    0 <= i < final(self).fs.entries@.len() ==> old(self).fs.entries@.contains(
                        #[trigger] final(self).fs.entries@[i],
                    )
                &&& forall|i: int, x: int|
                    0 <= i < final(self).fs.entries@.len() && 0 <= x < old(
                        self,
                    ).ledger.installations@.len() && (#[trigger] old(
                        self,
                    ).ledger.installations@[x]).package_id@ == rid ==> (#[trigger] final(self).fs.entries@[i]).owner_installation@ != old(
                        self,
                    ).ledger.installations@[x].id.text@
                &&& forall|i: int|
                    0 <= i < old(self).ledger.packages@.len() && (#[trigger] old(
                        self,
                    ).ledger.packages@[i]).id@ != rid ==> final(self).ledger.packages@.contains(
                        old(self).ledger.packages@[i],
                    )
                &&& forall|i: int|
                    0 <= i < old(self).ledger.installations@.len() && (#[trigger] old(
                        self,
                    ).ledger.installations@[i]).package_id@ != rid
                        ==> final(self).ledger.installations@.contains(
                        old(self).ledger.installations@[i],
                    )
                &&& forall|i: int|
                    0 <= i < old(self).fs.entries@.len() && !(exists|x: int|
                        0 <= x < old(self).ledger.installations@.len() && (#[trigger] old(
                            self,
                        ).ledger.installations@[x]).package_id@ == rid && (#[trigger] old(
                            self,
                        ).fs.entries@[i]).owner_installation@ == old(
                            self,
                        ).ledger.installations@[x].id.text@) ==> final(self).fs.entries@.contains(
                        old(self).fs.entries@[i],
                    )
            },
    {
        let rid = package_ref.id();
        let is_active = match self.ledger.active_installation_for(rid.as_str()) {
            Some(_) => true,
            None => false,
        };
        if is_active {
            return Err(UhpmError::PackageIsActive);
        }
        self.events.push(PackageEvent::RemoveStarted { package_ref: package_ref.duplicate() });
        let row = match self.ledger.get_package(rid.as_str()) {
            Some(p) => p.duplicate(),
            None => {
                return Err(UhpmError::PackageNotFound(str_to_string(rid.as_str())));
            },
        };
        // remove materialized paths, then the rows
        let mut removed_files: usize = 0;
        let ghost owner_text: Seq<char>;
        let owner = match self.ledger.installation_for(rid.as_str()) {
            Some(inst) => Some(inst.id.to_string()),
            None => None,
        };
        match owner {
            Some(inst_id) => {
                proof {
                    owner_text = inst_id@;
                }
                let before_len = self.fs.entries.len();
                self.fs.remove_owned_by(inst_id.as_str());
                let after_len = self.fs.entries.len();
                if after_len <= before_len {
                    removed_files = before_len - after_len;
                }
                proof {
                    assert forall|i: int, x: int|
                        0 <= i < self.fs.entries@.len() && 0 <= x < old(
                            self,
                        ).ledger.installations@.len() && (#[trigger] old(
                            self,
                        ).ledger.installations@[x]).package_id@ == rid@ implies (
                    #[trigger] self.fs.entries@[i]).owner_installation@ != old(
                        self,
                    ).ledger.installations@[x].id.text@ by {
                        let i0 = choose|i0: int|
                            0 <= i0 < old(self).ledger.installations@.len()
                                && #[trigger] old(self).ledger.installations@[i0].package_id@
                                == rid@ && old(self).ledger.installations@[i0].id.text@
                                == owner_text;
                        assert(i0 == x);
                    }
                    assert forall|i: int|
                        0 <= i < old(self).fs.entries@.len() && !(exists|x: int|
                            0 <= x < old(self).ledger.installations@.len() && (#[trigger] old(
                                self,
                            ).ledger.installations@[x]).package_id@ == rid@ && (#[trigger] old(
                                self,
                            ).fs.entries@[i]).owner_installation@ == old(
                                self,
                            ).ledger.installations@[x].id.text@) implies self.fs.entries@.contains(
                        old(self).fs.entries@[i],
                    ) by {
                        let x0 = choose|x0: int|
                            0 <= x0 < old(self).ledger.installations@.len()
                                && #[trigger] old(self).ledger.installations@[x0].package_id@
                                == rid@ && old(self).ledger.installations@[x0].id.text@
                                == owner_text;
                        assert(old(self).fs.entries@[i].owner_installation@ != owner_text);
                    }
                }
            },
            None => {
                proof {
                    assert(!has_inst_for(self.ledger.installations@, rid@));
                    assert forall|i: int|
                        0 <= i < old(self).fs.entries@.len() implies self.fs.entries@.contains(
                        old(self).fs.entries@[i],
                    ) by {
                        assert(self.fs.entries@[i] == old(self).fs.entries@[i]);
                    }
                }
            },
        }
        let ghost pre_removal = self.ledger.installations@;
        self.ledger.remove_installations_for(rid.as_str());
        proof {
            assert forall|a: int, b: int|
                0 <= a < b < self.ledger.installations@.len() implies (
            #[trigger] self.ledger.installations@[a]).package_id@ != (
            #[trigger] self.ledger.installations@[b]).package_id@ by {
                crate::ledger::lemma_filter_members(
                    pre_removal,
                    |inst: Installation| inst.package_id@ != rid@,
                    a,
                    b,
                );
                let (x, y) = choose|x: int, y: int|
                    0 <= x < y < pre_removal.len() && pre_removal[x]
                        == #[trigger] self.ledger.installations@[a] && pre_removal[y]
                        == #[trigger] self.ledger.installations@[b];
                assert(pre_removal[x].package_id@ != pre_removal[y].package_id@);
            }
        }
        let mut cleared = row;
        cleared.set_installed(false);
        cleared.set_active(false);
        proof {
            assert(cleared.id@ == rid@);
        }
        let ghost clearedg = cleared;
        let ghost pre_pkg_save = self.ledger.packages@;
        self.ledger.save_package(cleared);
        proof {
            assert(pre_pkg_save == old(self).ledger.packages@);
            assert forall|i: int| 0 <= i < self.ledger.installations@.len() implies
                inst_reflected_one(self.ledger, #[trigger] self.ledger.installations@[i]) by {
                let inst_i = self.ledger.installations@[i];
                crate::ledger::lemma_filter_member_one(
                    pre_removal,
                    |inst: Installation| inst.package_id@ != rid@,
                    i,
                );
                let x = choose|x: int|
                    0 <= x < pre_removal.len() && pre_removal[x]
                        == self.ledger.installations@[i];
                assert(old(self).ledger.installations@[x] == inst_i);
                let j0 = choose|j0: int|
                    0 <= j0 < old(self).ledger.packages@.len() && (#[trigger] old(
                        self,
                    ).ledger.packages@[j0]).id@ == inst_i.package_id@ && old(
                        self,
                    ).ledger.packages@[j0].installed && (inst_i.active ==> old(
                        self,
                    ).ledger.packages@[j0].active);
                assert(inst_i.package_id@ != rid@);
                assert(old(self).ledger.packages@[j0].id@ != clearedg.id@);
                assert(self.ledger.packages@.contains(old(self).ledger.packages@[j0]));
                let jw = choose|jw: int|
                    0 <= jw < self.ledger.packages@.len()
                        && #[trigger] self.ledger.packages@[jw] == old(self).ledger.packages@[j0];
                assert(self.ledger.packages@[jw].installed);
                assert(inst_reflected_one(self.ledger, inst_i));
            }
            assert forall|i: int|
                0 <= i < self.ledger.packages@.len() && (#[trigger] self.ledger.packages@[i]).id@
                    == rid@ implies !self.ledger.packages@[i].installed
                && !self.ledger.packages@[i].active by {
                let w = choose|w: int|
                    0 <= w < self.ledger.packages@.len() && #[trigger] self.ledger.packages@[w].id@
                        == rid@ && !self.ledger.packages@[w].installed
                        && !self.ledger.packages@[w].active;
            }
            assert(!has_inst_for(self.ledger.installations@, rid@));
            assert forall|i: int|
                0 <= i < old(self).ledger.installations@.len() && (#[trigger] old(
                    self,
                ).ledger.installations@[i]).package_id@ != rid@ implies self.ledger.installations@.contains(old(self).ledger.installations@[i]) by {
                pre_removal.lemma_filter_contains(
                    |inst: Installation| inst.package_id@ != rid@,
                    i,
                );
            }
        }
        proof {
            assert(insts_reflected(self.ledger));
        }
        self.events.push(PackageEvent::RemoveCompleted { package_ref: package_ref.duplicate() });
        Ok(
            RemovalResult {
                package_id: package_ref.package_id(),
                removed_files,
                freed_space: 0,
            },
        )
    }

    /// Clears the active flag of the reference's installation and package
    /// row; everything else — other rows, the filesystem, the store, the
    /// cache and the event log — is kept exactly as it was.
    pub fn deactivate(&mut self, package_ref: &PackageReference)
        requires
            engine_wf(*old(self)),
        ensures
            engine_wf(*final(self)),
            final(self).remote == old(self).remote,
            !has_active_inst_for(
                final(self).ledger.installations@,
                crate::reference::ref_str(package_ref.name@, package_ref.version@),
            ),
            final(self).store == old(self).store,
            final(self).fs == old(self).fs,
            final(self).cache == old(self).cache,
            final(self).events == old(self).events,
            final(self).ledger.installations@.len() == old(self).ledger.installations@.len(),
            forall|i: int|
                0 <= i < final(self).ledger.installations@.len() ==> {
                    let a = #[trigger] final(self).ledger.installations@[i];
                    let b = old(self).ledger.installations@[i];
                    &&& a.id == b.id
                    &&& a.package_id == b.package_id
                    &&& (b.package_id@ != crate::reference::ref_str(
                        package_ref.name@,
                        package_ref.version@,
                    ) ==> a == b)
                },
            final(self).ledger.packages@.len() == old(self).ledger.packages@.len(),
            forall|i: int|
                0 <= i < final(self).ledger.packages@.len() ==> {
                    let a = #[trigger] final(self).ledger.packages@[i];
                    let b = old(self).ledger.packages@[i];
                    &&& a.id@ == b.id@
                    &&& a.name@ == b.name@
                    &&& a.version@ == b.version@
                    &&& a.installed == b.installed
                    &&& (b.id@ != crate::reference::ref_str(
                        package_ref.name@,
                        package_ref.version@,
                    ) ==> a == b)
                },
    {
        let rid = package_ref.id();
        let ghost mut row_src: Option<Package> = None;
        self.ledger.deactivate_installations_for(rid.as_str());
        let ghost mid_insts = self.ledger.installations@;
        let cleared = match self.ledger.get_package(rid.as_str()) {
            Some(p) => {
                proof {
                    row_src = Some(*p);
                    assert(exists|i: int|
                        0 <= i < self.ledger.packages@.len()
                            && #[trigger] self.ledger.packages@[i] == row_src.unwrap());
                }
                let mut c = p.duplicate();
                c.set_active(false);
                proof {
                    assert(c.id@ == row_src.unwrap().id@);
                    assert(c.name@ == row_src.unwrap().name@);
                    assert(c.version@ == row_src.unwrap().version@);
                    assert(c.installed == row_src.unwrap().installed);
                }
                Some(c)
            },
            None => None,
        };
        let ghost clearedg = cleared;
        let ghost row_present = cleared is Some;
        match cleared {
            Some(c) => {
                self.ledger.save_package(c);
            },
            None => {},
        }
        proof {
            let rid_v = crate::reference::ref_str(package_ref.name@, package_ref.version@);
            if has_active_inst_for(self.ledger.installations@, rid_v) {
                let w = choose|w: int|
                    0 <= w < self.ledger.installations@.len() && (
                    #[trigger] self.ledger.installations@[w]).package_id@ == rid_v
                        && self.ledger.installations@[w].active;
            }
            assert(self.ledger.installations@ == mid_insts);
            assert forall|i: int| 0 <= i < self.ledger.installations@.len() implies
                inst_reflected_one(self.ledger, #[trigger] self.ledger.installations@[i]) by {
                let inst_i = self.ledger.installations@[i];
                let o_i = old(self).ledger.installations@[i];
                assert(inst_i.package_id == o_i.package_id);
                let j0 = choose|j0: int|
                    0 <= j0 < old(self).ledger.packages@.len() && (#[trigger] old(
                        self,
                    ).ledger.packages@[j0]).id@ == o_i.package_id@ && old(
                        self,
                    ).ledger.packages@[j0].installed && (o_i.active ==> old(
                        self,
                    ).ledger.packages@[j0].active);
                if inst_i.package_id@ == rid@ {
                    assert(!inst_i.active);
                    assert(row_present) by {
                        if !row_present {
                            assert(!has_pkg(old(self).ledger.packages@, rid@));
                        }
                    }
                    let cg = clearedg.unwrap();
                    assert(cg.installed) by {
                        let pw = choose|pw: int|
                            0 <= pw < old(self).ledger.packages@.len() && (#[trigger] old(
                                self,
                            ).ledger.packages@[pw]).id@ == rid@ && cg.installed == old(
                                self,
                            ).ledger.packages@[pw].installed;
                        assert(pw == j0);
                    }
                    let jw = choose|jw: int|
                        0 <= jw < self.ledger.packages@.len()
                            && #[trigger] self.ledger.packages@[jw] == cg;
                    assert(self.ledger.packages@[jw].id@ == inst_i.package_id@);
                    assert(inst_reflected_one(self.ledger, inst_i));
                } else {
                    assert(inst_i.active == o_i.active);
                    if row_present {
                        assert(old(self).ledger.packages@[j0].id@ != clearedg.unwrap().id@);
                        assert(self.ledger.packages@.contains(old(self).ledger.packages@[j0]));
                        let jw = choose|jw: int|
                            0 <= jw < self.ledger.packages@.len()
                                && #[trigger] self.ledger.packages@[jw] == old(
                                self,
                            ).ledger.packages@[j0];
                        assert(self.ledger.packages@[jw].installed);
                    } else {
                        assert(self.ledger.packages@ == old(self).ledger.packages@);
                    }
                }
            }
            assert(insts_reflected(self.ledger));
        }
        proof {
            if row_present {
                let cg = clearedg.unwrap();
                assert(cg.id@ == rid@);
                assert forall|j: int| 0 <= j < self.ledger.packages@.len() implies {
                    let a = #[trigger] self.ledger.packages@[j];
                    let b = old(self).ledger.packages@[j];
                    &&& a.id@ == b.id@
                    &&& a.name@ == b.name@
                    &&& a.version@ == b.version@
                    &&& a.installed == b.installed
                    &&& (b.id@ != crate::reference::ref_str(
                        package_ref.name@,
                        package_ref.version@,
                    ) ==> a == b)
                } by {
                    let b = old(self).ledger.packages@[j];
                    if b.id@ == cg.id@ {
                        assert(self.ledger.packages@[j] == cg);
                        let w = choose|w: int|
                            0 <= w < old(self).ledger.packages@.len() && #[trigger] old(
                                self,
                            ).ledger.packages@[w] == row_src.unwrap();
                        assert(old(self).ledger.packages@[w].id@ == cg.id@);
                        assert(w == j);
                        assert(b == row_src.unwrap());
                    } else {
                        assert(self.ledger.packages@[j] == b);
                    }
                }
            } else {
                assert(self.ledger.packages@ == old(self).ledger.packages@);
            }
        }
    }

    /// The switch protocol: find the installed version, deactivate and
    /// remove it, then install the target version as active. The two
    /// halves are not one transaction: a failing install leaves the name
    /// uninstalled.
    pub fn switch(&mut self, package_name: &str, target_version: &crate::version::Version) -> (r:
        Result<SwitchResult, UhpmError>)
        requires
            engine_wf(*old(self)),
        ensures
            engine_wf(*final(self)),
            final(self).remote == old(self).remote,
            (forall|i: int|
                0 <= i < old(self).ledger.packages@.len() ==> !((#[trigger] old(
                    self,
                ).ledger.packages@[i]).installed && old(self).ledger.packages@[i].name@
                    == package_name@)) ==> (r matches Err(UhpmError::PackageNotFound(_)) && *final(self) == *old(self)),
            !(r matches Err(UhpmError::PackageIsActive)),
            r matches Err(e) ==> (e matches UhpmError::PackageNotFound(_) || e matches
                UhpmError::PackageAlreadyInstalled(_) || e matches UhpmError::ResolutionError(_)
                || e matches UhpmError::DependencyConflictError(_) || e matches
                UhpmError::ChecksumMismatch(_) || e matches UhpmError::ValidationError(_)
                || e matches UhpmError::InstallationError(_)),
            r matches Err(UhpmError::PackageNotFound(w)) ==> ((forall|i: int|
                0 <= i < old(self).ledger.packages@.len() ==> !((#[trigger] old(
                    self,
                ).ledger.packages@[i]).installed && old(self).ledger.packages@[i].name@
                    == package_name@)) || !has_pkg(old(self).ledger.packages@, w@) || !remote_has(
                old(self).remote,
                w@,
            )),
            r matches Err(UhpmError::ResolutionError(_)) ==> exists|
                d: crate::dependency::Dependency,
            |
                #[trigger] snapshot_requirement(old(self).remote, d) && !snapshot_satisfiable(
                    old(self).remote,
                    d,
                ),
            r matches Err(UhpmError::ChecksumMismatch(w)) ==> snapshot_checksum_bad(
                old(self).remote,
                w@,
            ),
            r matches Err(UhpmError::ValidationError(_)) ==> store_instlist_bad(final(self).store)
                || snapshot_algorithm_unknown(old(self).remote),
            r matches Ok(sr) ==> sr.package_name@ == package_name@ && sr.to_version@
                == target_version@ && has_active_inst_for(
                final(self).ledger.installations@,
                crate::reference::ref_str(package_name@, target_version@),
            ) && (sr.from_version matches Some(fv) && exists|i: int|
                0 <= i < old(self).ledger.packages@.len() && (#[trigger] old(
                    self,
                ).ledger.packages@[i]).installed && old(self).ledger.packages@[i].name@
                    == package_name@ && old(self).ledger.packages@[i].version@ == fv@ && (forall|
                j: int,
            |
                0 <= j < i ==> !((#[trigger] old(self).ledger.packages@[j]).installed && old(
                    self,
                ).ledger.packages@[j].name@ == package_name@))),
    {
        // the first installed version of the name
        let mut current: Option<crate::version::Version> = None;
        let ghost mut found_at: int = 0;
        let n = self.ledger.packages.len();
        let mut i: usize = 0;
        while i < n
            invariant_except_break
                0 <= i <= n,
                n == self.ledger.packages@.len(),
                *self == *old(self),
                current is None,
                forall|j: int|
                    0 <= j < i ==> !((#[trigger] self.ledger.packages@[j]).installed
                        && self.ledger.packages@[j].name@ == package_name@),
            ensures
                *self == *old(self),
                n == self.ledger.packages@.len(),
                current is None ==> forall|j: int|
                    0 <= j < n ==> !((#[trigger] self.ledger.packages@[j]).installed
                        && self.ledger.packages@[j].name@ == package_name@),
                current matches Some(v) ==> 0 <= found_at < n
                    && self.ledger.packages@[found_at].installed
                    && self.ledger.packages@[found_at].name@ == package_name@ && v@
                    == self.ledger.packages@[found_at].version@ && (forall|j: int|
                    0 <= j < found_at ==> !((#[trigger] self.ledger.packages@[j]).installed
                        && self.ledger.packages@[j].name@ == package_name@)),
            decreases n - i,
        {
            if self.ledger.packages[i].installed && str_eq(
                self.ledger.packages[i].name.as_str(),
                package_name,
            ) {
                current = Some(self.ledger.packages[i].version.duplicate());
                proof {
                    found_at = i as int;
                }
                break ;
            }
            i = i + 1;
        }
        let from_version = match current {
            Some(v) => v,
            None => {
                return Err(UhpmError::PackageNotFound(str_to_string(package_name)));
            },
        };
        proof {
            assert(0 <= found_at < old(self).ledger.packages@.len());
            assert(old(self).ledger.packages@[found_at].installed);
            assert(old(self).ledger.packages@[found_at].name@ == package_name@);
            assert(old(self).ledger.packages@[found_at].version@ == from_version@);
            assert(forall|j: int|
                0 <= j < found_at ==> !((#[trigger] old(self).ledger.packages@[j]).installed
                    && old(self).ledger.packages@[j].name@ == package_name@));
        }
        let ghost pinned_at = found_at;
        let current_ref = PackageReference {
            name: str_to_string(package_name),
            version: from_version.duplicate(),
        };
        self.deactivate(&current_ref);
        let ghost mid = *self;
        match self.remove(&current_ref) {
            Ok(_) => {},
            Err(e) => {
                proof {
                    assert(current_ref.name@ == package_name@);
                    assert(current_ref.version@ == from_version@);
                    let rid_c = crate::reference::ref_str(
                        current_ref.name@,
                        current_ref.version@,
                    );
                    assert(!has_active_inst_for(mid.ledger.installations@, rid_c));
                    match &e {
                        UhpmError::PackageIsActive => {
                            assert(false);
                        },
                        UhpmError::PackageNotFound(w) => {
                            assert(w@ == rid_c);
                            assert(!has_pkg(mid.ledger.packages@, rid_c));
                            if has_pkg(old(self).ledger.packages@, rid_c) {
                                let j = choose|j: int|
                                    0 <= j < old(self).ledger.packages@.len() && (#[trigger] old(
                                        self,
                                    ).ledger.packages@[j]).id@ == rid_c;
                                assert(mid.ledger.packages@[j].id@ == rid_c);
                                assert(false);
                            }
                        },
                        _ => {
                            assert(false);
                        },
                    }
                }
                return Err(e);
            },
        }
        let target_ref = PackageReference {
            name: str_to_string(package_name),
            version: target_version.duplicate(),
        };
        let ghost mid2 = *self;
        let install_result = match self.install(&target_ref) {
            Ok(res) => res,
            Err(e) => {
                proof {
                    assert(mid2.remote == old(self).remote);
                    match &e {
                        UhpmError::PackageIsActive => {
                            assert(false);
                        },
                        UhpmError::PackageNotFound(w) => {
                            assert(!remote_has(mid2.remote, w@));
                        },
                        UhpmError::ResolutionError(_) => {
                            let d = choose|d: crate::dependency::Dependency|
                                snapshot_requirement(mid2.remote, d) && !snapshot_satisfiable(
                                    mid2.remote,
                                    d,
                                );
                            assert(snapshot_requirement(old(self).remote, d));
                            assert(!snapshot_satisfiable(old(self).remote, d));
                        },
                        UhpmError::ChecksumMismatch(w) => {
                            assert(snapshot_checksum_bad(mid2.remote, w@));
                        },
                        _ => {},
                    }
                }
                return Err(e);
            },
        };
        proof {
            assert(crate::reference::ref_str(target_ref.name@, target_ref.version@)
                == crate::reference::ref_str(package_name@, target_version@));
        }
        proof {
            assert(0 <= pinned_at < old(self).ledger.packages@.len());
        }
        Ok(
            SwitchResult {
                package_name: str_to_string(package_name),
                from_version: Some(from_version),
                to_version: target_version.duplicate(),
                removed_files: 0,
                installed_files: install_result.installed_files.len(),
                warnings: Vec::new(),
            },
        )
    }

    /// The package the federation knows under the reference, with the
    /// installed and active flags the ledger projects onto it. Not found
    /// exactly when neither a ledger row nor a snapshot entry bears the
    /// key; a package known only to the snapshot comes back with its
    /// snapshot fields and both flags clear.
    pub fn info(&self, package_ref: &PackageReference) -> (r: Result<Package, UhpmError>)
        requires
            engine_wf(*self),
        ensures
            match r {
                Ok(p) => {
                    let rid = crate::reference::ref_str(package_ref.name@, package_ref.version@);
                    &&& p.id@ == rid
                    &&& (forall|i: int|
                        0 <= i < self.ledger.packages@.len() && (
                        #[trigger] self.ledger.packages@[i]).id@ == rid ==> p.installed
                            == self.ledger.packages@[i].installed && p.active
                            == self.ledger.packages@[i].active)
                    &&& (!has_pkg(self.ledger.packages@, rid) ==> !p.installed && !p.active
                        && exists|i: int|
                        0 <= i < self.remote.packages@.len() && (
                        #[trigger] self.remote.packages@[i]).package.id@ == rid && p.name@
                            == self.remote.packages@[i].package.name@ && p.version@
                            == self.remote.packages@[i].package.version@)
                },
                Err(e) => e matches UhpmError::PackageNotFound(_) && !has_pkg(
                    self.ledger.packages@,
                    crate::reference::ref_str(package_ref.name@, package_ref.version@),
                ) && !remote_has(
                    self.remote,
                    crate::reference::ref_str(package_ref.name@, package_ref.version@),
                ),
            },
    {
        let rid = package_ref.id();
        match self.ledger.get_package(rid.as_str()) {
            Some(p) => {
                let r = p.duplicate();
                proof {
                    let w = choose|w: int|
                        0 <= w < self.ledger.packages@.len() && (
                        #[trigger] self.ledger.packages@[w]).id@ == rid@ && p
                            == &self.ledger.packages@[w];
                    assert forall|i2: int|
                        0 <= i2 < self.ledger.packages@.len() && (
                    #[trigger] self.ledger.packages@[i2]).id@ == rid@ implies r.installed
                        == self.ledger.packages@[i2].installed && r.active
                        == self.ledger.packages@[i2].active by {
                        assert(i2 == w);
                    }
                }
                Ok(r)
            },
            None => {
                match self.remote_index_of(rid.as_str()) {
                    Some(i) => {
                        let mut p = self.remote.packages[i].package.duplicate();
                        p.set_installed(false);
                        p.set_active(false);
                        proof {
                            assert(p.name@ == self.remote.packages@[i as int].package.name@);
                            assert(p.version@ == self.remote.packages@[i as int].package.version@);
                            assert(self.remote.packages@[i as int].package.id@ == rid@);
                        }
                        Ok(p)
                    },
                    None => Err(UhpmError::PackageNotFound(str_to_string(rid.as_str()))),
                }
            },
        }
    }

    /// Exactly the ledger rows that stand installed, one copy each, in
    /// ledger order.
    pub fn list_installed(&self) -> (r: Vec<Package>)
        ensures
            forall|k: int| 0 <= k < r@.len() ==> (#[trigger] r@[k]).installed,
            forall|k: int|
                0 <= k < r@.len() ==> exists|j: int|
                    0 <= j < self.ledger.packages@.len() && (
                    #[trigger] self.ledger.packages@[j]).installed && (#[trigger] r@[k]).id@
                        == self.ledger.packages@[j].id@ && r@[k].name@
                        == self.ledger.packages@[j].name@ && r@[k].version@
                        == self.ledger.packages@[j].version@ && r@[k].active
                        == self.ledger.packages@[j].active,
            forall|j: int|
                0 <= j < self.ledger.packages@.len() && (
                #[trigger] self.ledger.packages@[j]).installed ==> exists|k: int|
                    0 <= k < r@.len() && (#[trigger] r@[k]).id@ == self.ledger.packages@[j].id@
                        && r@[k].name@ == self.ledger.packages@[j].name@ && r@[k].version@
                        == self.ledger.packages@[j].version@ && r@[k].active
                        == self.ledger.packages@[j].active,
    {
        let mut r: Vec<Package> = Vec::new();
        let n = self.ledger.packages.len();
        let mut i: usize = 0;
        while i < n
            invariant
                0 <= i <= n,
                n == self.ledger.packages@.len(),
                forall|k: int| 0 <= k < r@.len() ==> (#[trigger] r@[k]).installed,
                forall|k: int|
                    0 <= k < r@.len() ==> exists|j: int|
                        0 <= j < self.ledger.packages@.len() && (
                        #[trigger] self.ledger.packages@[j]).installed && (#[trigger] r@[k]).id@
                            == self.ledger.packages@[j].id@ && r@[k].name@
                            == self.ledger.packages@[j].name@ && r@[k].version@
                            == self.ledger.packages@[j].version@ && r@[k].active
                            == self.ledger.packages@[j].active,
                forall|j: int|
                    0 <= j < i && (#[trigger] self.ledger.packages@[j]).installed ==> exists|
                        k: int,
                    |
                        0 <= k < r@.len() && (#[trigger] r@[k]).id@
                            == self.ledger.packages@[j].id@ && r@[k].name@
                            == self.ledger.packages@[j].name@ && r@[k].version@
                            == self.ledger.packages@[j].version@ && r@[k].active
                            == self.ledger.packages@[j].active,
            decreases n - i,
        {
            if self.ledger.packages[i].installed {
                let ghost before = r@;
                let copy = self.ledger.packages[i].duplicate();
                r.push(copy);
                proof {
                    assert(forall|k: int| 0 <= k < before.len() ==> #[trigger] r@[k] == before[k]);
                    assert(r@[r@.len() - 1].installed);
                    assert(r@[r@.len() - 1].id@ == self.ledger.packages@[i as int].id@);
                }
            }
            i = i + 1;
        }
        r
    }

    /// Every available package whose name holds the query, one entry per
    /// package key, sorted by name.
    pub fn search(&self, query: &str) -> (r: Vec<Package>)
        ensures
            forall|k: int|
                0 <= k < r@.len() ==> search_hit(self.remote, query@, #[trigger] r@[k]),
            forall|a: int, b: int|
                0 <= a < b < r@.len() ==> (#[trigger] r@[a]).id@ != (#[trigger] r@[b]).id@,
            forall|j: int|
                0 <= j < self.remote.packages@.len() && crate::text::contains_seq(
                    (#[trigger] self.remote.packages@[j]).package.name@,
                    query@,
                ) ==> crate::resolver::pkgs_have_id(r@, self.remote.packages@[j].package.id@),
            forall|a: int, b: int|
                0 <= a < b < r@.len() ==> !crate::version::lex_lt(
                    (#[trigger] r@[b]).name@,
                    (#[trigger] r@[a]).name@,
                ),
    {
        // collect the hits, one per package key
        let mut acc: Vec<Package> = Vec::new();
        let n = self.remote.packages.len();
        let mut i: usize = 0;
        while i < n
            invariant
                0 <= i <= n,
                n == self.remote.packages@.len(),
                forall|k: int|
                    0 <= k < acc@.len() ==> search_hit(self.remote, query@, #[trigger] acc@[k]),
                forall|a: int, b: int|
                    0 <= a < b < acc@.len() ==> (#[trigger] acc@[a]).id@ != (
                    #[trigger] acc@[b]).id@,
                forall|j: int|
                    0 <= j < i && crate::text::contains_seq(
                        (#[trigger] self.remote.packages@[j]).package.name@,
                        query@,
                    ) ==> crate::resolver::pkgs_have_id(
                        acc@,
                        self.remote.packages@[j].package.id@,
                    ),
            decreases n - i,
        {
            if crate::text::contains_str(self.remote.packages[i].package.name.as_str(), query) {
                let m = acc.len();
                let mut seen = false;
                let mut x: usize = 0;
                while x < m
                    invariant_except_break
                        0 <= x <= m,
                        m == acc@.len(),
                        0 <= i < n,
                        n == self.remote.packages@.len(),
                        !seen,
                        forall|k: int|
                            0 <= k < x ==> (#[trigger] acc@[k]).id@
                                != self.remote.packages@[i as int].package.id@,
                    ensures
                        m == acc@.len(),
                        0 <= i < n,
                        n == self.remote.packages@.len(),
                        seen ==> crate::resolver::pkgs_have_id(
                            acc@,
                            self.remote.packages@[i as int].package.id@,
                        ),
                        !seen ==> forall|k: int|
                            0 <= k < acc@.len() ==> (#[trigger] acc@[k]).id@
                                != self.remote.packages@[i as int].package.id@,
                    decreases m - x,
                {
                    if str_eq(
                        acc[x].id.as_str(),
                        self.remote.packages[i].package.id.as_str(),
                    ) {
                        seen = true;
                        proof {
                            assert(acc@[x as int].id@
                                == self.remote.packages@[i as int].package.id@);
                        }
                        break ;
                    }
                    x = x + 1;
                }
                if !seen {
                    let ghost before = acc@;
                    let copy = self.remote.packages[i].package.duplicate();
                    acc.push(copy);
                    proof {
                        assert(forall|k: int|
                            0 <= k < before.len() ==> #[trigger] acc@[k] == before[k]);
                        assert(acc@[acc@.len() - 1].id@
                            == self.remote.packages@[i as int].package.id@);
                        assert(search_hit(self.remote, query@, acc@[acc@.len() - 1]));
                        assert forall|j: int|
                            0 <= j < i + 1 && crate::text::contains_seq(
                                (#[trigger] self.remote.packages@[j]).package.name@,
                                query@,
                            ) implies crate::resolver::pkgs_have_id(
                            acc@,
                            self.remote.packages@[j].package.id@,
                        ) by {
                            if j < i {
                                let w = choose|w: int|
                                    0 <= w < before.len() && (#[trigger] before[w]).id@
                                        == self.remote.packages@[j].package.id@;
                                assert(acc@[w].id@ == self.remote.packages@[j].package.id@);
                            }
                        }
                    }
                }
            }
            i = i + 1;
        }
        // selection sort by name
        let mut out: Vec<Package> = Vec::new();
        let mut work = acc;
        while work.len() > 0
            invariant
                forall|k: int|
                    0 <= k < out@.len() ==> search_hit(self.remote, query@, #[trigger] out@[k]),
                forall|k: int|
                    0 <= k < work@.len() ==> search_hit(self.remote, query@, #[trigger] work@[k]),
                forall|a: int, b: int|
                    0 <= a < b < out@.len() ==> (#[trigger] out@[a]).id@ != (
                    #[trigger] out@[b]).id@,
                forall|a: int, b: int|
                    0 <= a < b < work@.len() ==> (#[trigger] work@[a]).id@ != (
                    #[trigger] work@[b]).id@,
                forall|a: int, b: int|
                    0 <= a < out@.len() && 0 <= b < work@.len() ==> (#[trigger] out@[a]).id@ != (
                    #[trigger] work@[b]).id@,
                forall|j: int|
                    0 <= j < self.remote.packages@.len() && crate::text::contains_seq(
                        (#[trigger] self.remote.packages@[j]).package.name@,
                        query@,
                    ) ==> crate::resolver::pkgs_have_id(
                        out@,
                        self.remote.packages@[j].package.id@,
                    ) || crate::resolver::pkgs_have_id(
                        work@,
                        self.remote.packages@[j].package.id@,
                    ),
                forall|a: int, b: int|
                    0 <= a < b < out@.len() ==> !crate::version::lex_lt(
                        (#[trigger] out@[b]).name@,
                        (#[trigger] out@[a]).name@,
                    ),
                forall|a: int, b: int|
                    0 <= a < out@.len() && 0 <= b < work@.len() ==> !crate::version::lex_lt(
                        (#[trigger] work@[b]).name@,
                        (#[trigger] out@[a]).name@,
                    ),
            decreases work@.len(),
        {
            // the least remaining name
            let wn = work.len();
            let mut m: usize = 0;
            let mut x: usize = 1;
            proof {
                crate::version::lemma_lex_lt_asymmetric(work@[0].name@, work@[0].name@);
            }
            while x < wn
                invariant
                    0 <= m < x <= wn,
                    wn == work@.len(),
                    wn > 0,
                    forall|y: int|
                        0 <= y < x ==> !crate::version::lex_lt(
                            (#[trigger] work@[y]).name@,
                            work@[m as int].name@,
                        ),
                decreases wn - x,
            {
                if crate::version::lex_lt_str(work[x].name.as_str(), work[m].name.as_str()) {
                    let ghost old_m = m as int;
                    proof {
                        assert forall|y: int|
                            0 <= y < x + 1 implies !crate::version::lex_lt(
                            (#[trigger] work@[y]).name@,
                            work@[x as int].name@,
                        ) by {
                            if y < x {
                                if crate::version::lex_lt(work@[y].name@, work@[x as int].name@) {
                                    crate::version::lemma_lex_lt_transitive(
                                        work@[y].name@,
                                        work@[x as int].name@,
                                        work@[old_m].name@,
                                    );
                                }
                            } else {
                                crate::version::lemma_lex_lt_asymmetric(
                                    work@[x as int].name@,
                                    work@[x as int].name@,
                                );
                            }
                        }
                    }
                    m = x;
                } else {
                    proof {
                        assert(!crate::version::lex_lt(
                            work@[x as int].name@,
                            work@[m as int].name@,
                        ));
                    }
                }
                x = x + 1;
            }
            let ghost work_before = work@;
            let ghost out_before = out@;
            let picked = work.remove(m);
            proof {
                assert(picked == work_before[m as int]);
                assert(forall|y: int|
                    0 <= y < m ==> #[trigger] work@[y] == work_before[y]);
                assert(forall|y: int|
                    m <= y < work@.len() ==> #[trigger] work@[y] == work_before[y + 1]);
            }
            out.push(picked);
            proof {
                assert(forall|y: int|
                    0 <= y < out_before.len() ==> #[trigger] out@[y] == out_before[y]);
                assert(out@[out@.len() - 1] == work_before[m as int]);
                assert forall|j: int|
                    0 <= j < self.remote.packages@.len() && crate::text::contains_seq(
                        (#[trigger] self.remote.packages@[j]).package.name@,
                        query@,
                    ) implies crate::resolver::pkgs_have_id(
                    out@,
                    self.remote.packages@[j].package.id@,
                ) || crate::resolver::pkgs_have_id(
                    work@,
                    self.remote.packages@[j].package.id@,
                ) by {
                    let jid = self.remote.packages@[j].package.id@;
                    if crate::resolver::pkgs_have_id(out_before, jid) {
                        let w = choose|w: int|
                            0 <= w < out_before.len() && (#[trigger] out_before[w]).id@ == jid;
                        assert(out@[w].id@ == jid);
                    } else {
                        let w = choose|w: int|
                            0 <= w < work_before.len() && (#[trigger] work_before[w]).id@ == jid;
                        if w == m {
                            assert(out@[out@.len() - 1].id@ == jid);
                        } else if w < m {
                            assert(work@[w].id@ == jid);
                        } else {
                            assert(work@[w - 1].id@ == jid);
                        }
                    }
                }
            }
        }
        out
    }

    /// The position of an extracted package in the store.
    pub fn store_index_of(&self, id: &str) -> (r: Option<usize>)
        ensures
            match r {
                Some(i) => i < self.store.packages@.len() && self.store.packages@[i as int].id@
                    == id@,
                None => !store_has(self.store, id@),
            },
    {
        let n = self.store.packages.len();
        let mut i: usize = 0;
        while i < n
            invariant
                0 <= i <= n,
                n == self.store.packages@.len(),
                forall|k: int| 0 <= k < i ==> (#[trigger] self.store.packages@[k]).id@ != id@,
            decreases n - i,
        {
            if str_eq(self.store.packages[i].id.as_str(), id) {
                return Some(i);
            }
            i = i + 1;
        }
        None
    }
}

/// The name part of a `name@version` key.
fn name_of_id(id: &str) -> (r: String)
    ensures
        r@ == id_name(id@),
{
    let n = id.unicode_len();
    match crate::text::find_char(id, '@') {
        Some(i) => {
            proof {
                crate::text::lemma_find_idx_is(id@, '@', i as int);
            }
            let part = id.substring_char(0, i);
            proof {
                assert(part@ =~= id@.subrange(0, i as int));
            }
            str_to_string(part)
        },
        None => {
            proof {
                crate::text::lemma_find_idx_none(id@, '@');
            }
            str_to_string(id)
        },
    }
}

/// Field-by-field copies of the dependencies.
fn duplicate_deps(deps: &Vec<crate::dependency::Dependency>) -> (r: Vec<
    crate::dependency::Dependency,
>)
    ensures
        r@.len() == deps@.len(),
        forall|k: int|
            0 <= k < r@.len() ==> (#[trigger] r@[k]).name@ == deps@[k].name@
                && r@[k].constraint.requirement@ == deps@[k].constraint.requirement@ && r@[k].kind
                == deps@[k].kind,
{
    let mut r: Vec<crate::dependency::Dependency> = Vec::new();
    let n = deps.len();
    let mut i: usize = 0;
    while i < n
        invariant
            0 <= i <= n,
            n == deps@.len(),
            r@.len() == i,
            forall|k: int|
                0 <= k < i ==> (#[trigger] r@[k]).name@ == deps@[k].name@
                    && r@[k].constraint.requirement@ == deps@[k].constraint.requirement@
                    && r@[k].kind == deps@[k].kind,
        decreases n - i,
    {
        r.push(deps[i].duplicate());
        i = i + 1;
    }
    r
}

} // verus!
