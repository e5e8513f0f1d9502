//! Installation records: a unique identifier, the files and links an
//! installation owns, and its active flag.

use crate::errors::UhpmError;
use crate::filemeta::FileMetadata;
use crate::reference::PackageId;
use crate::symlink::Symlink;
use crate::text::str_eq;
use crate::text::str_to_string;
use crate::timestamp::Timestamp;
use vstd::prelude::*;

verus! {

/// Whether the text is a UUID in one of the textual forms uuid accepts.
pub uninterp spec fn is_uuid_text(s: Seq<char>) -> bool;

/// Relies on uuid's Uuid::new_v4 and its hyphenated Display form. The
/// result is random, so nothing is promised of it.
#[verifier::external_body]
fn fresh_uuid_string() -> (r: String) {
    uuid::Uuid::new_v4().to_string()
}

/// Relies on uuid's Uuid::try_parse: accepts exactly the textual UUID
/// forms, a function of the text alone.
#[verifier::external_body]
fn uuid_text_ok(s: &str) -> (r: bool)
    ensures
        r == is_uuid_text(s@),
{
    uuid::Uuid::try_parse(s).is_ok()
}

/// The identifier of one installation.
#[derive(Clone, Debug, PartialEq, Eq, Hash)]
pub struct InstallationId {
    pub text: String,
}

impl InstallationId {
    /// A fresh random identifier.
    pub fn new() -> (r: InstallationId) {
        InstallationId { text: fresh_uuid_string() }
    }

    /// Reads an identifier back from stored text, rejecting anything that
    /// is not a UUID.
    pub fn try_from(value: &str) -> (r: Result<InstallationId, UhpmError>)
        ensures
            match r {
                Ok(id) => is_uuid_text(value@) && id.text@ == value@,
                Err(e) => !is_uuid_text(value@) && e matches UhpmError::ValidationError(_),
            },
    {
        if uuid_text_ok(value) {
            Ok(InstallationId { text: str_to_string(value) })
        } else {
            Err(UhpmError::validation("invalid installation ID"))
        }
    }

    /// The identifier as text.
    pub fn to_string(&self) -> (r: String)
        ensures
            r@ == self.text@,
    {
        str_to_string(self.text.as_str())
    }

    /// A field-by-field copy.
    pub fn duplicate(&self) -> (r: InstallationId)
        ensures
            r.text@ == self.text@,
    {
        InstallationId { text: str_to_string(self.text.as_str()) }
    }

    /// Whether the two identifiers agree.
    pub fn same(&self, other: &InstallationId) -> (r: bool)
        ensures
            r == (self.text@ == other.text@),
    {
        str_eq(self.text.as_str(), other.text.as_str())
    }
}

/// The paths of the recorded files, in order.
pub open spec fn file_paths(files: Seq<(String, FileMetadata)>) -> Seq<Seq<char>> {
    files.map_values(|e: (String, FileMetadata)| e.0@)
}

/// Each recorded path appears once.
pub open spec fn files_unique(files: Seq<(String, FileMetadata)>) -> bool {
    forall|i: int, j: int|
        0 <= i < j < files.len() ==> (#[trigger] files[i]).0@ != (#[trigger] files[j]).0@
}

/// One installation of one package: what was materialized, and whether it
/// is the active one.
#[derive(Debug)]
pub struct Installation {
    pub id: InstallationId,
    pub package_id: PackageId,
    pub installed_files: Vec<(String, FileMetadata)>,
    pub symlinks: Vec<Symlink>,
    pub installed_at: Timestamp,
    pub active: bool,
}

impl Installation {
    pub fn new(
        id: InstallationId,
        package_id: PackageId,
        installed_files: Vec<(String, FileMetadata)>,
        symlinks: Vec<Symlink>,
        installed_at: Timestamp,
        active: bool,
    ) -> (r: Installation)
        ensures
            r.id.text@ == id.text@,
            r.package_id@ == package_id@,
            r.installed_files == installed_files,
            r.symlinks == symlinks,
            r.installed_at == installed_at,
            r.active == active,
    {
        Installation { id, package_id, installed_files, symlinks, installed_at, active }
    }

    /// Records one file; a path recorded before is overwritten in place.
    pub fn add_installed_file(&mut self, path: String, metadata: FileMetadata)
        requires
            files_unique(old(self).installed_files@),
        ensures
            files_unique(final(self).installed_files@),
            exists|k: int|
                0 <= k < final(self).installed_files@.len()
                    && (#[trigger] final(self).installed_files@[k]).0@ == path@
                    && final(self).installed_files@[k].1 == metadata,
            forall|k: int|
                0 <= k < final(self).installed_files@.len()
                    && (#[trigger] final(self).installed_files@[k]).0@ != path@ ==> old(
                    self,
                ).installed_files@.contains(final(self).installed_files@[k]),
            final(self).symlinks == old(self).symlinks,
            final(self).active == old(self).active,
            final(self).id == old(self).id,
            final(self).package_id == old(self).package_id,
    {
        let n = self.installed_files.len();
        let mut i: usize = 0;
        while i < n
            invariant
                0 <= i <= n,
                n == self.installed_files@.len(),
                *self == *old(self),
                files_unique(old(self).installed_files@),
                forall|k: int| 0 <= k < i ==> (#[trigger] self.installed_files@[k]).0@ != path@,
            decreases n - i,
        {
            if str_eq(self.installed_files[i].0.as_str(), path.as_str()) {
                let ghost before = self.installed_files@;
                self.installed_files.set(i, (path, metadata));
                proof {
                    assert(forall|k: int|
                        0 <= k < self.installed_files@.len() && k != i
                            ==> #[trigger] self.installed_files@[k] == before[k]);
                    assert((self.installed_files@[i as int]).0@ == path@);
                    assert(before[i as int].0@ == path@);
                    assert(before == old(self).installed_files@);
                    assert(files_unique(before));
                    assert forall|a: int, b: int|
                        0 <= a < b < self.installed_files@.len() implies (
                    #[trigger] self.installed_files@[a]).0@ != (
                    #[trigger] self.installed_files@[b]).0@ by {
                        assert((#[trigger] before[a]).0@ != (#[trigger] before[b]).0@);
                        if a == i {
                            assert((self.installed_files@[a]).0@ == before[a].0@);
                        }
                        if b == i {
                            assert((self.installed_files@[b]).0@ == before[b].0@);
                        }
                    }
                }
                return ;
            }
            i = i + 1;
        }
        self.installed_files.push((path, metadata));
        proof {
            assert(forall|k: int|
                0 <= k < self.installed_files@.len() - 1 ==> self.installed_files@[k] == old(
                    self,
                ).installed_files@[k]);
            assert((self.installed_files@[n as int]).0@ == path@);
        }
    }

    /// Records one symlink at the end.
    pub fn add_symlink(&mut self, symlink: Symlink)
        ensures
            final(self).symlinks@ == old(self).symlinks@.push(symlink),
            final(self).installed_files == old(self).installed_files,
            final(self).active == old(self).active,
            final(self).id == old(self).id,
            final(self).package_id == old(self).package_id,
    {
        self.symlinks.push(symlink);
    }

    pub fn activate(&mut self)
        ensures
            final(self).active == true,
            final(self).installed_files == old(self).installed_files,
            final(self).symlinks == old(self).symlinks,
            final(self).id == old(self).id,
            final(self).package_id == old(self).package_id,
            final(self).installed_at == old(self).installed_at,
    {
        self.active = true;
    }

    pub fn deactivate(&mut self)
        ensures
            final(self).active == false,
            final(self).installed_files == old(self).installed_files,
            final(self).symlinks == old(self).symlinks,
            final(self).id == old(self).id,
            final(self).package_id == old(self).package_id,
            final(self).installed_at == old(self).installed_at,
    {
        self.active = false;
    }

    /// Whether every recorded file path stands in the given listing of
    /// existing paths; a missing one is the error.
    pub fn verify_integrity(&self, existing: &Vec<String>) -> (r: Result<(), UhpmError>)
        ensures
            r is Ok <==> (forall|k: int|
                0 <= k < self.installed_files@.len() ==> crate::text::seq_has_string(
                    existing@,
                    (#[trigger] self.installed_files@[k]).0@,
                )),
            r is Err ==> r matches Err(UhpmError::InstallationError(_)),
    {
        let n = self.installed_files.len();
        let mut k: usize = 0;
        while k < n
            invariant
                0 <= k <= n,
                n == self.installed_files@.len(),
                forall|x: int|
                    0 <= x < k ==> crate::text::seq_has_string(
                        existing@,
                        (#[trigger] self.installed_files@[x]).0@,
                    ),
            decreases n - k,
        {
            let found = crate::text::vec_contains_str(existing, self.installed_files[k].0.as_str());
            if !found {
                return Err(UhpmError::installation("missing installed file"));
            }
            k = k + 1;
        }
        Ok(())
    }

    pub fn id(&self) -> (r: &InstallationId)
        ensures
            r == &self.id,
    {
        &self.id
    }

    pub fn package_id(&self) -> (r: &PackageId)
        ensures
            r@ == self.package_id@,
    {
        &self.package_id
    }

    pub fn installed_at(&self) -> (r: &Timestamp)
        ensures
            r == &self.installed_at,
    {
        &self.installed_at
    }

    pub fn is_active(&self) -> (r: bool)
        ensures
            r == self.active,
    {
        self.active
    }

    pub fn installed_files(&self) -> (r: &Vec<(String, FileMetadata)>)
        ensures
            r == &self.installed_files,
    {
        &self.installed_files
    }

    pub fn symlinks(&self) -> (r: &Vec<Symlink>)
        ensures
            r == &self.symlinks,
    {
        &self.symlinks
    }

    pub fn set_id(&mut self, id: InstallationId)
        ensures
            final(self).id.text@ == id.text@,
            final(self).installed_files == old(self).installed_files,
            final(self).symlinks == old(self).symlinks,
            final(self).active == old(self).active,
            final(self).package_id == old(self).package_id,
    {
        self.id = id;
    }

    pub fn set_installed_at(&mut self, installed_at: Timestamp)
        ensures
            final(self).installed_at == installed_at,
            final(self).installed_files == old(self).installed_files,
            final(self).symlinks == old(self).symlinks,
            final(self).active == old(self).active,
            final(self).id == old(self).id,
            final(self).package_id == old(self).package_id,
    {
        self.installed_at = installed_at;
    }
}

} // verus!
