//! Metadata of installed files: permissions, file kinds, checksums, and
//! the string forms the ledger stores.

use crate::checksum::digest_hex;
use crate::errors::UhpmError;
use crate::text::str_eq;
use crate::text::str_to_string;
use crate::timestamp::Timestamp;
use vstd::prelude::*;

verus! {

/// A file checksum: an algorithm name and a hex hash.
#[derive(Clone, Debug, PartialEq, Eq)]
pub struct FileChecksum {
    pub algorithm: String,
    pub hash: String,
}

/// Read, write and execute bits.
#[derive(Clone, Copy, Debug, PartialEq, Eq, Structural)]
pub struct FilePermissions {
    pub read: bool,
    pub write: bool,
    pub execute: bool,
}

impl Default for FilePermissions {
    /// Read-only.
    fn default() -> (r: FilePermissions)
        ensures
            r == (FilePermissions { read: true, write: false, execute: false }),
    {
        FilePermissions { read: true, write: false, execute: false }
    }
}

/// The octal value of the owner bits: read 0o400, write 0o200, execute
/// 0o100.
pub open spec fn octal_of(p: FilePermissions) -> int {
    (if p.read {
        0o400int
    } else {
        0int
    }) + (if p.write {
        0o200int
    } else {
        0int
    }) + (if p.execute {
        0o100int
    } else {
        0int
    })
}

impl FilePermissions {
    /// Read and execute.
    pub fn executable() -> (r: FilePermissions)
        ensures
            r == (FilePermissions { read: true, write: false, execute: true }),
    {
        FilePermissions { read: true, write: false, execute: true }
    }

    /// Read only.
    pub fn read_only() -> (r: FilePermissions)
        ensures
            r == (FilePermissions { read: true, write: false, execute: false }),
    {
        FilePermissions { read: true, write: false, execute: false }
    }

    /// Read and write.
    pub fn read_write() -> (r: FilePermissions)
        ensures
            r == (FilePermissions { read: true, write: true, execute: false }),
    {
        FilePermissions { read: true, write: true, execute: false }
    }

    pub fn is_executable(&self) -> (r: bool)
        ensures
            r == self.execute,
    {
        self.execute
    }

    /// The owner bits as an octal value.
    pub fn octal(&self) -> (r: u32)
        ensures
            r == octal_of(*self),
    {
        let mut result: u32 = 0;
        if self.read {
            result = result + 0o400;
        }
        if self.write {
            result = result + 0o200;
        }
        if self.execute {
            result = result + 0o100;
        }
        result
    }
}

/// The kind of an installed path.
#[derive(Clone, Copy, Debug, PartialEq, Eq, Structural)]
pub enum FileType {
    Regular,
    Directory,
    Symlink,
    Executable,
}

/// The ledger token of a file kind.
pub open spec fn file_type_str(t: FileType) -> Seq<char> {
    match t {
        FileType::Regular => "regular"@,
        FileType::Directory => "directory"@,
        FileType::Symlink => "symlink"@,
        FileType::Executable => "executable"@,
    }
}

/// Writes a file kind as its ledger token.
pub fn file_type_to_string(t: &FileType) -> (r: String)
    ensures
        r@ == file_type_str(*t),
{
    match t {
        FileType::Regular => str_to_string("regular"),
        FileType::Directory => str_to_string("directory"),
        FileType::Symlink => str_to_string("symlink"),
        FileType::Executable => str_to_string("executable"),
    }
}

/// Reads a file kind from its ledger token; an unknown token is a regular
/// file.
pub fn string_to_file_type(s: &str) -> (r: FileType)
    ensures
        s@ == "directory"@ ==> r == FileType::Directory,
        s@ == "symlink"@ ==> r == FileType::Symlink,
        s@ == "executable"@ ==> r == FileType::Executable,
        s@ != "directory"@ && s@ != "symlink"@ && s@ != "executable"@ ==> r == FileType::Regular,
{
    proof {
        reveal_strlit("directory");
        reveal_strlit("symlink");
        reveal_strlit("executable");
        assert("directory"@.len() == 9 && "symlink"@.len() == 7 && "executable"@.len() == 10);
    }
    if str_eq(s, "directory") {
        FileType::Directory
    } else if str_eq(s, "symlink") {
        FileType::Symlink
    } else if str_eq(s, "executable") {
        FileType::Executable
    } else {
        FileType::Regular
    }
}

/// Every file kind comes back from its own ledger token.
pub proof fn lemma_file_type_round_trip(t: FileType)
    ensures
        file_type_str(t) == "directory"@ ==> t == FileType::Directory,
        file_type_str(t) == "symlink"@ ==> t == FileType::Symlink,
        file_type_str(t) == "executable"@ ==> t == FileType::Executable,
        !(file_type_str(t) == "directory"@ || file_type_str(t) == "symlink"@ || file_type_str(t)
            == "executable"@) ==> t == FileType::Regular,
{
    reveal_strlit("regular");
    reveal_strlit("directory");
    reveal_strlit("symlink");
    reveal_strlit("executable");
    assert("regular"@.len() == 7);
    assert("directory"@.len() == 9);
    assert("symlink"@.len() == 7);
    assert("executable"@.len() == 10);
    assert("regular"@[0] == 'r' && "symlink"@[0] == 's');
}

/// What is known of one installed file.
#[derive(Clone, Debug, PartialEq, Eq)]
pub struct FileMetadata {
    pub path: String,
    pub size: u64,
    pub checksum: Option<FileChecksum>,
    pub permissions: FilePermissions,
    pub created_at: Timestamp,
    pub modified_at: Timestamp,
    pub file_type: FileType,
}

impl FileMetadata {
    /// A regular read-only file of the given path and size, stamped now.
    pub fn new(path: String, size: u64) -> (r: FileMetadata)
        ensures
            r.path@ == path@,
            r.size == size,
            r.checksum is None,
            r.permissions == (FilePermissions { read: true, write: false, execute: false }),
            r.file_type == FileType::Regular,
    {
        let now = Timestamp::now();
        let now2 = now.duplicate();
        FileMetadata {
            path,
            size,
            checksum: None,
            permissions: FilePermissions { read: true, write: false, execute: false },
            created_at: now,
            modified_at: now2,
            file_type: FileType::Regular,
        }
    }

    /// The same metadata with a checksum.
    pub fn with_checksum(self, algorithm: &str, hash: &str) -> (r: FileMetadata)
        ensures
            r.checksum matches Some(c) && c.algorithm@ == algorithm@ && c.hash@ == hash@,
            r.path@ == self.path@,
            r.size == self.size,
            r.permissions == self.permissions,
            r.file_type == self.file_type,
    {
        FileMetadata {
            checksum: Some(
                FileChecksum { algorithm: str_to_string(algorithm), hash: str_to_string(hash) },
            ),
            ..self
        }
    }

    /// The same metadata with other permissions.
    pub fn with_permissions(self, permissions: FilePermissions) -> (r: FileMetadata)
        ensures
            r.permissions == permissions,
            r.path@ == self.path@,
            r.size == self.size,
            r.checksum == self.checksum,
            r.file_type == self.file_type,
    {
        FileMetadata { permissions, ..self }
    }

    /// The same metadata with another file kind.
    pub fn with_file_type(self, file_type: FileType) -> (r: FileMetadata)
        ensures
            r.file_type == file_type,
            r.path@ == self.path@,
            r.size == self.size,
            r.checksum == self.checksum,
            r.permissions == self.permissions,
    {
        FileMetadata { file_type, ..self }
    }

    pub fn is_executable(&self) -> (r: bool)
        ensures
            r == self.permissions.execute,
    {
        self.permissions.is_executable()
    }

    pub fn is_symlink(&self) -> (r: bool)
        ensures
            r == (self.file_type == FileType::Symlink),
    {
        match self.file_type {
            FileType::Symlink => true,
            _ => false,
        }
    }

    pub fn is_directory(&self) -> (r: bool)
        ensures
            r == (self.file_type == FileType::Directory),
    {
        match self.file_type {
            FileType::Directory => true,
            _ => false,
        }
    }

    /// Checks the bytes against the recorded checksum; no checksum accepts
    /// everything.
    pub fn verify_checksum(&self, data: &[u8]) -> (r: Result<bool, UhpmError>)
        ensures
            match r {
                Ok(b) => match self.checksum {
                    None => b == true,
                    Some(c) => digest_hex(c.algorithm@, data@) matches Some(h) && b == (h
                        == c.hash@),
                },
                Err(e) => self.checksum matches Some(c) && digest_hex(c.algorithm@, data@) is None
                    && e matches UhpmError::ValidationError(_),
            },
    {
        match &self.checksum {
            None => Ok(true),
            Some(c) => {
                match crate::checksum::compute_digest_hex(c.algorithm.as_str(), data) {
                    Some(actual) => Ok(str_eq(actual.as_str(), c.hash.as_str())),
                    None => Err(UhpmError::validation("unsupported checksum algorithm")),
                }
            },
        }
    }
}

} // verus!
