//! The error taxonomy of the package manager.

use crate::text::str_to_string;
use vstd::prelude::*;

verus! {

/// Everything that can go wrong, with a human-readable detail string.
#[derive(Clone, Debug, PartialEq, Eq)]
pub enum UhpmError {
    PackageNotFound(String),
    InstallationNotFound(String),
    VersionMismatch { package: String, required: String },
    ResolutionError(String),
    DependencyConflictError(String),
    RepositoryUnavailable(String),
    PackageAlreadyInstalled(String),
    NoNewVersion(String),
    PackageIsActive,
    ValidationError(String),
    InvalidPackage(String),
    ChecksumMismatch(String),
    UnsupportedTarget(String),
    InstallationError(String),
    SymlinkError(String),
    RemovalError(String),
    SwitchError(String),
    NetworkError(String),
    DownloadError(String),
    RepositoryCorrupted(String),
    DatabaseError(String),
    StorageError(String),
    CacheError(String),
    ConfigError(String),
    InvalidConfig(String),
    IoError(String),
    FileSystemError(String),
    PermissionError(String),
    SerializationError(String),
    DeserializationError(String),
    ExternalToolError(String),
}

/// What can go wrong at the filesystem boundary.
#[derive(Clone, Debug, PartialEq, Eq)]
pub enum FsError {
    NotFound(String),
    PermissionDenied(String),
    Io(String),
    InvalidPath(String),
    NotADirectory(String),
    Unsupported(String),
    ExtractionError(String),
}

impl UhpmError {
    /// A validation error with the given detail.
    pub fn validation(msg: &str) -> (r: UhpmError)
        ensures
            r matches UhpmError::ValidationError(s) && s@ == msg@,
    {
        UhpmError::ValidationError(str_to_string(msg))
    }

    /// An installation error with the given detail.
    pub fn installation(msg: &str) -> (r: UhpmError)
        ensures
            r matches UhpmError::InstallationError(s) && s@ == msg@,
    {
        UhpmError::InstallationError(str_to_string(msg))
    }

    /// A network error with the given detail.
    pub fn network(msg: &str) -> (r: UhpmError)
        ensures
            r matches UhpmError::NetworkError(s) && s@ == msg@,
    {
        UhpmError::NetworkError(str_to_string(msg))
    }
}

} // verus!
