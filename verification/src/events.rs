//! Lifecycle events the engine emits.

use crate::package::Package;
use crate::reference::PackageReference;
use vstd::prelude::*;

verus! {

/// One lifecycle event, in the order the engine emits them.
#[derive(Debug)]
pub enum PackageEvent {
    InstallationStarted { package_ref: PackageReference },
    InstallationCompleted { package: Package },
    InstallationFailed { package_ref: PackageReference, error: String },
    RemoveStarted { package_ref: PackageReference },
    RemoveCompleted { package_ref: PackageReference },
    UpdateStarted { package_ref: PackageReference },
    UpdateCompleted { package: Package },
    DownloadStarted { package_ref: PackageReference, size: Option<u64> },
    DownloadProgress { package_ref: PackageReference, downloaded: u64, total: Option<u64> },
    DownloadCompleted { package_ref: PackageReference },
    DependencyResolved { dependency: String, package: Package },
}

} // verus!
