//! The deterministic layout: where the store, the ledger, the cache, and
//! the logs live under the base directory.

use crate::text::concat_str;
use crate::text::str_to_string;
use vstd::prelude::*;

verus! {

/// The filesystem locations of one user's package manager.
#[derive(Clone, Debug, PartialEq, Eq)]
pub struct Paths {
    pub base_dir: String,
    pub config_path: String,
    pub cache_dir: String,
    pub temp_dir: String,
}

impl Paths {
    pub fn new(base_dir: String, config_path: String, cache_dir: String, temp_dir: String) -> (r:
        Paths)
        ensures
            r.base_dir@ == base_dir@,
            r.config_path@ == config_path@,
            r.cache_dir@ == cache_dir@,
            r.temp_dir@ == temp_dir@,
    {
        Paths { base_dir, config_path, cache_dir, temp_dir }
    }

    pub fn base_dir(&self) -> (r: String)
        ensures
            r@ == self.base_dir@,
    {
        str_to_string(self.base_dir.as_str())
    }

    /// The package store: `base/packages`.
    pub fn packages_dir(&self) -> (r: String)
        ensures
            r@ == self.base_dir@ + "/packages"@,
    {
        concat_str(self.base_dir.as_str(), "/packages")
    }

    /// The ledger database: `base/packages.db`.
    pub fn db_path(&self) -> (r: String)
        ensures
            r@ == self.base_dir@ + "/packages.db"@,
    {
        concat_str(self.base_dir.as_str(), "/packages.db")
    }

    pub fn config_path(&self) -> (r: String)
        ensures
            r@ == self.config_path@,
    {
        str_to_string(self.config_path.as_str())
    }

    pub fn cache_dir(&self) -> (r: String)
        ensures
            r@ == self.cache_dir@,
    {
        str_to_string(self.cache_dir.as_str())
    }

    pub fn temp_dir(&self) -> (r: String)
        ensures
            r@ == self.temp_dir@,
    {
        str_to_string(self.temp_dir.as_str())
    }

    /// The log directory: `base/logs`.
    pub fn log_dir(&self) -> (r: String)
        ensures
            r@ == self.base_dir@ + "/logs"@,
    {
        concat_str(self.base_dir.as_str(), "/logs")
    }
}

} // verus!
