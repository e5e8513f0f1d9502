//! Core of a user-space package manager: package references and semantic
//! versions, dependency constraints and resolution, a content-addressed
//! package store, install-list materialization, and a durable installation
//! ledger, together with the install / remove / switch protocols that tie
//! them together.

pub mod text;
pub mod version;
pub mod vreq;
pub mod errors;
pub mod target;
pub mod timestamp;
pub mod reference;
pub mod checksum;
pub mod filemeta;
pub mod symlink;
pub mod dependency;
pub mod package;
pub mod installation;
pub mod factory;
pub mod config;
pub mod events;
pub mod repoindex;
pub mod paths;
pub mod instlist;
pub mod meta;
pub mod ledger;
pub mod installer;
pub mod resolver;
pub mod archive;

use vstd::prelude::*;

verus! {

} // verus!
