//! Narrowing a vendored dependency tree to the packages that a set of target
//! platforms, features and dependency kinds really needs.
//!
//! The library holds the decisions: which platforms a pattern stands for,
//! which packages are needed, which directory each was written to, what to
//! do with each directory that is found, and what the checksum file of a
//! package holds afterwards. Running tools and touching the disk is left to
//! the caller.

use vstd::prelude::*;

pub mod archive;
pub mod checksum;
pub mod config;
pub mod dep_kinds;
pub mod directory;
pub mod error;
pub mod exclude;
pub mod inclusion;
pub mod output;
pub mod package;
pub mod prune;
pub mod reconcile;
pub mod run;
pub mod stub;
pub mod target;
pub mod text;
pub mod tiers;
pub mod version;

pub use crate::dep_kinds::DepKinds;
pub use crate::output::{VENDOR_DEFAULT_PATH, VENDOR_DEFAULT_PATH_TAR, VENDOR_DEFAULT_PATH_TAR_GZ, VENDOR_DEFAULT_PATH_TAR_ZSTD};
pub use crate::stub::{CARGO_TOML, MANIFEST_KEY_PACKAGE};

verus! {

/// The key under `package.metadata` of a manifest that holds the filter.
pub const CONFIG_KEY: &'static str = "vendor-filter";

/// The name of the binary when it is run as a subcommand of cargo.
pub const SELF_NAME: &'static str = "vendor-filterer";

/// The name of the file that holds the checksums of a package.
pub const CARGO_CHECKSUM: &'static str = ".cargo-checksum.json";

/// The argument that makes cargo work offline.
pub const OFFLINE: &'static str = "--offline";

/// The argument that hands cargo one more manifest.
pub const SYNC: &'static str = "--sync";

/// The argument that makes `cargo vendor` respect an override of the
/// registry source.
pub const RESPECT_SOURCE_CONFIG: &'static str = "--respect-source-config";

/// The argument that makes `cargo vendor` put the version into the name of
/// every directory.
pub const VERSIONED_DIRS: &'static str = "--versioned-dirs";

} // verus!
