//! Consistency validation for derived data, and the configuration of the
//! repositories that it runs on.
//!
//! Derived data is computed from commits and stored under keys made from
//! content hashes. To validate it, the data of a commit is derived once
//! more through an overlay that keeps all writes to itself, the result is
//! held against the stored one, and the blobs that the commit introduced
//! are looked for among the overlay's writes.
//!
//! - [`overlay`] and [`mapping`]: the copy-on-write overlays.
//! - [`manifest`]: manifests and the diff of a manifest against the
//!   manifests of all parents.
//! - [`keys`] and [`validation`]: blob keys and the checks on one commit.
//! - [`orchestrator`] and [`driver`]: the phases of a chunk and the run
//!   over all chunks.
//! - [`metaconfig`] and [`repoconfig`]: what a repository's configuration
//!   consists of, and how it is made from raw settings.

pub mod driver;
pub mod ids;
pub mod keys;
pub mod manifest;
pub mod mapping;
pub mod metaconfig;
pub mod orchestrator;
pub mod overlay;
pub mod repoconfig;
pub mod validation;
