//! The version-decision core of a release tool for a workspace of packages.
//!
//! Given a snapshot of the workspace and the answers of its collaborators (the
//! version-control layer and the interactive prompt), the library decides which
//! packages changed since the last release, splits them by versioning policy,
//! and derives the next semantic version of each group.
//!
//! - [`prerelease`]: the syntax of pre-release tags, their order, and the tag
//!   that comes next.
//! - [`semantic_version`]: versions, their precedence, their maximum and their
//!   bumps.
//! - [`workspace`]: the packages of the snapshot and the packages found changed.
//! - [`scan`]: from the files that differ to every package that the change
//!   reaches.
//! - [`partition`]: the split into independent and synchronized packages, and
//!   the groups that are versioned together.
//! - [`decision`]: from the current version and a selection to the next
//!   version.
//! - [`version`]: the run as a state machine over the answers of the
//!   collaborators.
//!
//! The order of pre-release tags and the reading of a version from text are
//! those of the `semver` crate; everything else is proved here.

pub mod prerelease;
pub mod semantic_version;
pub mod workspace;
pub mod scan;
pub mod partition;
pub mod decision;
pub mod version;
