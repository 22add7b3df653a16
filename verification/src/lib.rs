//! Per-dependency capability enforcement for a Cargo workspace.
//!
//! The crate audits which third-party packages use which categories of
//! sensitive APIs (filesystem, network, process spawning, ...) and either
//! permits a build or reports a policy violation.  A configuration file
//! declares named permissions as symbol-prefix include/exclude rules plus a
//! per-package allowlist; the checker attributes every referenced symbol
//! path to a set of permissions and compares against the allowlist.
//!
//! The modules hold the verified core: the prefix matcher, the problem
//! model with deduplication and grouping, link-invocation parsing, the
//! package index derived from cargo metadata, the problem store, the
//! formatting-preserving config editor, and the decision logic of the
//! interactive loop and the build driver.  Process management, sockets and
//! terminal drawing sit outside the library and hand it plain values.

pub mod checker;
pub mod crab1;
pub mod crate_index;
pub mod link_info;
pub mod problem;
pub mod problem_store;
pub mod problems_ui;
pub mod proxy;
pub mod term;
pub mod config;
pub mod config_editor;
pub mod textutil;

pub use textutil::u64_to_string;
