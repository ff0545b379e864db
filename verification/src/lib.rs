//! Verified core of a command-line configuration editor for a
//! dynamic-library-injection framework.
//!
//! The library models the persisted configuration tree (per-target tweak
//! configurations, compatibility overrides, global flags), the allow/deny
//! evaluation rule that decides whether a named plugin loads, and the
//! resolvers that normalize free-text plugin and target names against
//! snapshots of the installed-plugin, application and daemon directories.
//! All file, IPC and terminal work lives outside this crate; the functions
//! here are pure with respect to those snapshots.

pub mod apps;
pub mod cmd;
pub mod daemons;
pub mod laws;
pub mod libhooker;
pub mod smap;
pub mod strutil;
pub mod tweaks;
