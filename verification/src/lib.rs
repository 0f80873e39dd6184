//! The filesystem-and-privilege core of a container runner: the on-disk
//! lifecycle of persistent and transient container root filesystems.
//!
//! Four engines share this crate. The deletion engine ([`rmdirs`]) removes
//! directory trees an unprivileged caller may not touch directly, through a
//! helper re-invoked in a fresh user namespace; its handshake ordering and
//! its tolerance of missing paths are proved. The retention policy engine
//! ([`clean`]) classifies on-disk directories into deletion sets as pure
//! functions over directory-listing snapshots. The transient
//! materialization engine ([`run`]) plans hardlink clones of a root into a
//! uniquely named disposable copy, with a sentinel whose release yields the
//! recorded directory exactly once, on every exit path. The mount spec
//! builder and the atomic resolver-config writer ([`run`], with the path
//! logic of [`paths`]) translate in-container paths into the runner's
//! staging tree.
//!
//! Filesystem scanning, process spawning and the other I/O live with the
//! callers; the functions here take listings, link targets, probe results
//! and exit statuses as plain values, and their contracts pin down what is
//! decided from them.

pub mod clean;
pub mod paths;
pub mod rmdirs;
pub mod run;
pub mod types;
