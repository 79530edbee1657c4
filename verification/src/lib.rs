//! Remote process memory introspection and patching.
//!
//! The crate parses a process's memory map, scans region-sized buffers for a
//! literal byte pattern, and overwrites matches in the target's address space
//! through one-shot cross-address-space transfers.  Map parsing is
//! all-or-nothing: a single malformed line invalidates the whole snapshot.
//! Remote transfers are best-effort: a failure on one region is reported and
//! the remaining regions are still processed.

pub mod engine;
pub mod errors;
pub mod locate;
pub mod parsing;
pub mod region;
pub mod remote;
pub mod scan;
