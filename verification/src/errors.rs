use vstd::prelude::*;

verus! {

/// Failure taxonomy of the crate.
///
/// Map parsing is all-or-nothing: a structural fault (`OtherError`) or a bad
/// numeric field (`ParseIntError`) anywhere in the map text aborts the whole
/// parse.  Remote transfers instead fail softly per call: a failed system
/// call surfaces as `Errno` with the raw OS error code and the caller goes on
/// with the remaining regions.  `IoError` reports a failure to obtain the map
/// text in the first place.
#[derive(Debug, Clone)]
pub enum MemMapError {
    /// The per-process map text could not be read.
    IoError(String),
    /// A numeric field of a map line is not a valid number of its base, or
    /// does not fit its type.
    ParseIntError,
    /// A remote-memory system call failed; carries the raw OS error code.
    Errno(i32),
    /// A structural fault: a map line with too few fields, or an address
    /// range whose end precedes its start.
    OtherError(String),
}

} // verus!
