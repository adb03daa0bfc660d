//! The error kinds the storage engine reports, each tied to a distinct
//! failure of construction, size discovery, direct I/O, or addressing.

use vstd::prelude::*;

verus! {

/// What can go wrong when opening a device or driving I/O against it.
/// Checksum mismatches are deliberately not here: they are data the checker
/// reports, not errors.
#[derive(Clone, Copy, Debug, PartialEq, Eq, Structural)]
pub enum StorageError {
    /// The path exists but is not a block-special device, or does not exist.
    NotABlockDevice,
    /// The device's reported size could not be read, parsed, or represented.
    SizeDiscoveryFailure,
    /// A direct I/O call's buffer length or offset is not a multiple of the
    /// required alignment.
    AlignmentViolation,
    /// The underlying read or write failed, including running past the end
    /// of the device.
    IoFailure,
    /// A cluster id at or beyond the device's whole-cluster count.
    OutOfRangeCluster,
}

} // verus!
