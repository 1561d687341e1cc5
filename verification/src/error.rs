use vstd::prelude::*;

verus! {

/// The recoverable failures this subsystem reports to its callers.
///
/// All of these are returned as ordinary results; none is fatal to the
/// calling process, and state is left unchanged on every failure path.
#[derive(Clone, Copy, Debug, PartialEq, Eq, Structural)]
pub enum Error {
    /// The descriptor is not currently allocated in the caller's table.
    BadDescriptor,
    /// The numeric control-command code is outside the recognized set.
    UnsupportedCommand,
    /// A malformed lock type or byte range, or an out-of-range minimum
    /// descriptor.
    InvalidArgument,
    /// A user-supplied address failed validation against the caller's
    /// permitted memory regions.
    InvalidAddress,
    /// A conflicting record lock held by another process blocks the request.
    Locked,
}

} // verus!
