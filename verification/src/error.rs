//! The ways an operation can fail.

use vstd::prelude::*;

verus! {

/// The kinds of failure.
#[derive(Clone, Copy, Debug, PartialEq, Eq, Structural)]
pub enum Error {
    /// An offset or a name that no chip has.
    NotFound,
    /// A name that more than one line bears, or an offset given without a chip.
    AmbiguousIdentifier,
    /// A bad line count, a direction that does not suit the operation, or an
    /// offset outside the reservation.
    InvalidArgument,
    /// The operation is not available under the negotiated generation.
    Unsupported,
    /// A line is already reserved.
    Busy,
    PermissionDenied,
    /// The object was used after its release.
    Closed,
    /// The kernel answered something that does not fit what was asked.
    ProtocolError,
    /// The chip speaks neither generation.
    NoUsableAbi,
}

/// The kind of failure that an error number of the system stands for
/// when the kernel refuses a call: 16 (busy) is `Busy`; 1 and 13 (not
/// permitted, access denied) are `PermissionDenied`; 22 (invalid argument)
/// is `InvalidArgument`; 25 and 38 (no such call) are `Unsupported`; 9
/// (bad descriptor) is `Closed`; 2, 6 and 19 (no such file or device) are
/// `NotFound`. Any other number is a `ProtocolError`.
pub open spec fn spec_from_errno(errno: i32) -> Error {
    if errno == 16 {
        Error::Busy
    } else if errno == 1 || errno == 13 {
        Error::PermissionDenied
    } else if errno == 22 {
        Error::InvalidArgument
    } else if errno == 25 || errno == 38 {
        Error::Unsupported
    } else if errno == 9 {
        Error::Closed
    } else if errno == 2 || errno == 6 || errno == 19 {
        Error::NotFound
    } else {
        Error::ProtocolError
    }
}

impl Error {
    /// Says what kind of failure the kernel's refusal of a call is: of a
    /// request for lines that another consumer holds, that it is busy; of
    /// one that the caller has no right to, that permission is denied.
    pub fn from_errno(errno: i32) -> (r: Error)
        ensures
            r == spec_from_errno(errno),
    {
        if errno == 16 {
            Error::Busy
        } else if errno == 1 || errno == 13 {
            Error::PermissionDenied
        } else if errno == 22 {
            Error::InvalidArgument
        } else if errno == 25 || errno == 38 {
            Error::Unsupported
        } else if errno == 9 {
            Error::Closed
        } else if errno == 2 || errno == 6 || errno == 19 {
            Error::NotFound
        } else {
            Error::ProtocolError
        }
    }
}

} // verus!
