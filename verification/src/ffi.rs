//! The error codes of the discovery-only C interface.

use vstd::prelude::*;

verus! {

/// An error code of the discovery-only C interface.
#[derive(Debug, Clone, Copy, PartialEq, Eq, Structural)]
pub enum FfiErrorCode {
    Success,
    UnknownError,
    InvalidArgument,
    NullPointer,
    Utf8Error,
    DiscoveryError,
}

impl FfiErrorCode {
    /// The number the C interface uses: 0 for success, then -1 down to -5.
    pub fn code(&self) -> (r: i32)
        ensures
            r as int == match *self {
                FfiErrorCode::Success => 0int,
                FfiErrorCode::UnknownError => -1,
                FfiErrorCode::InvalidArgument => -2,
                FfiErrorCode::NullPointer => -3,
                FfiErrorCode::Utf8Error => -4,
                FfiErrorCode::DiscoveryError => -5,
            },
    {
        match self {
            FfiErrorCode::Success => 0,
            FfiErrorCode::UnknownError => -1,
            FfiErrorCode::InvalidArgument => -2,
            FfiErrorCode::NullPointer => -3,
            FfiErrorCode::Utf8Error => -4,
            FfiErrorCode::DiscoveryError => -5,
        }
    }
}

} // verus!
