//! Point-to-point transfers: the session handle and the kinds and states of
//! a transfer.

use vstd::prelude::*;

verus! {

/// A transfer session.
pub struct TransferHandle {}

/// Which way a transfer goes.
#[derive(Debug, Clone, Copy, PartialEq, Eq, Structural)]
pub enum TransferDirection {
    /// Sending.
    Upload,
    /// Receiving.
    Download,
}

/// Where a transfer stands.
#[derive(Debug, Clone, Copy, PartialEq, Eq, Structural)]
pub enum TransferState {
    Pending,
    Transferring,
    Paused,
    Completed,
    Failed,
    Cancelled,
}

} // verus!
