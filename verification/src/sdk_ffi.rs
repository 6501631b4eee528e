//! The numbers the SDK's C interface reports: error codes, transfer
//! directions and states, event kinds and discovery sources.

use vstd::prelude::*;
use crate::discovery::manager::DiscoverySource;
use crate::sdk::types::{SDKError, SDKEvent, TransferDirection, TransferStatus};

verus! {

/// An error code of the C interface.
#[derive(Debug, Clone, Copy, PartialEq, Eq, Structural)]
pub enum FfiErrorCode {
    Success,
    Error,
    NotInitialized,
    AlreadyRunning,
    InvalidArgument,
    NotFound,
    Io,
    Network,
    Discovery,
    Transfer,
    Server,
}

impl FfiErrorCode {
    /// The number the C interface uses: 0 for success, then -1 down to -10.
    pub fn code(&self) -> (r: i32)
        ensures
            r as int == match *self {
                FfiErrorCode::Success => 0int,
                FfiErrorCode::Error => -1,
                FfiErrorCode::NotInitialized => -2,
                FfiErrorCode::AlreadyRunning => -3,
                FfiErrorCode::InvalidArgument => -4,
                FfiErrorCode::NotFound => -5,
                FfiErrorCode::Io => -6,
                FfiErrorCode::Network => -7,
                FfiErrorCode::Discovery => -8,
                FfiErrorCode::Transfer => -9,
                FfiErrorCode::Server => -10,
            },
    {
        match self {
            FfiErrorCode::Success => 0,
            FfiErrorCode::Error => -1,
            FfiErrorCode::NotInitialized => -2,
            FfiErrorCode::AlreadyRunning => -3,
            FfiErrorCode::InvalidArgument => -4,
            FfiErrorCode::NotFound => -5,
            FfiErrorCode::Io => -6,
            FfiErrorCode::Network => -7,
            FfiErrorCode::Discovery => -8,
            FfiErrorCode::Transfer => -9,
            FfiErrorCode::Server => -10,
        }
    }

    /// The code of an SDK error: each kind has its own.
    pub fn from_sdk_error(err: &SDKError) -> (r: FfiErrorCode)
        ensures
            r == match *err {
                SDKError::NotInitialized => FfiErrorCode::NotInitialized,
                SDKError::AlreadyRunning => FfiErrorCode::AlreadyRunning,
                SDKError::InvalidArgument(_) => FfiErrorCode::InvalidArgument,
                SDKError::NotFound(_) => FfiErrorCode::NotFound,
                SDKError::Io(_) => FfiErrorCode::Io,
                SDKError::Network(_) => FfiErrorCode::Network,
                SDKError::Discovery(_) => FfiErrorCode::Discovery,
                SDKError::Transfer(_) => FfiErrorCode::Transfer,
                SDKError::Server(_) => FfiErrorCode::Server,
            },
    {
        match err {
            SDKError::NotInitialized => FfiErrorCode::NotInitialized,
            SDKError::AlreadyRunning => FfiErrorCode::AlreadyRunning,
            SDKError::InvalidArgument(_) => FfiErrorCode::InvalidArgument,
            SDKError::NotFound(_) => FfiErrorCode::NotFound,
            SDKError::Io(_) => FfiErrorCode::Io,
            SDKError::Network(_) => FfiErrorCode::Network,
            SDKError::Discovery(_) => FfiErrorCode::Discovery,
            SDKError::Transfer(_) => FfiErrorCode::Transfer,
            SDKError::Server(_) => FfiErrorCode::Server,
        }
    }
}

/// A transfer direction of the C interface.
#[derive(Debug, Clone, Copy, PartialEq, Eq, Structural)]
pub enum FfiTransferDirection {
    Upload,
    Download,
}

impl FfiTransferDirection {
    /// The direction of the SDK's transfer.
    pub fn from_direction(d: TransferDirection) -> (r: FfiTransferDirection)
        ensures
            (d == TransferDirection::Upload) == (r == FfiTransferDirection::Upload),
    {
        match d {
            TransferDirection::Upload => FfiTransferDirection::Upload,
            TransferDirection::Download => FfiTransferDirection::Download,
        }
    }

    /// 0 for upload, 1 for download.
    pub fn code(&self) -> (r: i32)
        ensures
            r == (if *self == FfiTransferDirection::Upload { 0i32 } else { 1i32 }),
    {
        match self {
            FfiTransferDirection::Upload => 0,
            FfiTransferDirection::Download => 1,
        }
    }
}

/// A transfer state of the C interface.
#[derive(Debug, Clone, Copy, PartialEq, Eq, Structural)]
pub enum FfiTransferStatus {
    Pending,
    Preparing,
    Transferring,
    Paused,
    Completed,
    Failed,
    Cancelled,
}

impl FfiTransferStatus {
    /// The state of the SDK's transfer; a failure's message is dropped.
    pub fn from_status(s: &TransferStatus) -> (r: FfiTransferStatus)
        ensures
            r == match *s {
                TransferStatus::Pending => FfiTransferStatus::Pending,
                TransferStatus::Preparing => FfiTransferStatus::Preparing,
                TransferStatus::Transferring => FfiTransferStatus::Transferring,
                TransferStatus::Paused => FfiTransferStatus::Paused,
                TransferStatus::Completed => FfiTransferStatus::Completed,
                TransferStatus::Failed(_) => FfiTransferStatus::Failed,
                TransferStatus::Cancelled => FfiTransferStatus::Cancelled,
            },
    {
        match s {
            TransferStatus::Pending => FfiTransferStatus::Pending,
            TransferStatus::Preparing => FfiTransferStatus::Preparing,
            TransferStatus::Transferring => FfiTransferStatus::Transferring,
            TransferStatus::Paused => FfiTransferStatus::Paused,
            TransferStatus::Completed => FfiTransferStatus::Completed,
            TransferStatus::Failed(_) => FfiTransferStatus::Failed,
            TransferStatus::Cancelled => FfiTransferStatus::Cancelled,
        }
    }

    /// 0 to 6, in the order of the variants.
    pub fn code(&self) -> (r: i32)
        ensures
            r as int == match *self {
                FfiTransferStatus::Pending => 0int,
                FfiTransferStatus::Preparing => 1,
                FfiTransferStatus::Transferring => 2,
                FfiTransferStatus::Paused => 3,
                FfiTransferStatus::Completed => 4,
                FfiTransferStatus::Failed => 5,
                FfiTransferStatus::Cancelled => 6,
            },
    {
        match self {
            FfiTransferStatus::Pending => 0,
            FfiTransferStatus::Preparing => 1,
            FfiTransferStatus::Transferring => 2,
            FfiTransferStatus::Paused => 3,
            FfiTransferStatus::Completed => 4,
            FfiTransferStatus::Failed => 5,
            FfiTransferStatus::Cancelled => 6,
        }
    }
}

/// An event kind of the C interface.
#[derive(Debug, Clone, Copy, PartialEq, Eq, Structural)]
pub enum FfiEventType {
    NoEvent,
    DeviceFound,
    DeviceLost,
    SendStarted,
    SendProgress,
    SendCompleted,
    SendFailed,
    DownloadStarted,
    DownloadProgress,
    DownloadCompleted,
    DownloadFailed,
    ServerStarted,
    ServerStopped,
    Error,
}

/// The kind of an SDK event.
pub open spec fn event_kind(e: SDKEvent) -> FfiEventType {
    match e {
        SDKEvent::DeviceFound(_) => FfiEventType::DeviceFound,
        SDKEvent::DeviceLost(_) => FfiEventType::DeviceLost,
        SDKEvent::SendStarted(_) => FfiEventType::SendStarted,
        SDKEvent::SendProgress(..) => FfiEventType::SendProgress,
        SDKEvent::SendCompleted(_) => FfiEventType::SendCompleted,
        SDKEvent::SendFailed(..) => FfiEventType::SendFailed,
        SDKEvent::DownloadStarted(_) => FfiEventType::DownloadStarted,
        SDKEvent::DownloadProgress(..) => FfiEventType::DownloadProgress,
        SDKEvent::DownloadCompleted(..) => FfiEventType::DownloadCompleted,
        SDKEvent::DownloadFailed(..) => FfiEventType::DownloadFailed,
        SDKEvent::ServerStarted(_) => FfiEventType::ServerStarted,
        SDKEvent::ServerStopped => FfiEventType::ServerStopped,
        SDKEvent::Error(_) => FfiEventType::Error,
    }
}

impl FfiEventType {
    /// The kind of an event.
    pub fn of_event(e: &SDKEvent) -> (r: FfiEventType)
        ensures
            r == event_kind(*e),
    {
        match e {
            SDKEvent::DeviceFound(_) => FfiEventType::DeviceFound,
            SDKEvent::DeviceLost(_) => FfiEventType::DeviceLost,
            SDKEvent::SendStarted(_) => FfiEventType::SendStarted,
            SDKEvent::SendProgress(..) => FfiEventType::SendProgress,
            SDKEvent::SendCompleted(_) => FfiEventType::SendCompleted,
            SDKEvent::SendFailed(..) => FfiEventType::SendFailed,
            SDKEvent::DownloadStarted(_) => FfiEventType::DownloadStarted,
            SDKEvent::DownloadProgress(..) => FfiEventType::DownloadProgress,
            SDKEvent::DownloadCompleted(..) => FfiEventType::DownloadCompleted,
            SDKEvent::DownloadFailed(..) => FfiEventType::DownloadFailed,
            SDKEvent::ServerStarted(_) => FfiEventType::ServerStarted,
            SDKEvent::ServerStopped => FfiEventType::ServerStopped,
            SDKEvent::Error(_) => FfiEventType::Error,
        }
    }

    /// 0 for no event, then 1 to 13 in the order of the variants.
    pub fn code(&self) -> (r: i32)
        ensures
            r as int == match *self {
                FfiEventType::NoEvent => 0int,
                FfiEventType::DeviceFound => 1,
                FfiEventType::DeviceLost => 2,
                FfiEventType::SendStarted => 3,
                FfiEventType::SendProgress => 4,
                FfiEventType::SendCompleted => 5,
                FfiEventType::SendFailed => 6,
                FfiEventType::DownloadStarted => 7,
                FfiEventType::DownloadProgress => 8,
                FfiEventType::DownloadCompleted => 9,
                FfiEventType::DownloadFailed => 10,
                FfiEventType::ServerStarted => 11,
                FfiEventType::ServerStopped => 12,
                FfiEventType::Error => 13,
            },
    {
        match self {
            FfiEventType::NoEvent => 0,
            FfiEventType::DeviceFound => 1,
            FfiEventType::DeviceLost => 2,
            FfiEventType::SendStarted => 3,
            FfiEventType::SendProgress => 4,
            FfiEventType::SendCompleted => 5,
            FfiEventType::SendFailed => 6,
            FfiEventType::DownloadStarted => 7,
            FfiEventType::DownloadProgress => 8,
            FfiEventType::DownloadCompleted => 9,
            FfiEventType::DownloadFailed => 10,
            FfiEventType::ServerStarted => 11,
            FfiEventType::ServerStopped => 12,
            FfiEventType::Error => 13,
        }
    }
}

/// The number of a discovery source: 0 for mDNS, 1 for broadcasts, 2 for
/// scanning.
pub fn source_code(source: DiscoverySource) -> (r: i32)
    ensures
        r as int == match source {
            DiscoverySource::MDNS => 0int,
            DiscoverySource::Broadcast => 1,
            DiscoverySource::HTTPScan => 2,
        },
{
    match source {
        DiscoverySource::MDNS => 0,
        DiscoverySource::Broadcast => 1,
        DiscoverySource::HTTPScan => 2,
    }
}

} // verus!
