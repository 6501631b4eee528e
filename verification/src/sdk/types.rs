//! The SDK's records: devices, shared files, transfers and events.

use vstd::prelude::*;
pub use crate::discovery::manager::{DiscoverySource, ManagedDevice};

verus! {

/// Which way a transfer goes.
#[derive(Debug, Clone, Copy, PartialEq, Eq, Structural)]
pub enum TransferDirection {
    Upload,
    Download,
}

/// Where a transfer stands.
#[derive(Debug, Clone, PartialEq, Eq)]
pub enum TransferStatus {
    Pending,
    Preparing,
    Transferring,
    Paused,
    Completed,
    Failed(String),
    Cancelled,
}

impl TransferStatus {
    /// Completed, failed or cancelled: nothing more will happen.
    pub fn is_terminal(&self) -> (r: bool)
        ensures
            r == (self is Completed || self is Failed || self is Cancelled),
    {
        match self {
            TransferStatus::Completed | TransferStatus::Failed(_) | TransferStatus::Cancelled => true,
            _ => false,
        }
    }

    /// Transferring or preparing: a pause makes sense.
    pub fn can_pause(&self) -> (r: bool)
        ensures
            r == (self is Transferring || self is Preparing),
    {
        match self {
            TransferStatus::Transferring | TransferStatus::Preparing => true,
            _ => false,
        }
    }

    /// A copy of the status.
    pub fn copy(&self) -> (r: TransferStatus)
        ensures
            r == *self,
    {
        match self {
            TransferStatus::Pending => TransferStatus::Pending,
            TransferStatus::Preparing => TransferStatus::Preparing,
            TransferStatus::Transferring => TransferStatus::Transferring,
            TransferStatus::Paused => TransferStatus::Paused,
            TransferStatus::Completed => TransferStatus::Completed,
            TransferStatus::Failed(e) => TransferStatus::Failed(e.clone()),
            TransferStatus::Cancelled => TransferStatus::Cancelled,
        }
    }
}

/// A device as the SDK reports it: the record the discovery manager keeps.
pub type DeviceInfo = ManagedDevice;

/// A file this device shares.
#[derive(Debug, Clone)]
pub struct FileInfo {
    pub id: String,
    pub name: String,
    pub path: String,
    pub size: u64,
    pub mime_type: String,
    pub hash: String,
}

impl FileInfo {
    /// A copy of the record.
    pub fn copy(&self) -> (r: FileInfo)
        ensures
            r == *self,
    {
        FileInfo {
            id: self.id.clone(),
            name: self.name.clone(),
            path: self.path.clone(),
            size: self.size,
            mime_type: self.mime_type.clone(),
            hash: self.hash.clone(),
        }
    }
}

/// A transfer.
#[derive(Debug, Clone)]
pub struct TransferInfo {
    pub id: String,
    pub direction: TransferDirection,
    pub file_name: String,
    pub file_size: u64,
    pub transferred: u64,
    pub status: TransferStatus,
    pub remote_device: String,
    pub local_path: String,
    pub error_message: Option<String>,
}

impl TransferInfo {
    /// The transfer has completed.
    pub fn is_completed(&self) -> (r: bool)
        ensures
            r == (self.status is Completed),
    {
        match self.status {
            TransferStatus::Completed => true,
            _ => false,
        }
    }

    /// A copy of the record.
    pub fn copy(&self) -> (r: TransferInfo)
        ensures
            r == *self,
    {
        TransferInfo {
            id: self.id.clone(),
            direction: self.direction,
            file_name: self.file_name.clone(),
            file_size: self.file_size,
            transferred: self.transferred,
            status: self.status.copy(),
            remote_device: self.remote_device.clone(),
            local_path: self.local_path.clone(),
            error_message: match &self.error_message {
                Some(m) => Some(m.clone()),
                None => None,
            },
        }
    }
}

/// How far a transfer has come.
#[derive(Debug, Clone)]
pub struct TransferProgress {
    pub transferred: u64,
    pub total: u64,
    pub percentage: u8,
    /// Bytes per second.
    pub speed: u64,
    /// Seconds to go.
    pub remaining: u64,
}

/// What the SDK reports.
#[derive(Debug, Clone)]
pub enum SDKEvent {
    DeviceFound(DeviceInfo),
    DeviceLost(String),
    /// A send started: its transfer id.
    SendStarted(String),
    /// Transfer id, bytes sent, bytes in all.
    SendProgress(String, u64, u64),
    SendCompleted(String),
    /// Transfer id, error.
    SendFailed(String, String),
    DownloadStarted(String),
    DownloadProgress(String, u64, u64),
    /// Transfer id, where the file was saved.
    DownloadCompleted(String, String),
    DownloadFailed(String, String),
    ServerStarted(u16),
    ServerStopped,
    Error(String),
}

/// What can go wrong in the SDK.
#[derive(Debug)]
pub enum SDKError {
    NotInitialized,
    AlreadyRunning,
    InvalidArgument(String),
    NotFound(String),
    Io(String),
    Network(String),
    Discovery(String),
    Transfer(String),
    Server(String),
}

impl SDKError {
    /// The error's message.
    pub fn message(&self) -> (r: String)
        ensures
            r@ == match self {
                SDKError::NotInitialized => "SDK not initialized"@,
                SDKError::AlreadyRunning => "Already running"@,
                SDKError::InvalidArgument(s) => "Invalid argument: "@ + s@,
                SDKError::NotFound(s) => "Not found: "@ + s@,
                SDKError::Io(s) => "IO error: "@ + s@,
                SDKError::Network(s) => "Network error: "@ + s@,
                SDKError::Discovery(s) => "Discovery error: "@ + s@,
                SDKError::Transfer(s) => "Transfer error: "@ + s@,
                SDKError::Server(s) => "Server error: "@ + s@,
            },
    {
        match self {
            SDKError::NotInitialized => "SDK not initialized".to_owned(),
            SDKError::AlreadyRunning => "Already running".to_owned(),
            SDKError::InvalidArgument(s) => crate::common::text::concat("Invalid argument: ", s.as_str()),
            SDKError::NotFound(s) => crate::common::text::concat("Not found: ", s.as_str()),
            SDKError::Io(s) => crate::common::text::concat("IO error: ", s.as_str()),
            SDKError::Network(s) => crate::common::text::concat("Network error: ", s.as_str()),
            SDKError::Discovery(s) => crate::common::text::concat("Discovery error: ", s.as_str()),
            SDKError::Transfer(s) => crate::common::text::concat("Transfer error: ", s.as_str()),
            SDKError::Server(s) => crate::common::text::concat("Server error: ", s.as_str()),
        }
    }
}

} // verus!
