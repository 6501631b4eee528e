//! The SDK object: its state, its queue of events and its file server, and
//! the operations that need no network.

use vstd::prelude::*;
use crate::discovery::manager::devices_view;
use crate::sdk::events::EventQueue;
use crate::sdk::server::FileServerModule;
use crate::sdk::state::{SDKState, first_transfer, files_without_path, transfers_in, changed_to, transfers_without};
use crate::sdk::transfer;
use crate::sdk::types::{
    DeviceInfo, FileInfo, SDKError, SDKEvent, TransferDirection, TransferInfo, TransferStatus,
};

verus! {

/// The SDK: what it knows, the events waiting for the application, and
/// its file server.
pub struct ShareSelfSDK {
    pub state: SDKState,
    pub events: EventQueue,
    pub server: FileServerModule,
}

impl ShareSelfSDK {
    /// Nothing known, nothing running, no events.
    pub fn new() -> (r: ShareSelfSDK)
        ensures
            !r.state.discovery_running,
            !r.state.server_running,
            r.state.devices@.len() == 0,
            r.state.shared_files@.len() == 0,
            r.state.transfers@.len() == 0,
            r.events@.len() == 0,
            r.server.listening() is None,
    {
        ShareSelfSDK { state: SDKState::new(), events: EventQueue::new(), server: FileServerModule::new() }
    }

    /// Nothing to prepare: always succeeds.
    pub fn initialize(&mut self) -> (r: Result<(), SDKError>)
        ensures
            r is Ok,
            final(self).state == old(self).state,
            final(self).events@ == old(self).events@,
    {
        Ok(())
    }

    /// Copies of the devices found.
    pub fn get_devices(&self) -> (r: Vec<DeviceInfo>)
        ensures
            devices_view(r@) == devices_view(self.state.devices@),
    {
        self.state.get_devices()
    }

    /// The port the file server listens on, when it runs.
    pub fn get_server_port(&self) -> (r: Option<u16>)
        ensures
            r == self.server.listening(),
    {
        self.server.get_port()
    }

    /// Stops sharing the files at `path`; whether any was shared.
    pub fn remove_shared_file(&mut self, path: &str) -> (r: Result<bool, SDKError>)
        ensures
            final(self).state.shared_files@ == files_without_path(old(self).state.shared_files@, path@),
            r == Ok::<bool, SDKError>(final(self).state.shared_files@.len() < old(self).state.shared_files@.len()),
    {
        Ok(self.state.remove_shared_file(path))
    }

    /// Copies of the shared files.
    pub fn get_shared_files(&self) -> (r: Vec<FileInfo>)
        ensures
            r@ == self.state.shared_files@,
    {
        self.state.get_shared_files()
    }

    /// Stops sharing every file.
    pub fn clear_shared_files(&mut self)
        ensures
            final(self).state.shared_files@.len() == 0,
            final(self).state.transfers@ == old(self).state.transfers@,
    {
        self.state.clear_shared_files();
    }

    /// Pauses a transfer; an unknown id is refused.
    pub fn pause_transfer(&mut self, transfer_id: &str) -> (r: Result<(), SDKError>)
        ensures
            match first_transfer(old(self).state.transfers@, transfer_id@) {
                Some(i) => r is Ok && changed_to(
                    old(self).state.transfers@,
                    final(self).state.transfers@,
                    i,
                    TransferInfo { status: TransferStatus::Paused, ..old(self).state.transfers@[i].info },
                    true,
                ),
                None => r matches Err(SDKError::NotFound(_)) && final(self).state.transfers@ == old(self).state.transfers@,
            },
    {
        transfer::pause_transfer(&mut self.state, transfer_id)
    }

    /// Resumes a transfer; an unknown id is refused.
    pub fn resume_transfer(&mut self, transfer_id: &str) -> (r: Result<(), SDKError>)
        ensures
            match first_transfer(old(self).state.transfers@, transfer_id@) {
                Some(i) => r is Ok && changed_to(
                    old(self).state.transfers@,
                    final(self).state.transfers@,
                    i,
                    TransferInfo { status: TransferStatus::Transferring, ..old(self).state.transfers@[i].info },
                    false,
                ),
                None => r matches Err(SDKError::NotFound(_)) && final(self).state.transfers@ == old(self).state.transfers@,
            },
    {
        transfer::resume_transfer(&mut self.state, transfer_id)
    }

    /// Cancels a transfer and reports it; an unknown id is refused.
    pub fn cancel_transfer(&mut self, transfer_id: &str) -> (r: Result<(), SDKError>)
        ensures
            final(self).state.transfers@ == transfers_without(old(self).state.transfers@, transfer_id@),
            (r is Ok) == (first_transfer(old(self).state.transfers@, transfer_id@) is Some),
            r is Ok ==> final(self).events@.len() == old(self).events@.len() + 1,
            r is Err ==> final(self).events@ == old(self).events@,
    {
        transfer::cancel_transfer(&mut self.state, &mut self.events, transfer_id)
    }

    /// The transfer with this id.
    pub fn get_transfer(&self, transfer_id: &str) -> (r: Option<TransferInfo>)
        ensures
            r == match first_transfer(self.state.transfers@, transfer_id@) {
                Some(i) => Some(self.state.transfers@[i].info),
                None => None,
            },
    {
        self.state.get_transfer(transfer_id)
    }

    /// Every transfer, in the order they were started.
    pub fn get_all_transfers(&self) -> (r: Vec<TransferInfo>)
        ensures
            r@.len() == self.state.transfers@.len(),
            forall|i: int| 0 <= i < r@.len() ==> #[trigger] r@[i] == self.state.transfers@[i].info,
    {
        self.state.get_all_transfers()
    }

    /// The sends, in the order they were started.
    pub fn get_uploads(&self) -> (r: Vec<TransferInfo>)
        ensures
            r@ == transfers_in(self.state.transfers@, TransferDirection::Upload),
    {
        self.state.get_transfers_by_direction(TransferDirection::Upload)
    }

    /// The downloads, in the order they were started.
    pub fn get_downloads(&self) -> (r: Vec<TransferInfo>)
        ensures
            r@ == transfers_in(self.state.transfers@, TransferDirection::Download),
    {
        self.state.get_transfers_by_direction(TransferDirection::Download)
    }

    /// Takes the oldest waiting event, if any.
    pub fn poll_event(&mut self) -> (r: Option<SDKEvent>)
        ensures
            old(self).events@.len() == 0 ==> r is None && final(self).events@ == old(self).events@,
            old(self).events@.len() > 0 ==> r == Some(old(self).events@[0]) && final(self).events@ == old(
                self,
            ).events@.drop_first(),
    {
        self.events.poll()
    }

    /// Takes every waiting event, oldest first.
    pub fn drain_events(&mut self) -> (r: Vec<SDKEvent>)
        ensures
            r@ == old(self).events@,
            final(self).events@.len() == 0,
    {
        self.events.drain()
    }

    /// Whether events wait to be polled.
    pub fn has_events(&self) -> (r: bool)
        ensures
            r == (self.events@.len() > 0),
    {
        self.events.len() > 0
    }
}

impl Default for ShareSelfSDK {
    fn default() -> (r: ShareSelfSDK)
        ensures
            !r.state.discovery_running,
            !r.state.server_running,
            r.state.devices@.len() == 0,
            r.state.shared_files@.len() == 0,
            r.state.transfers@.len() == 0,
            r.events@.len() == 0,
            r.server.listening() is None,
    {
        ShareSelfSDK::new()
    }
}

} // verus!
