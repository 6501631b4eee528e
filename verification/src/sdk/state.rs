//! The state the SDK keeps: devices, shared files, transfers and what runs.

use vstd::prelude::*;
use crate::common::clock::now_millis;
use crate::common::text::str_eq;
use crate::discovery::manager::{devices_view, has_id, without_id, DeviceView};
use crate::sdk::types::{DeviceInfo, FileInfo, TransferInfo, TransferStatus, TransferDirection};

verus! {

/// A transfer and its bookkeeping.
#[derive(Debug, Clone)]
pub struct TransferState {
    pub info: TransferInfo,
    pub paused: bool,
    /// When it was created and last changed, in milliseconds of the clock.
    pub created_at_ms: u64,
    pub updated_at_ms: u64,
}

/// The clock's time, or `since` where the clock reads earlier: a time
/// stamp taken after `since` never goes back, though the clock may.
fn time_after(since: u64) -> (r: u64)
    ensures
        r >= since,
{
    let now = now_millis();
    if now > since {
        now
    } else {
        since
    }
}

impl TransferState {
    /// A transfer just added, not paused.
    pub fn new(info: TransferInfo) -> (r: TransferState)
        ensures
            r.info == info,
            !r.paused,
            r.created_at_ms == r.updated_at_ms,
    {
        let now = now_millis();
        TransferState { info, paused: false, created_at_ms: now, updated_at_ms: now }
    }

    /// Records how many bytes have been transferred.
    pub fn update_progress(&mut self, transferred: u64)
        ensures
            final(self).info == (TransferInfo { transferred, ..old(self).info }),
            final(self).paused == old(self).paused,
            final(self).created_at_ms == old(self).created_at_ms,
            final(self).updated_at_ms >= old(self).updated_at_ms,
    {
        self.info.transferred = transferred;
        self.updated_at_ms = time_after(self.updated_at_ms);
    }

    /// Records a new status.
    pub fn set_status(&mut self, status: TransferStatus)
        ensures
            final(self).info == (TransferInfo { status, ..old(self).info }),
            final(self).paused == old(self).paused,
            final(self).created_at_ms == old(self).created_at_ms,
            final(self).updated_at_ms >= old(self).updated_at_ms,
    {
        self.info.status = status;
        self.updated_at_ms = time_after(self.updated_at_ms);
    }

    /// A copy of the record.
    pub fn copy(&self) -> (r: TransferState)
        ensures
            r == *self,
    {
        TransferState {
            info: self.info.copy(),
            paused: self.paused,
            created_at_ms: self.created_at_ms,
            updated_at_ms: self.updated_at_ms,
        }
    }
}

/// The first transfer with this id.
pub open spec fn first_transfer(s: Seq<TransferState>, id: Seq<char>) -> Option<int> {
    if exists|i: int| 0 <= i < s.len() && #[trigger] s[i].info.id@ == id {
        Some(choose|i: int| 0 <= i < s.len() && s[i].info.id@ == id && forall|j: int| 0 <= j < i ==> s[j].info.id@ != id)
    } else {
        None
    }
}

/// `b` is `a` with position `i` changed at most.
pub open spec fn same_except(a: Seq<TransferState>, b: Seq<TransferState>, i: int) -> bool {
    a.len() == b.len() && forall|j: int| 0 <= j < a.len() && j != i ==> #[trigger] b[j] == a[j]
}

/// The transfer in `b` at `i` is `a`'s with `info` replaced, its pause flag
/// set to `paused`, its creation time kept and its update time not earlier
/// than before.
pub open spec fn changed_to(a: Seq<TransferState>, b: Seq<TransferState>, i: int, info: TransferInfo, paused: bool) -> bool {
    &&& same_except(a, b, i)
    &&& b[i].info == info
    &&& b[i].paused == paused
    &&& b[i].created_at_ms == a[i].created_at_ms
    &&& b[i].updated_at_ms >= a[i].updated_at_ms
}

/// Some file in `s` has this id.
pub open spec fn has_file_id(s: Seq<FileInfo>, id: Seq<char>) -> bool {
    exists|i: int| 0 <= i < s.len() && #[trigger] s[i].id@ == id
}

/// The files not at this path, in order.
pub open spec fn files_without_path(s: Seq<FileInfo>, path: Seq<char>) -> Seq<FileInfo>
    decreases s.len(),
{
    if s.len() == 0 {
        Seq::empty()
    } else {
        files_without_path(s.drop_last(), path) + if s.last().path@ == path {
            Seq::empty()
        } else {
            seq![s.last()]
        }
    }
}

/// The transfers going in this direction, in order.
pub open spec fn transfers_in(s: Seq<TransferState>, d: TransferDirection) -> Seq<TransferInfo>
    decreases s.len(),
{
    if s.len() == 0 {
        Seq::empty()
    } else {
        transfers_in(s.drop_last(), d) + if s.last().info.direction == d {
            seq![s.last().info]
        } else {
            Seq::empty()
        }
    }
}

/// The transfers without the first of this id.
pub open spec fn transfers_without(s: Seq<TransferState>, id: Seq<char>) -> Seq<TransferState> {
    match first_transfer(s, id) {
        Some(i) => s.remove(i),
        None => s,
    }
}

/// What the SDK knows and runs.
#[derive(Debug)]
pub struct SDKState {
    pub discovery_running: bool,
    pub server_running: bool,
    pub devices: Vec<DeviceInfo>,
    pub shared_files: Vec<FileInfo>,
    pub transfers: Vec<TransferState>,
}

impl Default for SDKState {
    fn default() -> (r: SDKState)
        ensures
            !r.discovery_running,
            !r.server_running,
            r.devices@.len() == 0,
            r.shared_files@.len() == 0,
            r.transfers@.len() == 0,
    {
        SDKState {
            discovery_running: false,
            server_running: false,
            devices: Vec::new(),
            shared_files: Vec::new(),
            transfers: Vec::new(),
        }
    }
}

impl SDKState {
    /// A fresh state.
    pub fn new() -> (r: SDKState)
        ensures
            !r.discovery_running,
            !r.server_running,
            r.devices@.len() == 0,
            r.shared_files@.len() == 0,
            r.transfers@.len() == 0,
    {
        SDKState::default()
    }

    fn find_transfer(&self, id: &str) -> (r: Option<usize>)
        ensures
            match r {
                Some(i) => i < self.transfers@.len() && self.transfers@[i as int].info.id@ == id@ && first_transfer(
                    self.transfers@,
                    id@,
                ) == Some(i as int),
                None => first_transfer(self.transfers@, id@) is None,
            },
    {
        let ghost s = self.transfers@;
        let mut i: usize = 0;
        while i < self.transfers.len()
            invariant
                s == self.transfers@,
                i <= s.len(),
                forall|j: int| 0 <= j < i ==> s[j].info.id@ != id@,
            decreases self.transfers.len() - i,
        {
            if str_eq(self.transfers[i].info.id.as_str(), id) {
                let ghost w = choose|k: int| 0 <= k < s.len() && s[k].info.id@ == id@ && forall|j: int| 0 <= j < k ==> s[j].info.id@ != id@;
                assert(0 <= i < s.len() && s[i as int].info.id@ == id@ && forall|j: int| 0 <= j < i ==> s[j].info.id@ != id@);
                assert(w == i) by {
                    if w < i {
                        assert(s[w].info.id@ != id@);
                    } else if w > i {
                        assert(s[i as int].info.id@ != id@);
                    }
                }
                return Some(i);
            }
            i = i + 1;
        }
        assert(!exists|k: int| 0 <= k < s.len() && #[trigger] s[k].info.id@ == id@);
        None
    }

    /// Adds a device unless one with its id is known.
    pub fn add_device(&mut self, device: DeviceInfo)
        ensures
            devices_view(final(self).devices@) == if has_id(devices_view(old(self).devices@), device.id@) {
                devices_view(old(self).devices@)
            } else {
                devices_view(old(self).devices@).push(device@)
            },
            final(self).shared_files@ == old(self).shared_files@,
            final(self).transfers@ == old(self).transfers@,
            final(self).discovery_running == old(self).discovery_running,
            final(self).server_running == old(self).server_running,
    {
        let ghost before = devices_view(self.devices@);
        crate::discovery::manager::handle_managed_event(
            crate::discovery::manager::ManagedEvent::DeviceFound(device),
            &mut self.devices,
        );
    }

    /// Removes the devices with this id.
    pub fn remove_device(&mut self, id: &str)
        ensures
            devices_view(final(self).devices@) == without_id(devices_view(old(self).devices@), id@),
            final(self).shared_files@ == old(self).shared_files@,
            final(self).transfers@ == old(self).transfers@,
            final(self).discovery_running == old(self).discovery_running,
            final(self).server_running == old(self).server_running,
    {
        crate::discovery::manager::handle_managed_event(
            crate::discovery::manager::ManagedEvent::DeviceLost(id.to_owned()),
            &mut self.devices,
        );
    }

    /// Copies of the devices.
    pub fn get_devices(&self) -> (r: Vec<DeviceInfo>)
        ensures
            devices_view(r@) == devices_view(self.devices@),
    {
        let mut out: Vec<DeviceInfo> = Vec::new();
        let mut i: usize = 0;
        while i < self.devices.len()
            invariant
                i <= self.devices@.len(),
                devices_view(out@) == devices_view(self.devices@).take(i as int),
            decreases self.devices.len() - i,
        {
            let ghost before = devices_view(out@);
            out.push(self.devices[i].clone_device());
            assert(devices_view(out@) =~= before.push(self.devices@[i as int]@));
            i = i + 1;
            assert(devices_view(out@) =~= devices_view(self.devices@).take(i as int));
        }
        assert(devices_view(self.devices@).take(i as int) =~= devices_view(self.devices@));
        out
    }

    /// Adds a shared file unless one with its id is there.
    pub fn add_shared_file(&mut self, file: FileInfo)
        ensures
            final(self).shared_files@ == if has_file_id(old(self).shared_files@, file.id@) {
                old(self).shared_files@
            } else {
                old(self).shared_files@.push(file)
            },
            final(self).devices@ == old(self).devices@,
            final(self).transfers@ == old(self).transfers@,
            final(self).discovery_running == old(self).discovery_running,
            final(self).server_running == old(self).server_running,
    {
        let mut i: usize = 0;
        while i < self.shared_files.len()
            invariant
                i <= self.shared_files@.len(),
                forall|j: int| 0 <= j < i ==> self.shared_files@[j].id@ != file.id@,
            decreases self.shared_files.len() - i,
        {
            if str_eq(self.shared_files[i].id.as_str(), file.id.as_str()) {
                assert(has_file_id(self.shared_files@, file.id@));
                return;
            }
            i = i + 1;
        }
        assert(!has_file_id(self.shared_files@, file.id@));
        self.shared_files.push(file);
    }

    /// Removes the shared files at `path`; whether any was removed.
    pub fn remove_shared_file(&mut self, path: &str) -> (r: bool)
        ensures
            final(self).shared_files@ == files_without_path(old(self).shared_files@, path@),
            r == (final(self).shared_files@.len() < old(self).shared_files@.len()),
            final(self).devices@ == old(self).devices@,
            final(self).transfers@ == old(self).transfers@,
            final(self).discovery_running == old(self).discovery_running,
            final(self).server_running == old(self).server_running,
    {
        let ghost s = self.shared_files@;
        let len = self.shared_files.len();
        let mut kept: Vec<FileInfo> = Vec::new();
        let mut i: usize = 0;
        while i < self.shared_files.len()
            invariant
                s == self.shared_files@,
                i <= s.len(),
                kept@ == files_without_path(s.take(i as int), path@),
                kept@.len() <= i,
            decreases self.shared_files.len() - i,
        {
            let ghost t = s.take(i + 1);
            assert(t.drop_last() =~= s.take(i as int));
            assert(t.last() == s[i as int]);
            if !str_eq(self.shared_files[i].path.as_str(), path) {
                kept.push(self.shared_files[i].copy());
                assert(kept@ =~= files_without_path(t, path@));
            }
            i = i + 1;
        }
        assert(s.take(i as int) =~= s);
        let n = kept.len();
        self.shared_files = kept;
        n < len
    }

    /// Copies of the shared files.
    pub fn get_shared_files(&self) -> (r: Vec<FileInfo>)
        ensures
            r@ == self.shared_files@,
    {
        let mut out: Vec<FileInfo> = Vec::new();
        let mut i: usize = 0;
        while i < self.shared_files.len()
            invariant
                i <= self.shared_files@.len(),
                out@ == self.shared_files@.take(i as int),
            decreases self.shared_files.len() - i,
        {
            out.push(self.shared_files[i].copy());
            i = i + 1;
            assert(out@ =~= self.shared_files@.take(i as int));
        }
        assert(self.shared_files@.take(i as int) =~= self.shared_files@);
        out
    }

    /// Removes every shared file.
    pub fn clear_shared_files(&mut self)
        ensures
            final(self).shared_files@.len() == 0,
            final(self).devices@ == old(self).devices@,
            final(self).transfers@ == old(self).transfers@,
            final(self).discovery_running == old(self).discovery_running,
            final(self).server_running == old(self).server_running,
    {
        self.shared_files.clear();
    }

    /// Records a new transfer, replacing one with the same id.
    pub fn add_transfer(&mut self, transfer: TransferInfo)
        ensures
            match first_transfer(old(self).transfers@, transfer.id@) {
                Some(i) => same_except(old(self).transfers@, final(self).transfers@, i) && final(self).transfers@[i].info
                    == transfer && !final(self).transfers@[i].paused,
                None => final(self).transfers@.len() == old(self).transfers@.len() + 1 && final(self).transfers@.drop_last()
                    == old(self).transfers@ && final(self).transfers@.last().info == transfer && !final(self).transfers@.last().paused,
            },
            final(self).devices@ == old(self).devices@,
            final(self).shared_files@ == old(self).shared_files@,
            final(self).discovery_running == old(self).discovery_running,
            final(self).server_running == old(self).server_running,
    {
        match self.find_transfer(transfer.id.as_str()) {
            Some(i) => {
                self.transfers.set(i, TransferState::new(transfer));
            },
            None => {
                self.transfers.push(TransferState::new(transfer));
                assert(self.transfers@.drop_last() =~= old(self).transfers@);
            },
        }
    }

    /// The transfer with this id.
    pub fn get_transfer(&self, id: &str) -> (r: Option<TransferInfo>)
        ensures
            r == match first_transfer(self.transfers@, id@) {
                Some(i) => Some(self.transfers@[i].info),
                None => None,
            },
    {
        match self.find_transfer(id) {
            Some(i) => Some(self.transfers[i].info.copy()),
            None => None,
        }
    }

    /// Every transfer, in the order they were added.
    pub fn get_all_transfers(&self) -> (r: Vec<TransferInfo>)
        ensures
            r@.len() == self.transfers@.len(),
            forall|i: int| 0 <= i < r@.len() ==> #[trigger] r@[i] == self.transfers@[i].info,
    {
        let mut out: Vec<TransferInfo> = Vec::new();
        let mut i: usize = 0;
        while i < self.transfers.len()
            invariant
                i <= self.transfers@.len(),
                out@.len() == i,
                forall|j: int| 0 <= j < i ==> #[trigger] out@[j] == self.transfers@[j].info,
            decreases self.transfers.len() - i,
        {
            out.push(self.transfers[i].info.copy());
            i = i + 1;
        }
        out
    }

    /// The transfers going in this direction, in the order they were added.
    pub fn get_transfers_by_direction(&self, direction: TransferDirection) -> (r: Vec<TransferInfo>)
        ensures
            r@ == transfers_in(self.transfers@, direction),
    {
        let ghost s = self.transfers@;
        let mut out: Vec<TransferInfo> = Vec::new();
        let mut i: usize = 0;
        while i < self.transfers.len()
            invariant
                s == self.transfers@,
                i <= s.len(),
                out@ == transfers_in(s.take(i as int), direction),
            decreases self.transfers.len() - i,
        {
            let ghost t = s.take(i + 1);
            assert(t.drop_last() =~= s.take(i as int));
            assert(t.last() == s[i as int]);
            if self.transfers[i].info.direction == direction {
                out.push(self.transfers[i].info.copy());
                assert(out@ =~= transfers_in(t, direction));
            }
            i = i + 1;
        }
        assert(s.take(i as int) =~= s);
        out
    }

    /// Records the bytes transferred of a transfer; whether it exists.
    pub fn update_transfer_progress(&mut self, id: &str, transferred: u64) -> (r: bool)
        ensures
            match first_transfer(old(self).transfers@, id@) {
                Some(i) => r && changed_to(
                    old(self).transfers@,
                    final(self).transfers@,
                    i,
                    TransferInfo { transferred, ..old(self).transfers@[i].info },
                    old(self).transfers@[i].paused,
                ),
                None => !r && final(self).transfers@ == old(self).transfers@,
            },
            final(self).devices@ == old(self).devices@,
            final(self).shared_files@ == old(self).shared_files@,
            final(self).discovery_running == old(self).discovery_running,
            final(self).server_running == old(self).server_running,
    {
        match self.find_transfer(id) {
            Some(i) => {
                let mut t = self.transfers[i].copy();
                t.update_progress(transferred);
                self.transfers.set(i, t);
                true
            },
            None => false,
        }
    }

    /// Records the status of a transfer; whether it exists.
    pub fn set_transfer_status(&mut self, id: &str, status: TransferStatus) -> (r: bool)
        ensures
            match first_transfer(old(self).transfers@, id@) {
                Some(i) => r && changed_to(
                    old(self).transfers@,
                    final(self).transfers@,
                    i,
                    TransferInfo { status, ..old(self).transfers@[i].info },
                    old(self).transfers@[i].paused,
                ),
                None => !r && final(self).transfers@ == old(self).transfers@,
            },
            final(self).devices@ == old(self).devices@,
            final(self).shared_files@ == old(self).shared_files@,
            final(self).discovery_running == old(self).discovery_running,
            final(self).server_running == old(self).server_running,
    {
        match self.find_transfer(id) {
            Some(i) => {
                let mut t = self.transfers[i].copy();
                t.set_status(status);
                self.transfers.set(i, t);
                true
            },
            None => false,
        }
    }

    /// Pauses a transfer; whether it exists.
    pub fn pause_transfer(&mut self, id: &str) -> (r: bool)
        ensures
            match first_transfer(old(self).transfers@, id@) {
                Some(i) => r && changed_to(
                    old(self).transfers@,
                    final(self).transfers@,
                    i,
                    TransferInfo { status: TransferStatus::Paused, ..old(self).transfers@[i].info },
                    true,
                ),
                None => !r && final(self).transfers@ == old(self).transfers@,
            },
            final(self).devices@ == old(self).devices@,
            final(self).shared_files@ == old(self).shared_files@,
            final(self).discovery_running == old(self).discovery_running,
            final(self).server_running == old(self).server_running,
    {
        match self.find_transfer(id) {
            Some(i) => {
                let mut t = self.transfers[i].copy();
                t.paused = true;
                t.set_status(TransferStatus::Paused);
                self.transfers.set(i, t);
                true
            },
            None => false,
        }
    }

    /// Resumes a transfer; whether it exists.
    pub fn resume_transfer(&mut self, id: &str) -> (r: bool)
        ensures
            match first_transfer(old(self).transfers@, id@) {
                Some(i) => r && changed_to(
                    old(self).transfers@,
                    final(self).transfers@,
                    i,
                    TransferInfo { status: TransferStatus::Transferring, ..old(self).transfers@[i].info },
                    false,
                ),
                None => !r && final(self).transfers@ == old(self).transfers@,
            },
            final(self).devices@ == old(self).devices@,
            final(self).shared_files@ == old(self).shared_files@,
            final(self).discovery_running == old(self).discovery_running,
            final(self).server_running == old(self).server_running,
    {
        match self.find_transfer(id) {
            Some(i) => {
                let mut t = self.transfers[i].copy();
                t.paused = false;
                t.set_status(TransferStatus::Transferring);
                self.transfers.set(i, t);
                true
            },
            None => false,
        }
    }

    /// Removes a transfer; whether it existed.
    pub fn remove_transfer(&mut self, id: &str) -> (r: bool)
        ensures
            r == first_transfer(old(self).transfers@, id@) is Some,
            final(self).transfers@ == transfers_without(old(self).transfers@, id@),
            final(self).devices@ == old(self).devices@,
            final(self).shared_files@ == old(self).shared_files@,
            final(self).discovery_running == old(self).discovery_running,
            final(self).server_running == old(self).server_running,
    {
        match self.find_transfer(id) {
            Some(i) => {
                self.transfers.remove(i);
                true
            },
            None => false,
        }
    }

    pub fn set_discovery_running(&mut self, running: bool)
        ensures
            final(self).discovery_running == running,
            final(self).server_running == old(self).server_running,
            final(self).devices@ == old(self).devices@,
            final(self).shared_files@ == old(self).shared_files@,
            final(self).transfers@ == old(self).transfers@,
    {
        self.discovery_running = running;
    }

    pub fn is_discovery_running(&self) -> (r: bool)
        ensures
            r == self.discovery_running,
    {
        self.discovery_running
    }

    pub fn set_server_running(&mut self, running: bool)
        ensures
            final(self).server_running == running,
            final(self).discovery_running == old(self).discovery_running,
            final(self).devices@ == old(self).devices@,
            final(self).shared_files@ == old(self).shared_files@,
            final(self).transfers@ == old(self).transfers@,
    {
        self.server_running = running;
    }

    pub fn is_server_running(&self) -> (r: bool)
        ensures
            r == self.server_running,
    {
        self.server_running
    }

    /// The server's port: not recorded, so none.
    pub fn get_server_port(&self) -> (r: Option<u16>)
        ensures
            r is None,
    {
        None
    }
}

/// Pausing a transfer and then resuming it leaves it transferring and not
/// paused, with everything else as it was.
pub proof fn lemma_pause_resume(s: Seq<TransferState>, i: int, a: Seq<TransferState>, b: Seq<TransferState>)
    requires
        0 <= i < s.len(),
        changed_to(s, a, i, TransferInfo { status: TransferStatus::Paused, ..s[i].info }, true),
        changed_to(a, b, i, TransferInfo { status: TransferStatus::Transferring, ..a[i].info }, false),
    ensures
        same_except(s, b, i),
        b[i].info == (TransferInfo { status: TransferStatus::Transferring, ..s[i].info }),
        !b[i].paused,
        b[i].created_at_ms == s[i].created_at_ms,
{
}

/// Listing the transfers in a direction gives exactly the stored transfers
/// going that way, in the order they are stored: each one listed goes in
/// the direction asked for, and each stored transfer going that way is
/// listed.
pub proof fn lemma_transfers_in_direction(s: Seq<TransferState>, d: TransferDirection)
    ensures
        transfers_in(s, d) == s.filter(|t: TransferState| t.info.direction == d).map_values(|t: TransferState| t.info),
        forall|k: int| 0 <= k < transfers_in(s, d).len() ==> (#[trigger] transfers_in(s, d)[k]).direction == d,
        forall|j: int| 0 <= j < s.len() && (#[trigger] s[j]).info.direction == d ==> transfers_in(s, d).contains(
            s[j].info,
        ),
    decreases s.len(),
{
    reveal(Seq::filter);
    let p = |t: TransferState| t.info.direction == d;
    if s.len() > 0 {
        let t = s.drop_last();
        lemma_transfers_in_direction(t, d);
        let f = t.filter(p);
        if p(s.last()) {
            assert(f.push(s.last()).map_values(|x: TransferState| x.info) =~= f.map_values(|x: TransferState| x.info)
                + seq![s.last().info]);
        } else {
            assert(transfers_in(s, d) =~= transfers_in(t, d));
        }
        let r = transfers_in(s, d);
        let rt = transfers_in(t, d);
        assert(r.subrange(0, rt.len() as int) =~= rt);
        assert forall|k: int| 0 <= k < r.len() implies (#[trigger] r[k]).direction == d by {
            if k < rt.len() {
                assert(r[k] == rt[k]);
            }
        }
        assert forall|j: int| 0 <= j < s.len() && (#[trigger] s[j]).info.direction == d implies r.contains(s[j].info) by {
            if j < t.len() {
                assert(s[j] == t[j]);
                let k = choose|k: int| 0 <= k < rt.len() && rt[k] == t[j].info;
                assert(r[k] == rt[k]);
            } else {
                assert(s[j] == s.last());
                assert(r[rt.len() as int] == s[j].info);
            }
        }
    }
}

} // verus!
