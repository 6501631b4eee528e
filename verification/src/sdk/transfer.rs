//! The SDK's transfer module: transfer ids, the device a transfer goes to,
//! the records a send or download starts with, pausing, resuming and
//! cancelling, and what the end of a transfer does to the state and events.

use vstd::prelude::*;
use crate::common::clock::now_millis;
use crate::common::decimal::{decimal_text, hex_digits, u64_to_lower_hex, u64_to_string};
use crate::common::text::{concat, str_eq};
use crate::discovery::manager::{DeviceView, devices_view};
use crate::sdk::events::EventQueue;
use crate::sdk::state::{SDKState, TransferState, first_transfer, changed_to, same_except, transfers_without};
use crate::sdk::types::{DeviceInfo, SDKError, SDKEvent, TransferDirection, TransferInfo, TransferStatus};

verus! {

/// Draws a `u32` from `rand::random`. Nothing is claimed of it.
#[verifier::external_body]
fn random_u32() -> u32 {
    rand::random::<u32>()
}

/// A transfer id: `transfer-`, the seconds, a hyphen and a random number in
/// hexadecimal.
pub open spec fn transfer_id_text(secs: u64, random: u32) -> Seq<char> {
    "transfer-"@ + decimal_text(secs as nat) + "-"@ + hex_digits(random as nat)
}

/// The id of a transfer started at `secs` with the random number `random`.
pub fn transfer_id(secs: u64, random: u32) -> (r: String)
    ensures
        r@ == transfer_id_text(secs, random),
{
    let a = u64_to_string(secs);
    let b = concat("transfer-", a.as_str());
    let c = concat(b.as_str(), "-");
    let d = u64_to_lower_hex(random as u64);
    concat(c.as_str(), d.as_str())
}

/// A fresh transfer id: the time in seconds and a random number.
pub fn generate_transfer_id() -> (r: String)
    ensures
        exists|secs: u64, random: u32| r@ == transfer_id_text(secs, random),
{
    let secs = now_millis() / 1000;
    let random = random_u32();
    transfer_id(secs, random)
}

/// Where a device is reached: its first address, else `host:port`.
pub open spec fn address_of(d: DeviceView) -> Seq<char> {
    if d.addresses.len() > 0 {
        d.addresses[0]
    } else {
        d.hostname + ":"@ + decimal_text(d.port as nat)
    }
}

/// Where `device` is reached.
pub fn device_address(device: &DeviceInfo) -> (r: String)
    ensures
        r@ == address_of(device@),
{
    if device.addresses.len() > 0 {
        device.addresses[0].clone()
    } else {
        let a = concat(device.hostname.as_str(), ":");
        let p = u64_to_string(device.port as u64);
        concat(a.as_str(), p.as_str())
    }
}

/// The first device with this id.
pub open spec fn device_with_id(s: Seq<DeviceView>, id: Seq<char>) -> Option<int> {
    if exists|i: int| 0 <= i < s.len() && #[trigger] s[i].id == id {
        Some(choose|i: int| 0 <= i < s.len() && #[trigger] s[i].id == id && forall|j: int| 0 <= j < i ==> s[j].id != id)
    } else {
        None
    }
}

/// Where the device a transfer goes to is reached; an unknown device is
/// refused.
pub fn lookup_device_address(state: &SDKState, device_id: &str) -> (r: Result<String, SDKError>)
    ensures
        match device_with_id(devices_view(state.devices@), device_id@) {
            Some(i) => r matches Ok(a) && a@ == address_of(devices_view(state.devices@)[i]),
            None => r matches Err(SDKError::NotFound(m)) && m@ == "Device not found: "@ + device_id@,
        },
{
    let ghost s = devices_view(state.devices@);
    let mut i: usize = 0;
    while i < state.devices.len()
        invariant
            s == devices_view(state.devices@),
            i <= s.len(),
            forall|j: int| 0 <= j < i ==> s[j].id != device_id@,
        decreases state.devices.len() - i,
    {
        assert(s[i as int] == state.devices@[i as int]@);
        if str_eq(state.devices[i].id.as_str(), device_id) {
            proof {
                let w = choose|w: int| 0 <= w < s.len() && #[trigger] s[w].id == device_id@ && forall|j: int| 0 <= j < w
                    ==> s[j].id != device_id@;
                assert(s[i as int].id == device_id@);
                assert(w == i) by {
                    if w < i {
                        assert(s[w].id != device_id@);
                    } else if w > i {
                        assert(s[i as int].id != device_id@);
                    }
                }
            }
            return Ok(device_address(&state.devices[i]));
        }
        i = i + 1;
    }
    assert(!exists|j: int| 0 <= j < s.len() && #[trigger] s[j].id == device_id@);
    Err(SDKError::NotFound(concat("Device not found: ", device_id)))
}

/// The record a transfer starts with: pending, nothing transferred.
pub open spec fn is_new_record(
    info: TransferInfo,
    id: Seq<char>,
    direction: TransferDirection,
    file_name: Seq<char>,
    file_size: u64,
    device_id: Seq<char>,
    local_path: Seq<char>,
) -> bool {
    &&& info.id@ == id
    &&& info.direction == direction
    &&& info.file_name@ == file_name
    &&& info.file_size == file_size
    &&& info.transferred == 0
    &&& info.status == TransferStatus::Pending
    &&& info.remote_device@ == device_id
    &&& info.local_path@ == local_path
    &&& info.error_message is None
}

/// One event more at the end.
pub open spec fn one_more(before: Seq<SDKEvent>, after: Seq<SDKEvent>) -> bool {
    after.len() == before.len() + 1 && after.drop_last() == before
}

/// Starts a transfer to or from a known device: records it as pending
/// under a fresh id and reports it started (a send or a download by
/// `direction`). Hands back the id and where the device is reached. An
/// unknown device is refused and nothing changes.
#[verifier::rlimit(40)]
pub fn begin_transfer(
    state: &mut SDKState,
    events: &mut EventQueue,
    direction: TransferDirection,
    device_id: &str,
    file_name: String,
    file_size: u64,
    local_path: String,
) -> (r: Result<(String, String), SDKError>)
    ensures
        match device_with_id(devices_view(old(state).devices@), device_id@) {
            None => (r matches Err(SDKError::NotFound(m)) && m@ == "Device not found: "@ + device_id@)
                && final(state).transfers@ == old(state).transfers@ && final(events)@ == old(events)@,
            Some(i) => r matches Ok((id, addr)) && {
                &&& addr@ == address_of(devices_view(old(state).devices@)[i])
                &&& exists|secs: u64, random: u32| id@ == transfer_id_text(secs, random)
                &&& final(state).transfers@.len() >= old(state).transfers@.len()
                &&& first_transfer(final(state).transfers@, id@) matches Some(k) && is_new_record(
                    final(state).transfers@[k].info,
                    id@,
                    direction,
                    file_name@,
                    file_size,
                    device_id@,
                    local_path@,
                )
                &&& one_more(old(events)@, final(events)@)
                &&& (direction == TransferDirection::Upload ==> final(events)@.last() == SDKEvent::SendStarted(id))
                &&& (direction == TransferDirection::Download ==> final(events)@.last() == SDKEvent::DownloadStarted(id))
            },
        },
        final(state).devices@ == old(state).devices@,
        final(state).shared_files@ == old(state).shared_files@,
        final(state).discovery_running == old(state).discovery_running,
        final(state).server_running == old(state).server_running,
{
    let addr = match lookup_device_address(state, device_id) {
        Ok(a) => a,
        Err(e) => return Err(e),
    };
    let id = generate_transfer_id();
    let info = TransferInfo {
        id: id.clone(),
        direction,
        file_name,
        file_size,
        transferred: 0,
        status: TransferStatus::Pending,
        remote_device: device_id.to_string(),
        local_path,
        error_message: None,
    };
    let ghost s0 = state.transfers@;
    let ghost gi = info;
    state.add_transfer(info);
    proof {
        lemma_added_is_first(s0, state.transfers@, gi);
    }
    let started = match direction {
        TransferDirection::Upload => SDKEvent::SendStarted(id.clone()),
        TransferDirection::Download => SDKEvent::DownloadStarted(id.clone()),
    };
    events.push(started);
    assert(events@.drop_last() =~= old(events)@);
    Ok((id, addr))
}

/// `first_transfer` names the first transfer of an id, when there is one.
proof fn lemma_first_transfer_spec(s: Seq<TransferState>, id: Seq<char>)
    ensures
        match first_transfer(s, id) {
            Some(k) => 0 <= k < s.len() && s[k].info.id@ == id && forall|j: int| 0 <= j < k ==> s[j].info.id@ != id,
            None => forall|i: int| 0 <= i < s.len() ==> s[i].info.id@ != id,
        },
{
    if exists|i: int| 0 <= i < s.len() && #[trigger] s[i].info.id@ == id {
        let m = lemma_min_witness(s, id);
        lemma_first_transfer_at(s, id, m);
    }
}

/// The first position of an id that occurs.
proof fn lemma_min_witness(s: Seq<TransferState>, id: Seq<char>) -> (m: int)
    requires
        exists|i: int| 0 <= i < s.len() && #[trigger] s[i].info.id@ == id,
    ensures
        0 <= m < s.len(),
        s[m].info.id@ == id,
        forall|j: int| 0 <= j < m ==> s[j].info.id@ != id,
    decreases s.len(),
{
    let p = s.drop_last();
    if exists|i: int| 0 <= i < p.len() && #[trigger] p[i].info.id@ == id {
        let m = lemma_min_witness(p, id);
        assert(s[m] == p[m]);
        assert forall|j: int| 0 <= j < m implies s[j].info.id@ != id by {
            assert(s[j] == p[j]);
        }
        m
    } else {
        let m = s.len() - 1;
        let i = choose|i: int| 0 <= i < s.len() && #[trigger] s[i].info.id@ == id;
        if i < m {
            assert(p[i] == s[i]);
        }
        assert forall|j: int| 0 <= j < m implies s[j].info.id@ != id by {
            assert(s[j] == p[j]);
        }
        m
    }
}

/// Recording a transfer and then asking for its id gives the transfer
/// back: after an addition (a known id replaced in place, a new one
/// appended), the first transfer of that id is the one added.
pub proof fn lemma_added_is_first(s0: Seq<TransferState>, s1: Seq<TransferState>, info: TransferInfo)
    requires
        match first_transfer(s0, info.id@) {
            Some(i) => same_except(s0, s1, i) && s1[i].info == info,
            None => s1.len() == s0.len() + 1 && s1.drop_last() == s0 && s1.last().info == info,
        },
    ensures
        first_transfer(s1, info.id@) matches Some(k) && s1[k].info == info,
{
    let id = info.id@;
    lemma_first_transfer_spec(s0, id);
    match first_transfer(s0, id) {
        Some(k) => {
            assert forall|j: int| 0 <= j < k implies s1[j].info.id@ != id by {
                assert(s1[j] == s0[j]);
            }
            lemma_first_transfer_at(s1, id, k);
        },
        None => {
            let k = s1.len() - 1;
            assert forall|j: int| 0 <= j < k implies s1[j].info.id@ != id by {
                assert(s1[j] == s1.drop_last()[j]);
            }
            lemma_first_transfer_at(s1, id, k);
        },
    }
}

/// A change at the first transfer of an id that keeps the id keeps it first.
proof fn lemma_first_kept(a: Seq<TransferState>, b: Seq<TransferState>, i: int, id: Seq<char>)
    requires
        first_transfer(a, id) == Some(i),
        0 <= i < a.len(),
        a[i].info.id@ == id,
        forall|j: int| 0 <= j < i ==> a[j].info.id@ != id,
        same_except(a, b, i),
        b[i].info.id@ == id,
    ensures
        first_transfer(b, id) == Some(i),
{
    assert forall|j: int| 0 <= j < i implies b[j].info.id@ != id by {
        assert(b[j] == a[j]);
    }
    lemma_first_transfer_at(b, id, i);
}

proof fn lemma_first_transfer_at(s: Seq<TransferState>, id: Seq<char>, k: int)
    requires
        0 <= k < s.len(),
        s[k].info.id@ == id,
        forall|j: int| 0 <= j < k ==> s[j].info.id@ != id,
    ensures
        first_transfer(s, id) == Some(k),
{
    let w = choose|i: int| 0 <= i < s.len() && s[i].info.id@ == id && forall|j: int| 0 <= j < i ==> s[j].info.id@ != id;
    assert(0 <= k < s.len() && s[k].info.id@ == id && forall|j: int| 0 <= j < k ==> s[j].info.id@ != id);
    assert(w == k) by {
        if w < k {
            assert(s[w].info.id@ != id);
        } else if w > k {
            assert(s[k].info.id@ != id);
        }
    }
}

/// Pauses a transfer; an unknown id is refused.
pub fn pause_transfer(state: &mut SDKState, transfer_id: &str) -> (r: Result<(), SDKError>)
    ensures
        match first_transfer(old(state).transfers@, transfer_id@) {
            Some(i) => r is Ok && changed_to(
                old(state).transfers@,
                final(state).transfers@,
                i,
                TransferInfo { status: TransferStatus::Paused, ..old(state).transfers@[i].info },
                true,
            ),
            None => (r matches Err(SDKError::NotFound(m)) && m@ == "Transfer not found: "@ + transfer_id@)
                && final(state).transfers@ == old(state).transfers@,
        },
        final(state).devices@ == old(state).devices@,
        final(state).shared_files@ == old(state).shared_files@,
{
    if state.pause_transfer(transfer_id) {
        Ok(())
    } else {
        Err(SDKError::NotFound(concat("Transfer not found: ", transfer_id)))
    }
}

/// Resumes a transfer; an unknown id is refused.
pub fn resume_transfer(state: &mut SDKState, transfer_id: &str) -> (r: Result<(), SDKError>)
    ensures
        match first_transfer(old(state).transfers@, transfer_id@) {
            Some(i) => r is Ok && changed_to(
                old(state).transfers@,
                final(state).transfers@,
                i,
                TransferInfo { status: TransferStatus::Transferring, ..old(state).transfers@[i].info },
                false,
            ),
            None => (r matches Err(SDKError::NotFound(m)) && m@ == "Transfer not found: "@ + transfer_id@)
                && final(state).transfers@ == old(state).transfers@,
        },
        final(state).devices@ == old(state).devices@,
        final(state).shared_files@ == old(state).shared_files@,
{
    if state.resume_transfer(transfer_id) {
        Ok(())
    } else {
        Err(SDKError::NotFound(concat("Transfer not found: ", transfer_id)))
    }
}

/// Cancels a transfer: it is dropped and an error event reports the
/// cancellation; an unknown id is refused.
pub fn cancel_transfer(state: &mut SDKState, events: &mut EventQueue, transfer_id: &str) -> (r: Result<
    (),
    SDKError,
>)
    ensures
        final(state).transfers@ == transfers_without(old(state).transfers@, transfer_id@),
        first_transfer(old(state).transfers@, transfer_id@) is Some ==> r is Ok && one_more(old(events)@, final(events)@)
            && (final(events)@.last() matches SDKEvent::Error(m) && m@ == "Transfer cancelled: "@ + transfer_id@),
        first_transfer(old(state).transfers@, transfer_id@) is None ==> (r matches Err(SDKError::NotFound(m)) && m@
            == "Transfer not found: "@ + transfer_id@) && final(events)@ == old(events)@,
        final(state).devices@ == old(state).devices@,
        final(state).shared_files@ == old(state).shared_files@,
{
    if state.remove_transfer(transfer_id) {
        events.push(SDKEvent::Error(concat("Transfer cancelled: ", transfer_id)));
        assert(events@.drop_last() =~= old(events)@);
        Ok(())
    } else {
        Err(SDKError::NotFound(concat("Transfer not found: ", transfer_id)))
    }
}

/// The address a file is uploaded to.
pub fn upload_url(device_addr: &str) -> (r: String)
    ensures
        r@ == "http://"@ + device_addr@ + "/upload"@,
{
    let a = concat("http://", device_addr);
    concat(a.as_str(), "/upload")
}

/// The address a shared file is downloaded from.
pub fn download_url(device_addr: &str, file_id: &str) -> (r: String)
    ensures
        r@ == "http://"@ + device_addr@ + "/download/"@ + file_id@,
{
    let a = concat("http://", device_addr);
    let b = concat(a.as_str(), "/download/");
    concat(b.as_str(), file_id)
}

/// Ends an upload. Success records the bytes sent, marks the transfer
/// completed and reports it; failure marks it failed with the message and
/// reports that.
pub fn finish_upload(state: &mut SDKState, events: &mut EventQueue, transfer_id: String, outcome: Result<u64, String>)
    ensures
        final(state).devices@ == old(state).devices@,
        final(state).shared_files@ == old(state).shared_files@,
        one_more(old(events)@, final(events)@),
        final(state).discovery_running == old(state).discovery_running,
        final(state).server_running == old(state).server_running,
        match outcome {
            Ok(total) => final(events)@.last() == SDKEvent::SendCompleted(transfer_id) && (first_transfer(
                old(state).transfers@,
                transfer_id@,
            ) matches Some(i) ==> changed_to(
                old(state).transfers@,
                final(state).transfers@,
                i,
                TransferInfo { transferred: total, status: TransferStatus::Completed, ..old(state).transfers@[i].info },
                old(state).transfers@[i].paused,
            )),
            Err(msg) => final(events)@.last() == SDKEvent::SendFailed(transfer_id, msg) && (first_transfer(
                old(state).transfers@,
                transfer_id@,
            ) matches Some(i) ==> changed_to(
                old(state).transfers@,
                final(state).transfers@,
                i,
                TransferInfo { status: TransferStatus::Failed(msg), ..old(state).transfers@[i].info },
                old(state).transfers@[i].paused,
            )),
        },
        first_transfer(old(state).transfers@, transfer_id@) is None ==> final(state).transfers@ == old(state).transfers@,
{
    match outcome {
        Ok(total) => {
            let ghost s0 = state.transfers@;
            state.update_transfer_progress(transfer_id.as_str(), total);
            proof {
                lemma_first_transfer_spec(s0, transfer_id@);
                if let Some(i) = first_transfer(s0, transfer_id@) {
                    lemma_first_kept(s0, state.transfers@, i, transfer_id@);
                }
            }
            state.set_transfer_status(transfer_id.as_str(), TransferStatus::Completed);
            events.push(SDKEvent::SendCompleted(transfer_id));
            assert(events@.drop_last() =~= old(events)@);
        },
        Err(msg) => {
            let m = msg.clone();
            state.set_transfer_status(transfer_id.as_str(), TransferStatus::Failed(m));
            events.push(SDKEvent::SendFailed(transfer_id, msg));
            assert(events@.drop_last() =~= old(events)@);
        },
    }
}

/// Records the bytes of a download received so far; every 100 KiB boundary
/// that the count lands on exactly is reported as progress.
pub fn record_download_progress(
    state: &mut SDKState,
    events: &mut EventQueue,
    transfer_id: &str,
    downloaded: u64,
    total: u64,
)
    ensures
        final(state).devices@ == old(state).devices@,
        final(state).shared_files@ == old(state).shared_files@,
        match first_transfer(old(state).transfers@, transfer_id@) {
            Some(i) => changed_to(
                old(state).transfers@,
                final(state).transfers@,
                i,
                TransferInfo { transferred: downloaded, ..old(state).transfers@[i].info },
                old(state).transfers@[i].paused,
            ),
            None => final(state).transfers@ == old(state).transfers@,
        },
        downloaded % 102400 == 0 ==> one_more(old(events)@, final(events)@) && (final(events)@.last() matches SDKEvent::DownloadProgress(t, d, n) && t@ == transfer_id@ && d == downloaded && n == total),
        downloaded % 102400 != 0 ==> final(events)@ == old(events)@,
{
    state.update_transfer_progress(transfer_id, downloaded);
    if downloaded % 102400 == 0 {
        events.push(SDKEvent::DownloadProgress(transfer_id.to_string(), downloaded, total));
        assert(events@.drop_last() =~= old(events)@);
    }
}

/// Ends a download. Success marks the transfer completed and reports where
/// the file was saved; failure marks it failed with the message and
/// reports that.
pub fn finish_download(
    state: &mut SDKState,
    events: &mut EventQueue,
    transfer_id: String,
    save_path: String,
    outcome: Result<u64, String>,
)
    ensures
        final(state).devices@ == old(state).devices@,
        final(state).shared_files@ == old(state).shared_files@,
        one_more(old(events)@, final(events)@),
        final(state).discovery_running == old(state).discovery_running,
        final(state).server_running == old(state).server_running,
        match outcome {
            Ok(_) => final(events)@.last() == SDKEvent::DownloadCompleted(transfer_id, save_path) && (first_transfer(
                old(state).transfers@,
                transfer_id@,
            ) matches Some(i) ==> changed_to(
                old(state).transfers@,
                final(state).transfers@,
                i,
                TransferInfo { status: TransferStatus::Completed, ..old(state).transfers@[i].info },
                old(state).transfers@[i].paused,
            )),
            Err(msg) => final(events)@.last() == SDKEvent::DownloadFailed(transfer_id, msg) && (first_transfer(
                old(state).transfers@,
                transfer_id@,
            ) matches Some(i) ==> changed_to(
                old(state).transfers@,
                final(state).transfers@,
                i,
                TransferInfo { status: TransferStatus::Failed(msg), ..old(state).transfers@[i].info },
                old(state).transfers@[i].paused,
            )),
        },
        first_transfer(old(state).transfers@, transfer_id@) is None ==> final(state).transfers@ == old(state).transfers@,
{
    match outcome {
        Ok(_) => {
            state.set_transfer_status(transfer_id.as_str(), TransferStatus::Completed);
            events.push(SDKEvent::DownloadCompleted(transfer_id, save_path));
            assert(events@.drop_last() =~= old(events)@);
        },
        Err(msg) => {
            let m = msg.clone();
            state.set_transfer_status(transfer_id.as_str(), TransferStatus::Failed(m));
            events.push(SDKEvent::DownloadFailed(transfer_id, msg));
            assert(events@.drop_last() =~= old(events)@);
        },
    }
}

} // verus!
