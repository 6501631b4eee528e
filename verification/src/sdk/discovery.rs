//! The SDK's discovery module: when it may start and stop, how it is
//! configured, and what each report of the discovery manager does to the
//! SDK's state and events.

use vstd::prelude::*;
use crate::discovery::broadcast::{BroadcastConfig, BROADCAST_PORT, host_name};
use crate::discovery::manager::{
    DeviceView, ManagedEvent, ManagerConfig, devices_view, has_id, without_id,
};
use crate::sdk::events::EventQueue;
use crate::sdk::state::SDKState;
use crate::sdk::types::{SDKError, SDKEvent};

verus! {

/// Discovery may start only when it is not running.
pub fn check_start(state: &SDKState) -> (r: Result<(), SDKError>)
    ensures
        state.discovery_running ==> r matches Err(SDKError::AlreadyRunning),
        !state.discovery_running ==> r is Ok,
{
    if state.is_discovery_running() {
        Err(SDKError::AlreadyRunning)
    } else {
        Ok(())
    }
}

/// Discovery may stop only when it is running.
pub fn check_stop(state: &SDKState) -> (r: Result<(), SDKError>)
    ensures
        !state.discovery_running ==> (r matches Err(SDKError::NotFound(m)) && m@ == "Discovery not running"@),
        state.discovery_running ==> r is Ok,
{
    if !state.is_discovery_running() {
        Err(SDKError::NotFound("Discovery not running".to_string()))
    } else {
        Ok(())
    }
}

/// The manager's settings for the SDK: mDNS and broadcasts on, scanning
/// off, announcing `device_name` with the service at `port`.
pub fn manager_config(device_name: String, port: u16) -> (r: ManagerConfig)
    ensures
        r.enable_mdns,
        r.enable_broadcast,
        !r.enable_scan,
        r.mdns_service_type@ == "_shareself._tcp.local"@,
        r.mdns_domain@ == "local"@,
        r.broadcast_config matches Some(b) && b.bind_port == 0 && b.broadcast_port == BROADCAST_PORT
            && b.interval_secs == 5 && b.device_name == device_name && b.service_port == port,
        r.scan_config is None,
{
    ManagerConfig {
        enable_mdns: true,
        enable_broadcast: true,
        enable_scan: false,
        mdns_service_type: "_shareself._tcp.local".to_string(),
        mdns_domain: "local".to_string(),
        broadcast_config: Some(
            BroadcastConfig {
                bind_port: 0,
                broadcast_port: BROADCAST_PORT,
                interval_secs: 5,
                device_name,
                service_port: port,
            },
        ),
        scan_config: None,
    }
}

/// The manager's settings for the SDK, announcing this machine's name.
pub fn default_manager_config(port: u16) -> (r: ManagerConfig)
    ensures
        r.enable_mdns,
        r.enable_broadcast,
        !r.enable_scan,
        r.broadcast_config matches Some(b) && b.service_port == port && b.broadcast_port == BROADCAST_PORT,
        r.scan_config is None,
{
    manager_config(host_name(), port)
}

/// The devices after an update of `d`: its old record goes and the new one
/// comes last.
pub open spec fn replaced(s: Seq<DeviceView>, d: DeviceView) -> Seq<DeviceView> {
    without_id(s, d.id).push(d)
}

/// Takes in a report of the discovery manager: a found device is recorded
/// and reported, a lost one forgotten and reported, an updated one
/// replaced; an error is reported; scan progress changes nothing.
pub fn handle_event(event: ManagedEvent, state: &mut SDKState, events: &mut EventQueue)
    ensures
        final(state).shared_files@ == old(state).shared_files@,
        final(state).transfers@ == old(state).transfers@,
        final(state).discovery_running == old(state).discovery_running,
        final(state).server_running == old(state).server_running,
        match event {
            ManagedEvent::DeviceFound(d) => {
                &&& devices_view(final(state).devices@) == if has_id(devices_view(old(state).devices@), d.id@) {
                    devices_view(old(state).devices@)
                } else {
                    devices_view(old(state).devices@).push(d@)
                }
                &&& final(events)@.len() == old(events)@.len() + 1
                &&& final(events)@.drop_last() == old(events)@
                &&& final(events)@.last() matches SDKEvent::DeviceFound(x) && x@ == d@
            },
            ManagedEvent::DeviceLost(id) => {
                &&& devices_view(final(state).devices@) == without_id(devices_view(old(state).devices@), id@)
                &&& final(events)@ == old(events)@.push(SDKEvent::DeviceLost(id))
            },
            ManagedEvent::DeviceUpdated(d) => {
                &&& devices_view(final(state).devices@) == replaced(devices_view(old(state).devices@), d@)
                &&& final(events)@ == old(events)@
            },
            ManagedEvent::ScanProgress { .. } => {
                &&& devices_view(final(state).devices@) == devices_view(old(state).devices@)
                &&& final(events)@ == old(events)@
            },
            ManagedEvent::Error(e) => {
                &&& devices_view(final(state).devices@) == devices_view(old(state).devices@)
                &&& final(events)@ == old(events)@.push(SDKEvent::Error(e))
            },
        },
{
    match event {
        ManagedEvent::DeviceFound(device) => {
            let copy = device.clone_device();
            state.add_device(device);
            events.push(SDKEvent::DeviceFound(copy));
        },
        ManagedEvent::DeviceLost(id) => {
            state.remove_device(id.as_str());
            events.push(SDKEvent::DeviceLost(id));
        },
        ManagedEvent::DeviceUpdated(device) => {
            let ghost s = devices_view(state.devices@);
            let ghost dv = device@;
            state.remove_device(device.id.as_str());
            proof {
                lemma_without_id_lacks(s, dv.id);
            }
            state.add_device(device);
        },
        ManagedEvent::ScanProgress { .. } => {},
        ManagedEvent::Error(e) => {
            events.push(SDKEvent::Error(e));
        },
    }
}

/// After the devices of an id are removed, none has that id.
pub proof fn lemma_without_id_lacks(s: Seq<DeviceView>, id: Seq<char>)
    ensures
        !has_id(without_id(s, id), id),
    decreases s.len(),
{
    if s.len() > 0 {
        lemma_without_id_lacks(s.drop_last(), id);
        let w = without_id(s.drop_last(), id);
        if s.last().id == id {
            assert(without_id(s, id) =~= w);
        } else {
            let t = without_id(s, id);
            assert(t =~= w.push(s.last()));
            assert forall|i: int| 0 <= i < t.len() implies #[trigger] t[i].id != id by {
                if i < w.len() {
                    assert(t[i] == w[i]);
                }
            }
        }
    }
}

} // verus!
