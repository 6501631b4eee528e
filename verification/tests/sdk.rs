use sharself::discovery::manager::{DiscoverySource, ManagedDevice, ManagedEvent};
use sharself::sdk::discovery::{check_start, check_stop, handle_event, manager_config};
use sharself::sdk::events::EventQueue;
use sharself::sdk::server::{file_for_download, file_hash_hex, file_id, generate_file_id, FileServerModule, ServerConfig};
use sharself::sdk::state::{SDKState, TransferState};
use sharself::sdk::transfer::{
    begin_transfer, cancel_transfer, device_address, download_url, finish_download, finish_upload,
    generate_transfer_id, pause_transfer, record_download_progress, resume_transfer, transfer_id, upload_url,
};
use sharself::sdk::types::{FileInfo, SDKError, SDKEvent, TransferDirection, TransferInfo, TransferStatus};
use sharself::sdk_ffi::{source_code, FfiErrorCode, FfiEventType, FfiTransferDirection, FfiTransferStatus};
use sharself::sdk_main::ShareSelfSDK;

#[test]
fn test_event_queue() {
    let mut queue = EventQueue::new();

    assert!(queue.poll().is_none());
    assert_eq!(queue.len(), 0);

    queue.push(SDKEvent::Error("test".to_string()));
    assert_eq!(queue.len(), 1);

    let event = queue.poll();
    assert!(event.is_some());
    assert_eq!(queue.len(), 0);
}

#[test]
fn test_transfer_id_generation() {
    let id = generate_transfer_id();
    assert!(id.starts_with("transfer-"));
    assert!(id.len() > 10);
}

#[test]
fn test_file_id_generation() {
    let id = generate_file_id("/test/file.txt");
    assert!(!id.is_empty());
}

#[test]
fn test_sdk_creation() {
    let sdk = ShareSelfSDK::new();
    assert_eq!(sdk.get_devices().len(), 0);
    assert_eq!(sdk.get_shared_files().len(), 0);
}

#[test]
fn test_sdk_default() {
    let sdk = ShareSelfSDK::default();
    assert_eq!(sdk.get_devices().len(), 0);
}

#[test]
fn event_queue_is_first_in_first_out() {
    let mut q = EventQueue::new();
    q.push(SDKEvent::DeviceLost("a".into()));
    q.push(SDKEvent::DeviceLost("b".into()));
    match q.poll() {
        Some(SDKEvent::DeviceLost(x)) => assert_eq!(x, "a"),
        other => panic!("unexpected {:?}", other),
    }
    let rest = q.drain();
    assert_eq!(rest.len(), 1);
    assert_eq!(q.len(), 0);
}

#[test]
fn ids_have_their_exact_shape() {
    assert_eq!(transfer_id(1700000000, 0xbeef), "transfer-1700000000-beef");
    assert_eq!(transfer_id(0, 0), "transfer-0-0");
    assert_eq!(file_id(42, 255), "42-ff");
}

#[test]
fn file_hash_is_sha1_in_hex() {
    assert_eq!(file_hash_hex(b"abc"), "a9993e364706816aba3e25717850c26c9cd0d89d");
    assert_eq!(file_hash_hex(b""), "da39a3ee5e6b4b0d3255bfef95601890afd80709");
}

fn managed(id: &str, addresses: Vec<&str>) -> ManagedDevice {
    ManagedDevice {
        id: id.to_string(),
        name: format!("dev-{}", id),
        hostname: format!("{}.local", id),
        addresses: addresses.into_iter().map(|a| a.to_string()).collect(),
        port: 8080,
        service_type: "_shareself._tcp.local".to_string(),
        source: DiscoverySource::Broadcast,
        last_seen_ms: 5,
    }
}

#[test]
fn device_address_prefers_first_address() {
    assert_eq!(device_address(&managed("a", vec!["10.0.0.2:8080", "10.0.0.3:8080"])), "10.0.0.2:8080");
    assert_eq!(device_address(&managed("b", vec![])), "b.local:8080");
}

#[test]
fn urls() {
    assert_eq!(upload_url("10.0.0.2:8080"), "http://10.0.0.2:8080/upload");
    assert_eq!(download_url("10.0.0.2:8080", "f1"), "http://10.0.0.2:8080/download/f1");
}

#[test]
fn transfer_to_unknown_device_is_refused() {
    let mut state = SDKState::new();
    let mut events = EventQueue::new();
    let r = begin_transfer(&mut state, &mut events, TransferDirection::Upload, "nobody", "f".into(), 1, "/tmp/f".into());
    match r {
        Err(SDKError::NotFound(m)) => assert_eq!(m, "Device not found: nobody"),
        _ => panic!("expected refusal"),
    }
    assert_eq!(state.transfers.len(), 0);
    assert_eq!(events.len(), 0);
}

#[test]
fn transfer_lifecycle() {
    let mut state = SDKState::new();
    let mut events = EventQueue::new();
    state.add_device(managed("d1", vec!["10.0.0.9:8080"]));
    let (id, addr) = begin_transfer(&mut state, &mut events, TransferDirection::Upload, "d1", "a.txt".into(), 10, "/tmp/a.txt".into()).unwrap();
    assert_eq!(addr, "10.0.0.9:8080");
    let info = state.get_transfer(&id).unwrap();
    assert!(matches!(info.status, TransferStatus::Pending));
    assert_eq!(info.remote_device, "d1");
    assert!(matches!(events.poll(), Some(SDKEvent::SendStarted(x)) if x == id));

    pause_transfer(&mut state, &id).unwrap();
    assert!(matches!(state.get_transfer(&id).unwrap().status, TransferStatus::Paused));
    resume_transfer(&mut state, &id).unwrap();
    assert!(matches!(state.get_transfer(&id).unwrap().status, TransferStatus::Transferring));

    finish_upload(&mut state, &mut events, id.clone(), Ok(10));
    let info = state.get_transfer(&id).unwrap();
    assert_eq!(info.transferred, 10);
    assert!(info.is_completed());
    assert!(matches!(events.poll(), Some(SDKEvent::SendCompleted(x)) if x == id));

    cancel_transfer(&mut state, &mut events, &id).unwrap();
    assert!(state.get_transfer(&id).is_none());
    assert!(matches!(events.poll(), Some(SDKEvent::Error(m)) if m == format!("Transfer cancelled: {}", id)));
    match cancel_transfer(&mut state, &mut events, &id) {
        Err(SDKError::NotFound(m)) => assert_eq!(m, format!("Transfer not found: {}", id)),
        _ => panic!("expected refusal"),
    }
    assert!(matches!(pause_transfer(&mut state, "none"), Err(SDKError::NotFound(_))));
    assert!(matches!(resume_transfer(&mut state, "none"), Err(SDKError::NotFound(_))));
}

#[test]
fn failed_download_and_progress() {
    let mut state = SDKState::new();
    let mut events = EventQueue::new();
    state.add_device(managed("d1", vec![]));
    let (id, _) = begin_transfer(&mut state, &mut events, TransferDirection::Download, "d1", "f".into(), 0, "/tmp/out".into()).unwrap();
    assert!(matches!(events.poll(), Some(SDKEvent::DownloadStarted(_))));
    record_download_progress(&mut state, &mut events, &id, 1000, 5000);
    assert_eq!(events.len(), 0);
    record_download_progress(&mut state, &mut events, &id, 102400, 204800);
    assert!(matches!(events.poll(), Some(SDKEvent::DownloadProgress(_, 102400, 204800))));
    assert_eq!(state.get_transfer(&id).unwrap().transferred, 102400);
    finish_download(&mut state, &mut events, id.clone(), "/tmp/out".into(), Err("boom".into()));
    match state.get_transfer(&id).unwrap().status {
        TransferStatus::Failed(m) => assert_eq!(m, "boom"),
        s => panic!("unexpected {:?}", s),
    }
    assert!(matches!(events.poll(), Some(SDKEvent::DownloadFailed(_, m)) if m == "boom"));
}

#[test]
fn discovery_events_update_state() {
    let mut state = SDKState::new();
    let mut events = EventQueue::new();
    handle_event(ManagedEvent::DeviceFound(managed("a", vec!["1.2.3.4:1"])), &mut state, &mut events);
    assert_eq!(state.get_devices().len(), 1);
    assert!(matches!(events.poll(), Some(SDKEvent::DeviceFound(d)) if d.id == "a"));
    let mut updated = managed("a", vec!["5.6.7.8:1"]);
    updated.port = 9;
    handle_event(ManagedEvent::DeviceUpdated(updated), &mut state, &mut events);
    assert_eq!(state.get_devices()[0].port, 9);
    assert_eq!(events.len(), 0);
    handle_event(ManagedEvent::DeviceLost("a".into()), &mut state, &mut events);
    assert_eq!(state.get_devices().len(), 0);
    assert!(matches!(events.poll(), Some(SDKEvent::DeviceLost(x)) if x == "a"));
    handle_event(ManagedEvent::Error("x".into()), &mut state, &mut events);
    assert!(matches!(events.poll(), Some(SDKEvent::Error(x)) if x == "x"));
}

#[test]
fn discovery_start_and_stop_checks() {
    let mut state = SDKState::new();
    assert!(check_start(&state).is_ok());
    assert!(matches!(check_stop(&state), Err(SDKError::NotFound(m)) if m == "Discovery not running"));
    state.set_discovery_running(true);
    assert!(matches!(check_start(&state), Err(SDKError::AlreadyRunning)));
    assert!(check_stop(&state).is_ok());
    let c = manager_config("host".into(), 7000);
    let b = c.broadcast_config.unwrap();
    assert_eq!(b.broadcast_port, 53317);
    assert_eq!(b.service_port, 7000);
    assert_eq!(b.device_name, "host");
    assert!(c.scan_config.is_none());
}

#[test]
fn server_module_start_and_stop() {
    let mut state = SDKState::new();
    let mut server = FileServerModule::new();
    assert!(FileServerModule::check_start(&state).is_ok());
    match server.stop(&mut state) {
        Err(SDKError::NotFound(m)) => assert_eq!(m, "Server not running"),
        _ => panic!("expected refusal"),
    }
    let config = FileServerModule::config_for(9000);
    assert_eq!(config.port, 9000);
    assert_eq!(config.bind_address, "0.0.0.0");
    server.started(&mut state, config, 9001);
    assert_eq!(server.get_port(), Some(9001));
    assert!(matches!(FileServerModule::check_start(&state), Err(SDKError::AlreadyRunning)));
    server.stop(&mut state).unwrap();
    assert_eq!(server.get_port(), None);
    assert!(!state.is_server_running());
    let d = ServerConfig::default();
    assert_eq!(d.port, 8080);
    assert!(d.upload_enabled && d.download_enabled);
}

#[test]
fn download_lookup_by_file_id() {
    let mut state = SDKState::new();
    state.add_shared_file(FileInfo {
        id: "f1".into(),
        name: "a.txt".into(),
        path: "/tmp/a.txt".into(),
        size: 3,
        mime_type: "text/plain".into(),
        hash: "h".into(),
    });
    assert_eq!(file_for_download(&state, "f1").unwrap().name, "a.txt");
    assert!(file_for_download(&state, "f2").is_none());
}

#[test]
fn ffi_codes() {
    assert_eq!(FfiErrorCode::Success.code(), 0);
    assert_eq!(FfiErrorCode::Server.code(), -10);
    assert_eq!(FfiErrorCode::from_sdk_error(&SDKError::Io("x".into())), FfiErrorCode::Io);
    assert_eq!(FfiErrorCode::from_sdk_error(&SDKError::NotInitialized).code(), -2);
    assert_eq!(FfiTransferStatus::from_status(&TransferStatus::Failed("e".into())).code(), 5);
    assert_eq!(FfiTransferDirection::from_direction(TransferDirection::Download).code(), 1);
    assert_eq!(FfiEventType::of_event(&SDKEvent::ServerStopped).code(), 12);
    assert_eq!(FfiEventType::NoEvent.code(), 0);
    assert_eq!(source_code(DiscoverySource::HTTPScan), 2);
    assert_eq!(sharself::ffi::FfiErrorCode::DiscoveryError.code(), -5);
}

#[test]
fn sdk_object_operations() {
    let mut sdk = ShareSelfSDK::new();
    assert!(sdk.initialize().is_ok());
    assert!(sdk.get_server_port().is_none());
    assert!(!sdk.has_events());
    assert!(sdk.poll_event().is_none());
    assert!(sdk.get_uploads().is_empty());
    assert!(matches!(sdk.cancel_transfer("t"), Err(SDKError::NotFound(_))));
    assert_eq!(sdk.remove_shared_file("/nothing").unwrap(), false);
    sdk.clear_shared_files();
    assert!(sdk.drain_events().is_empty());
}

#[test]
fn shared_file_record_guesses_type_and_hashes() {
    let r = sharself::sdk::server::shared_file_record("/tmp/a.txt".into(), "a.txt".into(), 3, b"abc");
    assert_eq!(r.mime_type, "text/plain");
    assert_eq!(r.hash, "a9993e364706816aba3e25717850c26c9cd0d89d");
    assert_eq!(r.size, 3);
    assert!(r.id.contains('-'));
    let unknown = sharself::sdk::server::shared_file_record("/tmp/blob".into(), "blob".into(), 0, b"");
    assert_eq!(unknown.mime_type, "application/octet-stream");
}

#[test]
fn version_is_set() {
    assert_eq!(sharself::VERSION, "0.1.0");
    assert_eq!(sharself::DEFAULT_SERVICE_TYPE, "_shareself._tcp.local");
    assert_eq!(sharself::MDNS_PORT, 5353);
}

#[test]
fn status_changes_keep_the_record_and_never_move_time_back() {
    let info = TransferInfo {
        id: "t1".to_string(),
        direction: TransferDirection::Upload,
        file_name: "a.txt".to_string(),
        file_size: 10,
        transferred: 0,
        status: TransferStatus::Pending,
        remote_device: "d1".to_string(),
        local_path: "/tmp/a.txt".to_string(),
        error_message: None,
    };
    let mut t = TransferState::new(info);
    t.updated_at_ms = u64::MAX;
    t.set_status(TransferStatus::Transferring);
    assert_eq!(t.info.status, TransferStatus::Transferring);
    assert_eq!(t.info.id, "t1");
    assert_eq!(t.updated_at_ms, u64::MAX);
    t.update_progress(5);
    assert_eq!(t.info.transferred, 5);
    assert_eq!(t.updated_at_ms, u64::MAX);
    assert!(!t.paused);
}

#[test]
fn sdk_reports_waiting_events_and_the_server_port() {
    let mut sdk = ShareSelfSDK::default();
    assert!(sdk.get_shared_files().is_empty());
    assert!(!sdk.has_events());
    sdk.events.push(SDKEvent::DeviceLost("d1".to_string()));
    assert!(sdk.has_events());
    assert!(sdk.poll_event().is_some());
    assert!(!sdk.has_events());
    assert!(sdk.get_server_port().is_none());
    sdk.server.started(&mut sdk.state, FileServerModule::config_for(9000), 9001);
    assert_eq!(sdk.get_server_port(), Some(9001));
}
